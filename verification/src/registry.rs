//! The relay registry: which local listener stands in for which backend.

use vstd::prelude::*;
use crate::addr::Endpoint;

verus! {

/// One registration: the backend and the local address of its relay.
#[derive(Clone, Copy, Debug, PartialEq, Eq, Structural)]
pub struct Relay {
    pub backend: Endpoint,
    pub local: Endpoint,
}

/// The relay of `backend` among `entries`: that of the earliest entry for
/// it.
pub open spec fn relay_in(entries: Seq<Relay>, backend: Endpoint) -> Option<Endpoint>
    decreases entries.len(),
{
    if entries.len() == 0 {
        None
    } else {
        let earlier = relay_in(entries.drop_last(), backend);
        if earlier is Some {
            earlier
        } else if entries.last().backend == backend {
            Some(entries.last().local)
        } else {
            None
        }
    }
}

/// A backend has a relay among `entries` exactly if one of them is for it,
/// and the relay is that of such an entry.
pub proof fn lemma_relay_in(entries: Seq<Relay>, backend: Endpoint)
    ensures
        relay_in(entries, backend) is Some <==> exists|i: int|
            0 <= i < entries.len() && (#[trigger] entries[i]).backend == backend,
        relay_in(entries, backend) is Some ==> exists|i: int|
            0 <= i < entries.len() && (#[trigger] entries[i]) == (Relay {
                backend,
                local: relay_in(entries, backend)->Some_0,
            }),
    decreases entries.len(),
{
    if entries.len() > 0 {
        let init = entries.drop_last();
        lemma_relay_in(init, backend);
        if relay_in(init, backend) is Some {
            let i = choose|i: int|
                0 <= i < init.len() && (#[trigger] init[i]) == (Relay {
                    backend,
                    local: relay_in(init, backend)->Some_0,
                });
            assert(entries[i] == init[i]);
        } else if entries.last().backend == backend {
            assert(entries[entries.len() - 1].backend == backend);
        } else {
            assert forall|i: int| 0 <= i < entries.len() implies (#[trigger] entries[i]).backend
                != backend by {
                if i < init.len() {
                    assert(init[i].backend != backend);
                }
            }
        }
    }
}

/// What a backend has among the first entries it keeps when more follow.
pub proof fn lemma_relay_in_prefix(entries: Seq<Relay>, n: int, backend: Endpoint)
    requires
        0 <= n <= entries.len(),
        relay_in(entries.take(n), backend) is Some,
    ensures
        relay_in(entries, backend) == relay_in(entries.take(n), backend),
    decreases entries.len() - n,
{
    if n < entries.len() {
        assert(entries.take(n + 1).drop_last() =~= entries.take(n));
        lemma_relay_in_prefix(entries, n + 1, backend);
    } else {
        assert(entries.take(n) =~= entries);
    }
}

/// No backend has two entries.
pub open spec fn distinct_backends(entries: Seq<Relay>) -> bool {
    forall|i: int, j: int|
        0 <= i < j < entries.len() ==> (#[trigger] entries[i]).backend != (
        #[trigger] entries[j]).backend
}

/// The entries after `local` was offered as the relay of `backend`: a new
/// entry at the end if the backend had none, else what they were.
pub open spec fn registered(entries: Seq<Relay>, backend: Endpoint, local: Endpoint) -> Seq<
    Relay,
> {
    if relay_in(entries, backend) is Some {
        entries
    } else {
        entries.push(Relay { backend, local })
    }
}

/// Registering never gives a backend a second relay: a backend that had a
/// relay keeps that one, whatever is offered for it later, the backend
/// offered has one afterwards, and still no backend has two entries.
pub proof fn lemma_registered(
    entries: Seq<Relay>,
    backend: Endpoint,
    local: Endpoint,
    other: Endpoint,
)
    requires
        distinct_backends(entries),
    ensures
        distinct_backends(registered(entries, backend, local)),
        relay_in(registered(entries, backend, local), backend) is Some,
        relay_in(entries, other) is Some ==> relay_in(registered(entries, backend, local), other)
            == relay_in(entries, other),
        relay_in(entries, backend) is None ==> relay_in(
            registered(entries, backend, local),
            backend,
        ) == Some(local),
        other != backend ==> relay_in(registered(entries, backend, local), other) == relay_in(
            entries,
            other,
        ),
{
    lemma_relay_in(entries, backend);
    if relay_in(entries, backend) is None {
        let after = entries.push(Relay { backend, local });
        assert(after.drop_last() =~= entries);
    }
}

/// Backend address to relay address, append-only: a backend that has a
/// relay keeps it, and none has two.
pub struct Registry {
    entries: Vec<Relay>,
}

impl View for Registry {
    type V = Map<Endpoint, Endpoint>;

    closed spec fn view(&self) -> Map<Endpoint, Endpoint> {
        Map::new(
            |backend: Endpoint| relay_in(self.entries@, backend) is Some,
            |backend: Endpoint| relay_in(self.entries@, backend)->Some_0,
        )
    }
}

impl Registry {
    #[verifier::type_invariant]
    spec fn inv(&self) -> bool {
        distinct_backends(self.entries@)
    }

    /// The registrations, oldest first.
    pub closed spec fn entries(&self) -> Seq<Relay> {
        self.entries@
    }

    /// The map holds what the registrations hold.
    pub proof fn lemma_view(&self, backend: Endpoint)
        ensures
            self@.contains_key(backend) <==> relay_in(self.entries(), backend) is Some,
            self@.contains_key(backend) ==> self@[backend] == relay_in(
                self.entries(),
                backend,
            )->Some_0,
    {
    }

    /// A registry without registrations.
    pub fn new() -> (registry: Registry)
        ensures
            registry@ == Map::<Endpoint, Endpoint>::empty(),
            registry.entries() == Seq::<Relay>::empty(),
    {
        let registry = Registry { entries: Vec::new() };
        assert(registry@ =~= Map::<Endpoint, Endpoint>::empty());
        registry
    }

    /// How many backends are registered.
    pub fn len(&self) -> (n: usize)
        ensures
            n == self.entries().len(),
            distinct_backends(self.entries()),
    {
        proof {
            use_type_invariant(self);
        }
        self.entries.len()
    }

    /// The relay that stands in for `backend`, if one is registered.
    pub fn get(&self, backend: &Endpoint) -> (relay: Option<Endpoint>)
        ensures
            relay == relay_in(self.entries(), *backend),
            relay == if self@.contains_key(*backend) {
                Some(self@[*backend])
            } else {
                None::<Endpoint>
            },
    {
        let mut i: usize = 0;
        while i < self.entries.len()
            invariant
                i <= self.entries@.len(),
                relay_in(self.entries@.take(i as int), *backend) is None,
            decreases self.entries@.len() - i,
        {
            proof {
                assert(self.entries@.take(i + 1).drop_last() =~= self.entries@.take(i as int));
            }
            if self.entries[i].backend == *backend {
                proof {
                    lemma_relay_in_prefix(self.entries@, i + 1, *backend);
                }
                return Some(self.entries[i].local);
            }
            i += 1;
        }
        proof {
            assert(self.entries@.take(i as int) =~= self.entries@);
        }
        None
    }

    /// Registers `local` as the relay of `backend`, unless the backend has
    /// one already: then nothing changes and the answer is `false`.
    pub fn insert(&mut self, backend: Endpoint, local: Endpoint) -> (added: bool)
        ensures
            added == !old(self)@.contains_key(backend),
            final(self).entries() == registered(old(self).entries(), backend, local),
            distinct_backends(final(self).entries()),
            added ==> final(self)@ == old(self)@.insert(backend, local),
            !added ==> final(self)@ == old(self)@,
    {
        proof {
            use_type_invariant(&*self);
            lemma_registered(self.entries@, backend, local, backend);
        }
        if self.get(&backend).is_some() {
            return false;
        }
        let mut entries: Vec<Relay> = Vec::new();
        std::mem::swap(&mut self.entries, &mut entries);
        entries.push(Relay { backend, local });
        self.entries = entries;
        proof {
            assert(self.entries@.drop_last() =~= old(self).entries@);
            assert(self@ =~= old(self)@.insert(backend, local));
        }
        true
    }
}

} // verus!
