//! A relay listener and the bridges of the clients that connected to it,
//! and what becomes of a bridge when one of its transports fails.

use vstd::prelude::*;
use crate::addr::Endpoint;
use crate::bridge::Bridge;
use crate::config::AppConfig;
use crate::registry::{relay_in, registered, Registry, Relay};
use crate::tcpudp::Connection;

verus! {

/// The kinds of transport failure that the relay tells apart.
#[derive(Clone, Copy, Debug, PartialEq, Eq, Structural)]
pub enum ErrorKind {
    /// Nothing to read yet, or no room to write yet.
    WouldBlock,
    /// The peer closed the connection forcibly.
    ConnectionReset,
    /// The connection was aborted.
    ConnectionAborted,
    /// Any other failure.
    Other,
}

/// What becomes of a bridge after a failure.
#[derive(Clone, Copy, Debug, PartialEq, Eq, Structural)]
pub struct Verdict {
    /// Whether the bridge stays.
    pub keep: bool,
    /// Whether the failure is reported as an error.
    pub log: bool,
}

/// After a failed pull from the client: a reset ends the bridge, silently;
/// nothing to read is no failure at all; anything else is reported, and the
/// bridge stays.
pub open spec fn client_verdict(kind: ErrorKind) -> Verdict {
    match kind {
        ErrorKind::ConnectionReset => Verdict { keep: false, log: false },
        ErrorKind::WouldBlock => Verdict { keep: true, log: false },
        _ => Verdict { keep: true, log: true },
    }
}

/// After a failed pull from the backend: the bridge ends, and the failure
/// is reported unless it is a reset or an abort.
pub open spec fn server_verdict(kind: ErrorKind) -> Verdict {
    match kind {
        ErrorKind::ConnectionReset | ErrorKind::ConnectionAborted => Verdict {
            keep: false,
            log: false,
        },
        _ => Verdict { keep: false, log: true },
    }
}

/// Whether a failure to receive from the backend only says that nothing
/// more is to be had now. Every other failure, a reset among them, is a
/// failure of the pull.
pub open spec fn ends_drain(kind: ErrorKind) -> bool {
    kind == ErrorKind::WouldBlock
}

/// Whether a failure to accept only says that no further client is
/// waiting. Every other failure of the listener is fatal to the shim's
/// owner.
pub open spec fn ends_accept(kind: ErrorKind) -> bool {
    kind == ErrorKind::WouldBlock
}

/// What a read of `n` bytes from a client amounts to: with no byte read,
/// "no data yet", as if the transport had said that it would block; with
/// bytes read, no failure.
pub open spec fn read_failure(n: int) -> Option<ErrorKind> {
    if n == 0 {
        Some(ErrorKind::WouldBlock)
    } else {
        None
    }
}

impl ErrorKind {
    /// What becomes of a bridge whose pull from the client failed so.
    pub fn after_client_pull(self) -> (verdict: Verdict)
        ensures
            verdict == client_verdict(self),
    {
        match self {
            ErrorKind::ConnectionReset => Verdict { keep: false, log: false },
            ErrorKind::WouldBlock => Verdict { keep: true, log: false },
            _ => Verdict { keep: true, log: true },
        }
    }

    /// What becomes of a bridge whose pull from the backend failed so.
    pub fn after_server_pull(self) -> (verdict: Verdict)
        ensures
            verdict == server_verdict(self),
    {
        match self {
            ErrorKind::ConnectionReset => Verdict { keep: false, log: false },
            ErrorKind::ConnectionAborted => Verdict { keep: false, log: false },
            _ => Verdict { keep: false, log: true },
        }
    }

    /// Whether receiving from the backend just stops on this failure, with
    /// what was received so far in force. If not, the pull has failed.
    pub fn drained(self) -> (done: bool)
        ensures
            done == ends_drain(self),
    {
        match self {
            ErrorKind::WouldBlock => true,
            _ => false,
        }
    }

    /// Whether accepting just stops on this failure, all waiting clients
    /// having been taken in. If not, the listener has failed, and the
    /// failure goes to the owner of the shims.
    pub fn accepted_all(self) -> (done: bool)
        ensures
            done == ends_accept(self),
    {
        match self {
            ErrorKind::WouldBlock => true,
            _ => false,
        }
    }

    /// The failure that a read of `n` bytes from a client amounts to, if
    /// any: a read that gave nothing is "no data yet", not the end of the
    /// stream.
    pub fn after_read(n: usize) -> (failure: Option<ErrorKind>)
        ensures
            failure == read_failure(n as int),
    {
        if n == 0 {
            Some(ErrorKind::WouldBlock)
        } else {
            None
        }
    }
}

/// The clients of a shim: where each connected from and, at the same place,
/// its bridge.
struct Table<T, S> {
    clients: Vec<Endpoint>,
    bridges: Vec<Bridge<T, S>>,
}

impl<T, S> Table<T, S> {
    spec fn wf(&self) -> bool {
        self.clients@.len() == self.bridges@.len() && self.clients@.no_duplicates()
    }

    fn empty() -> (table: Self)
        ensures
            table.wf(),
            table.clients@ == Seq::<Endpoint>::empty(),
            table.bridges@ == Seq::<Bridge<T, S>>::empty(),
    {
        Table { clients: Vec::new(), bridges: Vec::new() }
    }

    /// The place of `client`.
    fn find(&self, client: &Endpoint) -> (at: Option<usize>)
        requires
            self.wf(),
        ensures
            match at {
                Some(index) => index < self.clients@.len() && self.clients@[index as int]
                    == *client,
                None => !self.clients@.contains(*client),
            },
    {
        let mut i: usize = 0;
        while i < self.clients.len()
            invariant
                i <= self.clients@.len(),
                forall|k: int| 0 <= k < i ==> self.clients@[k] != *client,
            decreases self.clients@.len() - i,
        {
            if self.clients[i] == *client {
                return Some(i);
            }
            i += 1;
        }
        None
    }

    /// Gives `client` the bridge `bridge`, and hands back the bridge that it
    /// had.
    fn insert(&mut self, client: Endpoint, bridge: Bridge<T, S>) -> (replaced: Option<
        Bridge<T, S>,
    >)
        requires
            old(self).wf(),
        ensures
            final(self).wf(),
            final(self).clients@ == inserted_clients(old(self).clients@, client),
            final(self).bridges@ == inserted_bridges(
                old(self).clients@,
                old(self).bridges@,
                client,
                bridge,
            ),
            replaced == replaced_bridge(old(self).clients@, old(self).bridges@, client),
    {
        match self.find(&client) {
            Some(index) => {
                let mut bridge = bridge;
                std::mem::swap(&mut self.bridges[index], &mut bridge);
                Some(bridge)
            },
            None => {
                self.clients.push(client);
                self.bridges.push(bridge);
                proof {
                    let before = old(self).clients@;
                    assert forall|i: int, j: int|
                        0 <= i < self.clients@.len() && 0 <= j < self.clients@.len() && i
                            != j implies self.clients@[i] != self.clients@[j] by {
                        if i < before.len() && j < before.len() {
                            assert(before[i] != before[j]);
                        }
                    }
                }
                None
            },
        }
    }

    /// Takes out the client at `index`, with its bridge.
    fn remove(&mut self, index: usize) -> (bridge: Bridge<T, S>)
        requires
            old(self).wf(),
            index < old(self).clients@.len(),
        ensures
            final(self).wf(),
            final(self).clients@ == old(self).clients@.remove(index as int),
            final(self).bridges@ == old(self).bridges@.remove(index as int),
            bridge == old(self).bridges@[index as int],
    {
        self.clients.remove(index);
        let bridge = self.bridges.remove(index);
        proof {
            let before = old(self).clients@;
            let after = self.clients@;
            assert forall|i: int, j: int|
                0 <= i < after.len() && 0 <= j < after.len() && i != j implies after[i]
                != after[j] by {
                let a = if i < index { i } else { i + 1 };
                let b = if j < index { j } else { j + 1 };
                assert(after[i] == before[a] && after[j] == before[b]);
            }
        }
        bridge
    }
}

/// The clients after `client` connected: as before if it had a bridge
/// already, else with it at the end.
pub open spec fn inserted_clients(clients: Seq<Endpoint>, client: Endpoint) -> Seq<Endpoint> {
    if clients.contains(client) {
        clients
    } else {
        clients.push(client)
    }
}

/// The bridges after `client` connected and got `bridge`: at the client's
/// place if it had one already, else at the end.
pub open spec fn inserted_bridges<T, S>(
    clients: Seq<Endpoint>,
    bridges: Seq<Bridge<T, S>>,
    client: Endpoint,
    bridge: Bridge<T, S>,
) -> Seq<Bridge<T, S>> {
    if clients.contains(client) {
        bridges.update(clients.index_of(client), bridge)
    } else {
        bridges.push(bridge)
    }
}

/// The bridge that `client` had before it connected again.
pub open spec fn replaced_bridge<T, S>(
    clients: Seq<Endpoint>,
    bridges: Seq<Bridge<T, S>>,
    client: Endpoint,
) -> Option<Bridge<T, S>> {
    if clients.contains(client) {
        Some(bridges[clients.index_of(client)])
    } else {
        None
    }
}

/// A listener that stands in for one backend, with a bridge for each client
/// that connected to it. `L` is the listener, `T` a client's stream and `S`
/// a session with the backend; the shim keeps them and never looks inside.
pub struct Shim<L, T, S> {
    /// The backend that connections are relayed to.
    connect_addr: Endpoint,
    tcp_listener: L,
    /// The address that the listener is bound to.
    local_addr: Endpoint,
    table: Table<T, S>,
    config: AppConfig,
}

/// What a bridge asks of the owner of the shims, which alone may change
/// their set and the registry.
pub enum ShimCommand<L, T, S> {
    /// Add the shim to the active ones and register its local address as
    /// the relay of the backend.
    NewShim(Endpoint, Shim<L, T, S>),
}

impl<L, T, S> ShimCommand<L, T, S> {
    /// The registration that this command asks for.
    pub open spec fn relay(&self) -> Relay {
        match self {
            ShimCommand::NewShim(backend, shim) => Relay {
                backend: *backend,
                local: shim.local_addr_view(),
            },
        }
    }

    /// The shim that this command carries.
    pub open spec fn shim(&self) -> Shim<L, T, S> {
        match self {
            ShimCommand::NewShim(_, shim) => *shim,
        }
    }

    /// The registration that this command asks for.
    pub fn announces(&self) -> (relay: Relay)
        ensures
            relay == self.relay(),
    {
        match self {
            ShimCommand::NewShim(backend, shim) => Relay {
                backend: *backend,
                local: shim.local_addr(),
            },
        }
    }
}

/// The registrations that `cmds` ask for, in order.
pub open spec fn announced<L, T, S>(cmds: Seq<ShimCommand<L, T, S>>) -> Seq<Relay> {
    cmds.map_values(|cmd: ShimCommand<L, T, S>| cmd.relay())
}

impl<L, T, S> Shim<L, T, S> {
    #[verifier::type_invariant]
    spec fn inv(&self) -> bool {
        self.table.wf()
    }

    /// The backend that this shim relays to.
    pub closed spec fn connect_addr_view(&self) -> Endpoint {
        self.connect_addr
    }

    /// The address that the listener is bound to.
    pub closed spec fn local_addr_view(&self) -> Endpoint {
        self.local_addr
    }

    /// The listener.
    pub closed spec fn listener_view(&self) -> L {
        self.tcp_listener
    }

    /// The configuration that new bridges get.
    pub closed spec fn config_view(&self) -> AppConfig {
        self.config
    }

    /// Where the clients connected from, in the order in which they did.
    pub closed spec fn clients(&self) -> Seq<Endpoint> {
        self.table.clients@
    }

    /// The bridge of each client, at the client's place.
    pub closed spec fn bridges(&self) -> Seq<Bridge<T, S>> {
        self.table.bridges@
    }

    /// Everything about the shim but its clients is the same in `other`.
    pub open spec fn same_listener(&self, other: &Self) -> bool {
        &&& self.listener_view() == other.listener_view()
        &&& self.local_addr_view() == other.local_addr_view()
        &&& self.connect_addr_view() == other.connect_addr_view()
        &&& self.config_view() == other.config_view()
    }

    /// A shim around a listener that is bound to `local_addr`, for clients
    /// of the backend at `connect_addr`. It has no client yet.
    pub fn new(
        tcp_listener: L,
        local_addr: Endpoint,
        connect_addr: Endpoint,
        config: AppConfig,
    ) -> (shim: Self)
        ensures
            shim.listener_view() == tcp_listener,
            shim.local_addr_view() == local_addr,
            shim.connect_addr_view() == connect_addr,
            shim.config_view() == config,
            shim.clients() == Seq::<Endpoint>::empty(),
            shim.bridges() == Seq::<Bridge<T, S>>::empty(),
    {
        Shim { connect_addr, tcp_listener, local_addr, table: Table::empty(), config }
    }

    /// The address that the listener is bound to. With port 0 asked for,
    /// this is where the chosen port shows.
    pub fn local_addr(&self) -> (addr: Endpoint)
        ensures
            addr == self.local_addr_view(),
    {
        self.local_addr
    }

    /// The backend that this shim relays to.
    pub fn connect_addr(&self) -> (addr: Endpoint)
        ensures
            addr == self.connect_addr_view(),
    {
        self.connect_addr
    }

    /// The listener, for accepting.
    pub fn listener(&self) -> (listener: &L)
        ensures
            *listener == self.listener_view(),
    {
        &self.tcp_listener
    }

    /// How many clients have a bridge.
    pub fn bridge_count(&self) -> (n: usize)
        ensures
            n == self.clients().len(),
            n == self.bridges().len(),
            self.clients().no_duplicates(),
    {
        proof {
            use_type_invariant(self);
        }
        self.table.bridges.len()
    }

    /// Where the client at `index` connected from.
    pub fn client_addr(&self, index: usize) -> (addr: Option<Endpoint>)
        ensures
            addr == if index < self.clients().len() {
                Some(self.clients()[index as int])
            } else {
                None::<Endpoint>
            },
    {
        if index < self.table.clients.len() {
            Some(self.table.clients[index])
        } else {
            None
        }
    }

    /// The bridge of the client at `index`, for driving its transports.
    pub fn bridge_mut(&mut self, index: usize) -> (bridge: &mut Bridge<T, S>)
        requires
            index < old(self).bridges().len(),
        ensures
            *bridge == old(self).bridges()[index as int],
            final(self).bridges() == old(self).bridges().update(index as int, *final(bridge)),
            final(self).clients() == old(self).clients(),
            final(self).same_listener(old(self)),
    {
        proof {
            use_type_invariant(&*self);
        }
        &mut self.table.bridges[index]
    }

    /// A bridge for a client that connected over `source`, with the session
    /// `server` to this shim's backend.
    pub fn create_bridge(&self, source: Connection<T>, server: S) -> (bridge: Bridge<T, S>)
        ensures
            bridge.client() == source,
            bridge.server() == server,
            bridge.server_addr() == self.connect_addr_view(),
            bridge.config() == self.config_view(),
    {
        Bridge::new(source, server, self.connect_addr, self.config.clone())
    }

    /// Takes in the bridge of the client that connected from `client`. If
    /// that address had a bridge already, the new one takes its place and
    /// the old one is handed back for closing.
    pub fn insert(&mut self, client: Endpoint, bridge: Bridge<T, S>) -> (replaced: Option<
        Bridge<T, S>,
    >)
        ensures
            final(self).same_listener(old(self)),
            final(self).clients() == inserted_clients(old(self).clients(), client),
            final(self).bridges() == inserted_bridges(
                old(self).clients(),
                old(self).bridges(),
                client,
                bridge,
            ),
            replaced == replaced_bridge(old(self).clients(), old(self).bridges(), client),
    {
        proof {
            use_type_invariant(&*self);
        }
        let mut table = Table::empty();
        std::mem::swap(&mut self.table, &mut table);
        let replaced = table.insert(client, bridge);
        self.table = table;
        replaced
    }

    /// Takes out the client at `index`, with its bridge, which is handed
    /// back for closing. No other client is touched. Nothing happens if
    /// there is no such client.
    pub fn remove(&mut self, index: usize) -> (closed: Option<Bridge<T, S>>)
        ensures
            final(self).same_listener(old(self)),
            index < old(self).bridges().len() ==> {
                &&& closed == Some(old(self).bridges()[index as int])
                &&& final(self).clients() == old(self).clients().remove(index as int)
                &&& final(self).bridges() == old(self).bridges().remove(index as int)
            },
            index >= old(self).bridges().len() ==> {
                &&& closed is None
                &&& final(self).clients() == old(self).clients()
                &&& final(self).bridges() == old(self).bridges()
            },
    {
        proof {
            use_type_invariant(&*self);
        }
        if index >= self.table.bridges.len() {
            return None;
        }
        let mut table = Table::empty();
        std::mem::swap(&mut self.table, &mut table);
        let bridge = table.remove(index);
        self.table = table;
        Some(bridge)
    }

    /// Settles a failed pull from the client at `index`: the bridge is
    /// taken out, and handed back for closing, if the failure ends it. Says
    /// also whether the failure is to be reported. No other client is
    /// touched, and the shim goes on.
    pub fn client_receive(&mut self, index: usize, kind: ErrorKind) -> (r: (
        Option<Bridge<T, S>>,
        bool,
    ))
        ensures
            final(self).same_listener(old(self)),
            r.1 == client_verdict(kind).log,
            !client_verdict(kind).keep && index < old(self).bridges().len() ==> {
                &&& r.0 == Some(old(self).bridges()[index as int])
                &&& final(self).clients() == old(self).clients().remove(index as int)
                &&& final(self).bridges() == old(self).bridges().remove(index as int)
            },
            client_verdict(kind).keep || index >= old(self).bridges().len() ==> {
                &&& r.0 is None
                &&& final(self).clients() == old(self).clients()
                &&& final(self).bridges() == old(self).bridges()
            },
    {
        let verdict = kind.after_client_pull();
        if verdict.keep {
            (None, verdict.log)
        } else {
            (self.remove(index), verdict.log)
        }
    }

    /// Settles the pull from the backend of the client at `index`.
    ///
    /// `cmds` holds the commands of this tick, those from `mark` on being
    /// the ones that this pull added. If the pull went well, everything
    /// stays. If it failed, the bridge is taken out and handed back for
    /// closing, the commands that the pull added are taken back and handed
    /// back too, and the answer says whether the failure is to be reported.
    /// No other client is touched, and the shim goes on.
    pub fn step(
        &mut self,
        index: usize,
        failure: Option<ErrorKind>,
        cmds: &mut Vec<ShimCommand<L, T, S>>,
        mark: usize,
    ) -> (r: (Option<Bridge<T, S>>, Vec<ShimCommand<L, T, S>>, bool))
        ensures
            final(self).same_listener(old(self)),
            final(cmds)@ + r.1@ == old(cmds)@,
            match failure {
                Some(kind) => {
                    &&& r.2 == server_verdict(kind).log
                    &&& final(cmds)@.len() == if mark <= old(cmds)@.len() {
                        mark as int
                    } else {
                        old(cmds)@.len() as int
                    }
                },
                None => !r.2 && final(cmds)@ == old(cmds)@,
            },
            failure is Some && index < old(self).bridges().len() ==> {
                &&& r.0 == Some(old(self).bridges()[index as int])
                &&& final(self).clients() == old(self).clients().remove(index as int)
                &&& final(self).bridges() == old(self).bridges().remove(index as int)
            },
            failure is None || index >= old(self).bridges().len() ==> {
                &&& r.0 is None
                &&& final(self).clients() == old(self).clients()
                &&& final(self).bridges() == old(self).bridges()
            },
    {
        match failure {
            Some(kind) => {
                let verdict = kind.after_server_pull();
                let taken = if mark <= cmds.len() {
                    cmds.split_off(mark)
                } else {
                    Vec::new()
                };
                assert(cmds@ + taken@ =~= old(cmds)@);
                (self.remove(index), taken, verdict.log)
            },
            None => {
                let taken: Vec<ShimCommand<L, T, S>> = Vec::new();
                assert(cmds@ + taken@ =~= old(cmds)@);
                (None, taken, false)
            },
        }
    }
}

/// Every shim's backend is registered, with the shim's own address as its
/// relay, and no two shims stand in for the same backend.
pub open spec fn served<L, T, S>(shims: Seq<Shim<L, T, S>>, entries: Seq<Relay>) -> bool {
    &&& forall|i: int|
        0 <= i < shims.len() ==> relay_in(entries, (#[trigger] shims[i]).connect_addr_view())
            == Some(shims[i].local_addr_view())
    &&& forall|i: int, j: int|
        0 <= i < j < shims.len() ==> (#[trigger] shims[i]).connect_addr_view() != (
        #[trigger] shims[j]).connect_addr_view()
}

/// Carries out a command: registers the shim's address as the relay of the
/// backend and adds the shim to the active ones. If the backend has a relay
/// already, nothing changes and the shim is handed back for closing: no
/// backend ever gets a second relay.
pub fn apply<L, T, S>(
    cmd: ShimCommand<L, T, S>,
    shims: &mut Vec<Shim<L, T, S>>,
    addrs: &mut Registry,
) -> (rejected: Option<Shim<L, T, S>>)
    ensures
        final(addrs).entries() == registered(
            old(addrs).entries(),
            cmd.relay().backend,
            cmd.relay().local,
        ),
        match rejected {
            None => relay_in(old(addrs).entries(), cmd.relay().backend) is None && final(shims)@
                == old(shims)@.push(cmd.shim()),
            Some(shim) => relay_in(old(addrs).entries(), cmd.relay().backend) is Some && shim
                == cmd.shim() && final(shims)@ == old(shims)@,
        },
        served(old(shims)@, old(addrs).entries()) && cmd.relay().backend
            == cmd.shim().connect_addr_view() ==> served(final(shims)@, final(addrs).entries()),
{
    let ghost entries = addrs.entries();
    let ghost before = shims@;
    match cmd {
        ShimCommand::NewShim(backend, shim) => {
            let local = shim.local_addr();
            proof {
                addrs.lemma_view(backend);
            }
            if addrs.insert(backend, local) {
                shims.push(shim);
                proof {
                    if served(before, entries) && backend == shim.connect_addr_view() {
                        assert(addrs.entries() == entries.push(Relay { backend, local }));
                        assert(addrs.entries().drop_last() =~= entries);
                        assert forall|i: int| 0 <= i < shims@.len() implies relay_in(
                            addrs.entries(),
                            (#[trigger] shims@[i]).connect_addr_view(),
                        ) == Some(shims@[i].local_addr_view()) by {
                            if i < before.len() {
                                assert(shims@[i] == before[i]);
                            }
                        }
                        assert forall|i: int, j: int| 0 <= i < j < shims@.len() implies (
                        #[trigger] shims@[i]).connect_addr_view() != (
                        #[trigger] shims@[j]).connect_addr_view() by {
                            assert(shims@[i] == before[i]);
                            if j < before.len() {
                                assert(shims@[j] == before[j]);
                            }
                        }
                    }
                }
                None
            } else {
                Some(shim)
            }
        },
    }
}

} // verus!
