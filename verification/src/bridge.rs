//! The per-client bridge between the framed stream and the legacy datagram
//! session, and the packets that cross it.

use vstd::prelude::*;
use vstd::slice::slice_subrange;
use vstd::slice::slice_to_vec;
use crate::addr::{Endpoint, Host};
use crate::config::AppConfig;
use crate::registry::{lemma_relay_in_prefix, registered, relay_in, Registry, Relay};
use crate::shim::{announced, ShimCommand};
use crate::tcpudp::{advance, complete, frames, payloads, Connection};
use crate::wire::{get_u16, le_u16, put_u16, u16_le_bytes};

verus! {

/// First byte of every application message.
pub const USER_MESSAGE: u8 = 83;

/// Second byte of the application messages that are addressed to a client.
pub const CLIENT_SERVICE: u8 = 5;

/// Id of the login response among the messages to a client.
pub const LOGIN_RESPONSE: u8 = 0;

/// Id of the transfer to another world among the messages to a client.
pub const TRANSFER_TO_WORLD: u8 = 14;

/// Result code of a login that succeeded.
pub const LOGIN_SUCCESS: u8 = 1;

/// First byte of the request that opens a session with a backend.
pub const OPEN_CONNECTION_REQUEST: u8 = 9;

/// Second byte of that request.
pub const OPEN_CONNECTION_TAG: u8 = 121;

/// Control messages of the legacy data-level protocol that this relay has to
/// recognise.
#[derive(Clone, Copy, Debug, PartialEq, Eq, Structural)]
pub enum MessageType {
    /// First message of a session: the request to open a connection.
    OpenConnectionRequest,
    /// The request to open a connection was accepted.
    OpenConnectionReply,
    /// The request to open a connection was refused.
    NoFreeIncomingConnections,
    /// The peer has disconnected voluntarily.
    DisconnectNotification,
}

impl MessageType {
    /// The number that stands for this message on the wire.
    pub fn id(self) -> (id: u8)
        ensures
            id == match self {
                MessageType::OpenConnectionRequest => 9u8,
                MessageType::OpenConnectionReply => 10u8,
                MessageType::NoFreeIncomingConnections => 18u8,
                MessageType::DisconnectNotification => 19u8,
            },
    {
        match self {
            MessageType::OpenConnectionRequest => OPEN_CONNECTION_REQUEST,
            MessageType::OpenConnectionReply => 10,
            MessageType::NoFreeIncomingConnections => 18,
            MessageType::DisconnectNotification => 19,
        }
    }

    /// The control message that `id` stands for, if it is one of those
    /// listed here.
    pub fn from_id(id: u8) -> (message: Option<MessageType>)
        ensures
            message == match id {
                9u8 => Some(MessageType::OpenConnectionRequest),
                10u8 => Some(MessageType::OpenConnectionReply),
                18u8 => Some(MessageType::NoFreeIncomingConnections),
                19u8 => Some(MessageType::DisconnectNotification),
                _ => None::<MessageType>,
            },
    {
        if id == 9 {
            Some(MessageType::OpenConnectionRequest)
        } else if id == 10 {
            Some(MessageType::OpenConnectionReply)
        } else if id == 18 {
            Some(MessageType::NoFreeIncomingConnections)
        } else if id == 19 {
            Some(MessageType::DisconnectNotification)
        } else {
            None
        }
    }
}

/// Delivery classes of the legacy protocol.
#[derive(Clone, Copy, Debug, PartialEq, Eq, Structural)]
pub enum Reliability {
    /// May be lost, may arrive out of order.
    Unreliable,
    /// May be lost; of packets out of order only the newest is kept.
    UnreliableSequenced,
    /// Arrives at some point, in no particular order.
    Reliable,
    /// Arrives, and in the order of sending.
    ReliableOrdered,
}

/// What a connection hands out on receiving and takes for sending: a
/// delivery class and the payload.
#[derive(Debug)]
pub struct Packet {
    pub reliability: Reliability,
    pub data: Vec<u8>,
}

/// The two kinds of message that tell a client where to connect next.
#[derive(Clone, Copy, Debug, PartialEq, Eq, Structural)]
pub enum Redirect {
    /// The answer to a login, which names the first world server.
    LoginResponse,
    /// The order to move to another world server.
    Transfer,
}

impl Redirect {
    /// Where the address starts in a message of this kind.
    pub open spec fn spec_ip_offset(self) -> int {
        match self {
            Redirect::LoginResponse => 345,
            Redirect::Transfer => 8,
        }
    }

    /// Where the two bytes of the port start in a message of this kind.
    pub open spec fn spec_port_offset(self) -> int {
        match self {
            Redirect::LoginResponse => 411,
            Redirect::Transfer => 41,
        }
    }

    /// Room for the address in a message of this kind: the bytes from the
    /// start of the address up to the port.
    pub open spec fn spec_room(self) -> int {
        self.spec_port_offset() - self.spec_ip_offset()
    }

    /// Room for the address in a message of this kind: the bytes from the
    /// start of the address up to the port.
    pub fn room(self) -> (room: usize)
        ensures
            room == self.spec_room(),
    {
        match self {
            Redirect::LoginResponse => 66,
            Redirect::Transfer => 33,
        }
    }

    /// Where the address starts in a message of this kind.
    pub fn ip_offset(self) -> (offset: usize)
        ensures
            offset == self.spec_ip_offset(),
    {
        match self {
            Redirect::LoginResponse => 345,
            Redirect::Transfer => 8,
        }
    }

    /// Where the two bytes of the port start in a message of this kind.
    pub fn port_offset(self) -> (offset: usize)
        ensures
            offset == self.spec_port_offset(),
    {
        match self {
            Redirect::LoginResponse => 411,
            Redirect::Transfer => 41,
        }
    }
}

/// Whether `data` is a redirect, and of which kind.
///
/// A redirect is longer than eight bytes and starts with the two marker
/// bytes of a message to a client. It is a login response if its id is that
/// of one, its result code says success and it is longer than 413 bytes. It
/// is a transfer if its id is that of one and it is long enough to hold the
/// port. Everything else is no redirect.
pub open spec fn classify(data: Seq<u8>) -> Option<Redirect> {
    if data.len() > 8 && data[0] == USER_MESSAGE && data[1] == CLIENT_SERVICE {
        if data[3] == LOGIN_RESPONSE && data[8] == LOGIN_SUCCESS && data.len() > 413 {
            Some(Redirect::LoginResponse)
        } else if data[3] == TRANSFER_TO_WORLD && data.len() >= Redirect::Transfer.spec_port_offset()
            + 2 {
            Some(Redirect::Transfer)
        } else {
            None
        }
    } else {
        None
    }
}

/// The port that a redirect of kind `kind` names.
pub open spec fn redirect_port(data: Seq<u8>, kind: Redirect) -> u16
    recommends
        classify(data) == Some(kind),
{
    le_u16(data[kind.spec_port_offset()], data[kind.spec_port_offset() + 1])
}

/// A redirect with `ip` written where its address starts and `port` in
/// place of its port. Every other byte is as it was: as many bytes are
/// replaced as `ip` has, so of a longer address that stood there the rest
/// stays behind the new one.
pub open spec fn rewritten(data: Seq<u8>, kind: Redirect, ip: Seq<u8>, port: u16) -> Seq<u8>
    recommends
        classify(data) == Some(kind),
        ip.len() <= kind.spec_room(),
{
    Seq::new(
        data.len(),
        |i: int|
            if kind.spec_ip_offset() <= i < kind.spec_ip_offset() + ip.len() {
                ip[i - kind.spec_ip_offset()]
            } else if kind.spec_port_offset() <= i < kind.spec_port_offset() + 2 {
                u16_le_bytes(port)[i - kind.spec_port_offset()]
            } else {
                data[i]
            },
    )
}

/// What rewriting does to a redirect: the address starts with `ip`, the port
/// is `port`, every byte outside those two places is as it was, and the
/// result is a redirect of the same kind that names `port`.
pub proof fn lemma_rewritten(data: Seq<u8>, kind: Redirect, ip: Seq<u8>, port: u16)
    requires
        classify(data) == Some(kind),
        ip.len() <= kind.spec_room(),
    ensures
        rewritten(data, kind, ip, port).len() == data.len(),
        rewritten(data, kind, ip, port).subrange(
            kind.spec_ip_offset(),
            kind.spec_ip_offset() + ip.len(),
        ) == ip,
        rewritten(data, kind, ip, port).subrange(
            kind.spec_port_offset(),
            kind.spec_port_offset() + 2,
        ) == u16_le_bytes(port),
        forall|i: int|
            0 <= i < data.len() && !(kind.spec_ip_offset() <= i < kind.spec_ip_offset() + ip.len())
                && !(kind.spec_port_offset() <= i < kind.spec_port_offset() + 2)
                ==> #[trigger] rewritten(data, kind, ip, port)[i] == data[i],
        classify(rewritten(data, kind, ip, port)) == Some(kind),
        redirect_port(rewritten(data, kind, ip, port), kind) == port,
{
    let after = rewritten(data, kind, ip, port);
    assert(after.subrange(kind.spec_ip_offset(), kind.spec_ip_offset() + ip.len()) =~= ip);
    assert(after.subrange(kind.spec_port_offset(), kind.spec_port_offset() + 2) =~= u16_le_bytes(
        port,
    ));
    crate::wire::lemma_le_round_trip(port, 0);
}

/// A packet of fewer than nine bytes, or without the two marker bytes, is
/// no redirect: it names no backend and reaches the client as it came.
pub proof fn lemma_pass_through(
    data: Seq<u8>,
    server: Endpoint,
    ip: Seq<u8>,
    entries: Seq<Relay>,
    pending: Seq<Relay>,
)
    requires
        data.len() < 9 || data[0] != USER_MESSAGE || data[1] != CLIENT_SERVICE,
    ensures
        classify(data) is None,
        target(data, server) is None,
        intercepted(data, server, ip, entries, pending) == data,
{
}

/// A batch without redirects asks for no relay, cannot fail, and reaches
/// the client as it came.
pub proof fn lemma_nothing_to_scan(
    packets: Seq<Packet>,
    server: Endpoint,
    ip: Seq<u8>,
    entries: Seq<Relay>,
    pending: Seq<Relay>,
)
    requires
        !redirects(packets),
    ensures
        missing(packets, server, entries, pending) == Seq::<Endpoint>::empty(),
        scan_error(packets, server, ip, entries, pending) is None,
        delivered(packets, server, ip, entries, pending) == payloads(packets),
    decreases packets.len(),
{
    if packets.len() > 0 {
        let init = packets.drop_last();
        assert forall|i: int| 0 <= i < init.len() implies classify((#[trigger] init[i]).data@)
            is None by {
            assert(init[i] == packets[i]);
        }
        lemma_nothing_to_scan(init, server, ip, entries, pending);
        assert(classify(packets[packets.len() - 1].data@) is None);
    }
    assert forall|i: int| 0 <= i < packets.len() implies intercepted(
        (#[trigger] packets[i]).data@,
        server,
        ip,
        entries,
        pending,
    ) == packets[i].data@ by {
        assert(classify(packets[i].data@) is None);
    }
    assert(delivered(packets, server, ip, entries, pending) =~= payloads(packets));
}

/// Tells whether `data` is a redirect, and of which kind.
pub fn classify_packet(data: &[u8]) -> (kind: Option<Redirect>)
    ensures
        kind == classify(data@),
{
    if data.len() > 8 && data[0] == USER_MESSAGE && data[1] == CLIENT_SERVICE {
        if data[3] == LOGIN_RESPONSE && data[8] == LOGIN_SUCCESS && data.len() > 413 {
            Some(Redirect::LoginResponse)
        } else if data[3] == TRANSFER_TO_WORLD && data.len() >= 43 {
            Some(Redirect::Transfer)
        } else {
            None
        }
    } else {
        None
    }
}

/// The port that the redirect `data` names, read from its fixed place.
fn read_port(data: &[u8], kind: Redirect) -> (port: u16)
    requires
        classify(data@) == Some(kind),
    ensures
        port == redirect_port(data@, kind),
{
    let at = kind.port_offset();
    match get_u16(slice_subrange(data, at, at + 2)) {
        Some(port) => port,
        None => 0,
    }
}

/// Puts `ip` and `port` in the place of the address and the port of the
/// redirect `data`.
fn write_target(data: &mut Vec<u8>, kind: Redirect, ip: &[u8], port: u16)
    requires
        classify(old(data)@) == Some(kind),
        ip@.len() <= kind.spec_room(),
    ensures
        final(data)@ == rewritten(old(data)@, kind, ip@, port),
{
    let at = kind.ip_offset();
    let mut i: usize = 0;
    while i < ip.len()
        invariant
            i <= ip@.len(),
            ip@.len() <= kind.spec_room(),
            at == kind.spec_ip_offset(),
            classify(old(data)@) == Some(kind),
            data@.len() == old(data)@.len(),
            forall|k: int|
                0 <= k < data@.len() ==> #[trigger] data@[k] == if at <= k < at + i {
                    ip@[k - at]
                } else {
                    old(data)@[k]
                },
        decreases ip@.len() - i,
    {
        data[at + i] = ip[i];
        i += 1;
    }
    let mut field: Vec<u8> = Vec::new();
    put_u16(&mut field, port);
    let to = kind.port_offset();
    data[to] = field[0];
    data[to + 1] = field[1];
    assert(data@ =~= rewritten(old(data)@, kind, ip@, port));
}

/// The request that opens a session with a backend.
pub fn open_request() -> (request: [u8; 2])
    ensures
        request@ == seq![OPEN_CONNECTION_REQUEST, OPEN_CONNECTION_TAG],
{
    let request = [MessageType::OpenConnectionRequest.id(), OPEN_CONNECTION_TAG];
    assert(request@ =~= seq![OPEN_CONNECTION_REQUEST, OPEN_CONNECTION_TAG]);
    request
}

/// Where the relay of `backend` is asked to listen: on any address, at the
/// backend's own port. Port 0 leaves the choice to the system.
pub fn relay_listen_addr(backend: &Endpoint) -> (addr: Endpoint)
    ensures
        addr == (Endpoint { host: Host::V4(0), port: backend.port }),
{
    Endpoint { host: Host::V4(0), port: backend.port }
}

/// The relay that a bridge may name for `backend`: the registered one, or
/// else the first that a command of this tick announces.
pub open spec fn relay_for(entries: Seq<Relay>, pending: Seq<Relay>, backend: Endpoint) -> Option<
    Endpoint,
> {
    if relay_in(entries, backend) is Some {
        relay_in(entries, backend)
    } else {
        relay_in(pending, backend)
    }
}

/// The backend that `data` sends the client to, if it is a redirect: the host
/// of the backend that sent it, with the port that it names.
pub open spec fn target(data: Seq<u8>, server: Endpoint) -> Option<Endpoint> {
    match classify(data) {
        Some(kind) => Some(Endpoint { host: server.host, port: redirect_port(data, kind) }),
        None => None,
    }
}

/// Some packet is a redirect.
pub open spec fn redirects(packets: Seq<Packet>) -> bool {
    exists|i: int| 0 <= i < packets.len() && classify((#[trigger] packets[i]).data@) is Some
}

/// `ip` can be written into `data`: either `data` is no redirect, or `ip`
/// is no longer than the room that a redirect of its kind has for an
/// address, so that it ends before the port.
pub open spec fn fits(data: Seq<u8>, ip: Seq<u8>) -> bool {
    match classify(data) {
        Some(kind) => ip.len() <= kind.spec_room(),
        None => true,
    }
}

/// Some packet is a redirect with too little room for `ip`.
pub open spec fn too_long(packets: Seq<Packet>, ip: Seq<u8>) -> bool {
    exists|i: int| 0 <= i < packets.len() && !fits((#[trigger] packets[i]).data@, ip)
}

/// The backends that the redirects among `packets` name and that have no
/// relay, each once, in the order in which they are first named.
pub open spec fn missing(
    packets: Seq<Packet>,
    server: Endpoint,
    entries: Seq<Relay>,
    pending: Seq<Relay>,
) -> Seq<Endpoint>
    decreases packets.len(),
{
    if packets.len() == 0 {
        Seq::empty()
    } else {
        let before = missing(packets.drop_last(), server, entries, pending);
        match target(packets.last().data@, server) {
            Some(backend) => if relay_for(entries, pending, backend) is None && !before.contains(
                backend,
            ) {
                before.push(backend)
            } else {
                before
            },
            None => before,
        }
    }
}

/// What a client gets to see of `data`: a redirect names this relay's
/// external address and the port of the relay of its backend; anything else
/// is as it came.
pub open spec fn intercepted(
    data: Seq<u8>,
    server: Endpoint,
    ip: Seq<u8>,
    entries: Seq<Relay>,
    pending: Seq<Relay>,
) -> Seq<u8> {
    match classify(data) {
        Some(kind) => match relay_for(
            entries,
            pending,
            Endpoint { host: server.host, port: redirect_port(data, kind) },
        ) {
            Some(relay) => rewritten(data, kind, ip, relay.port),
            None => data,
        },
        None => data,
    }
}

/// A backend is asked for exactly if a redirect names it and it has no relay,
/// and it is asked for once, however many redirects name it.
pub proof fn lemma_missing(
    packets: Seq<Packet>,
    server: Endpoint,
    entries: Seq<Relay>,
    pending: Seq<Relay>,
)
    ensures
        missing(packets, server, entries, pending).no_duplicates(),
        forall|backend: Endpoint|
            missing(packets, server, entries, pending).contains(backend) <==> (relay_for(
                entries,
                pending,
                backend,
            ) is None && exists|i: int|
                0 <= i < packets.len() && target((#[trigger] packets[i]).data@, server) == Some(
                    backend,
                )),
    decreases packets.len(),
{
    let all = missing(packets, server, entries, pending);
    if packets.len() > 0 {
        let init = packets.drop_last();
        let before = missing(init, server, entries, pending);
        lemma_missing(init, server, entries, pending);
        let last = target(packets.last().data@, server);
        assert forall|backend: Endpoint| all.contains(backend) <==> (relay_for(
            entries,
            pending,
            backend,
        ) is None && exists|i: int|
            0 <= i < packets.len() && target((#[trigger] packets[i]).data@, server) == Some(
                backend,
            )) by {
            if before.contains(backend) {
                let i = choose|i: int|
                    0 <= i < init.len() && target((#[trigger] init[i]).data@, server) == Some(
                        backend,
                    );
                assert(packets[i] == init[i]);
                let at = choose|k: int| 0 <= k < before.len() && before[k] == backend;
                assert(all[at] == backend);
            }
            if all.contains(backend) && !before.contains(backend) {
                let at = choose|k: int| 0 <= k < all.len() && all[k] == backend;
                assert(at == before.len());
                assert(target(packets[packets.len() - 1].data@, server) == Some(backend));
            }
            if relay_for(entries, pending, backend) is None && exists|i: int|
                0 <= i < packets.len() && target((#[trigger] packets[i]).data@, server) == Some(
                    backend,
                ) {
                let i = choose|i: int|
                    0 <= i < packets.len() && target((#[trigger] packets[i]).data@, server)
                        == Some(backend);
                if i < init.len() {
                    assert(init[i] == packets[i]);
                    assert(before.contains(backend));
                } else if !before.contains(backend) {
                    assert(all == before.push(backend));
                    assert(all[before.len() as int] == backend);
                }
            }
        }
    }
}

/// What a client gets to see of a redirect whose backend has a relay: the
/// external address where the redirect's address starts, the relay's port
/// in place of the redirect's port, and every other byte as it came. This
/// holds of every redirect and of every address that ends before the port.
/// Without a relay the redirect is not touched.
pub proof fn lemma_intercepted(
    data: Seq<u8>,
    kind: Redirect,
    server: Endpoint,
    ip: Seq<u8>,
    entries: Seq<Relay>,
    pending: Seq<Relay>,
)
    requires
        classify(data) == Some(kind),
        ip.len() <= kind.spec_room(),
    ensures
        target(data, server) == Some(
            Endpoint { host: server.host, port: redirect_port(data, kind) },
        ),
        match relay_for(entries, pending, target(data, server)->Some_0) {
            Some(relay) => {
                let seen = intercepted(data, server, ip, entries, pending);
                &&& seen.len() == data.len()
                &&& seen.subrange(kind.spec_ip_offset(), kind.spec_ip_offset() + ip.len()) == ip
                &&& seen.subrange(kind.spec_port_offset(), kind.spec_port_offset() + 2)
                    == u16_le_bytes(relay.port)
                &&& seen.subrange(0, kind.spec_ip_offset()) == data.subrange(
                    0,
                    kind.spec_ip_offset(),
                )
                &&& seen.subrange(kind.spec_ip_offset() + ip.len(), kind.spec_port_offset())
                    == data.subrange(kind.spec_ip_offset() + ip.len(), kind.spec_port_offset())
                &&& seen.subrange(kind.spec_port_offset() + 2, data.len() as int)
                    == data.subrange(kind.spec_port_offset() + 2, data.len() as int)
            },
            None => intercepted(data, server, ip, entries, pending) == data,
        },
{
    let backend = Endpoint { host: server.host, port: redirect_port(data, kind) };
    match relay_for(entries, pending, backend) {
        Some(relay) => {
            lemma_rewritten(data, kind, ip, relay.port);
            let seen = rewritten(data, kind, ip, relay.port);
            assert(seen.subrange(0, kind.spec_ip_offset()) =~= data.subrange(
                0,
                kind.spec_ip_offset(),
            ));
            assert(seen.subrange(kind.spec_ip_offset() + ip.len(), kind.spec_port_offset())
                =~= data.subrange(kind.spec_ip_offset() + ip.len(), kind.spec_port_offset()));
            assert(seen.subrange(kind.spec_port_offset() + 2, data.len() as int)
                =~= data.subrange(kind.spec_port_offset() + 2, data.len() as int));
        },
        None => {},
    }
}

/// The rewrite of a login response: a packet of more than 413 bytes with the
/// two marker bytes, the id of a login response and the code of success
/// names the backend's host with the port at offset 411. If that backend
/// has a relay, the client sees the external address at offset 345 and the
/// relay's port at offset 411, and every other byte as it came. This holds
/// of every external address of at most 66 bytes; a longer one would run
/// into the port.
pub proof fn lemma_login_response(
    data: Seq<u8>,
    server: Endpoint,
    ip: Seq<u8>,
    entries: Seq<Relay>,
    pending: Seq<Relay>,
    relay: Endpoint,
)
    requires
        data.len() > 413,
        data[0] == USER_MESSAGE,
        data[1] == CLIENT_SERVICE,
        data[3] == LOGIN_RESPONSE,
        data[8] == LOGIN_SUCCESS,
        ip.len() <= 66,
        relay_for(
            entries,
            pending,
            Endpoint { host: server.host, port: le_u16(data[411], data[412]) },
        ) == Some(relay),
    ensures
        classify(data) == Some(Redirect::LoginResponse),
        target(data, server) == Some(
            Endpoint { host: server.host, port: le_u16(data[411], data[412]) },
        ),
        intercepted(data, server, ip, entries, pending).len() == data.len(),
        intercepted(data, server, ip, entries, pending).subrange(345, 345 + ip.len() as int) == ip,
        intercepted(data, server, ip, entries, pending).subrange(411, 413) == u16_le_bytes(
            relay.port,
        ),
        intercepted(data, server, ip, entries, pending).subrange(0, 345) == data.subrange(0, 345),
        intercepted(data, server, ip, entries, pending).subrange(345 + ip.len() as int, 411)
            == data.subrange(345 + ip.len() as int, 411),
        intercepted(data, server, ip, entries, pending).subrange(413, data.len() as int)
            == data.subrange(413, data.len() as int),
{
    lemma_intercepted(data, Redirect::LoginResponse, server, ip, entries, pending);
}

/// The rewrite of a transfer: a packet of at least 43 bytes with the two
/// marker bytes and the id of a transfer, whatever its length beyond that,
/// names the backend's host with the port at offset 41. If that backend has
/// a relay, the client sees the external address at offset 8 and the
/// relay's port at offset 41, and every other byte as it came. This holds
/// of every external address of at most 33 bytes; a longer one would run
/// into the port.
pub proof fn lemma_transfer(
    data: Seq<u8>,
    server: Endpoint,
    ip: Seq<u8>,
    entries: Seq<Relay>,
    pending: Seq<Relay>,
    relay: Endpoint,
)
    requires
        data.len() >= 43,
        data[0] == USER_MESSAGE,
        data[1] == CLIENT_SERVICE,
        data[3] == TRANSFER_TO_WORLD,
        ip.len() <= 33,
        relay_for(
            entries,
            pending,
            Endpoint { host: server.host, port: le_u16(data[41], data[42]) },
        ) == Some(relay),
    ensures
        classify(data) == Some(Redirect::Transfer),
        target(data, server) == Some(
            Endpoint { host: server.host, port: le_u16(data[41], data[42]) },
        ),
        intercepted(data, server, ip, entries, pending).len() == data.len(),
        intercepted(data, server, ip, entries, pending).subrange(8, 8 + ip.len() as int) == ip,
        intercepted(data, server, ip, entries, pending).subrange(41, 43) == u16_le_bytes(
            relay.port,
        ),
        intercepted(data, server, ip, entries, pending).subrange(0, 8) == data.subrange(0, 8),
        intercepted(data, server, ip, entries, pending).subrange(8 + ip.len() as int, 41)
            == data.subrange(8 + ip.len() as int, 41),
        intercepted(data, server, ip, entries, pending).subrange(43, data.len() as int)
            == data.subrange(43, data.len() as int),
{
    lemma_intercepted(data, Redirect::Transfer, server, ip, entries, pending);
}

/// One redirect alone asks for one relay when its backend is seen for the
/// first time, and for none when the backend has a relay already.
pub proof fn lemma_single_redirect(
    packet: Packet,
    server: Endpoint,
    entries: Seq<Relay>,
    pending: Seq<Relay>,
)
    requires
        classify(packet.data@) is Some,
    ensures
        missing(seq![packet], server, entries, pending) == if relay_for(
            entries,
            pending,
            target(packet.data@, server)->Some_0,
        ) is None {
            seq![target(packet.data@, server)->Some_0]
        } else {
            Seq::<Endpoint>::empty()
        },
{
    let one = seq![packet];
    assert(one.drop_last() =~= Seq::<Packet>::empty());
    assert(one.last() == packet);
    let before = missing(one.drop_last(), server, entries, pending);
    assert(before =~= Seq::<Endpoint>::empty());
    let backend = target(packet.data@, server)->Some_0;
    assert(!before.contains(backend));
    assert(before.push(backend) =~= seq![backend]);
}

/// From the redirect to the registry: when a redirect names a backend
/// without relay and a command announces `local` as its relay, the client is
/// told the external address and the port of `local`; once the command is
/// carried out the registry maps the backend to `local`, and every later
/// redirect to that backend is answered with the same port, with no further
/// relay asked for.
pub proof fn lemma_announced_relay(
    data: Seq<u8>,
    kind: Redirect,
    server: Endpoint,
    ip: Seq<u8>,
    entries: Seq<Relay>,
    pending: Seq<Relay>,
    local: Endpoint,
)
    requires
        classify(data) == Some(kind),
        ip.len() <= kind.spec_room(),
        relay_for(entries, pending, target(data, server)->Some_0) is None,
    ensures
        relay_for(
            entries,
            pending.push(Relay { backend: target(data, server)->Some_0, local }),
            target(data, server)->Some_0,
        ) == Some(local),
        intercepted(
            data,
            server,
            ip,
            entries,
            pending.push(Relay { backend: target(data, server)->Some_0, local }),
        ) == rewritten(data, kind, ip, local.port),
        relay_in(
            registered(entries, target(data, server)->Some_0, local),
            target(data, server)->Some_0,
        ) == Some(local),
        intercepted(
            data,
            server,
            ip,
            registered(entries, target(data, server)->Some_0, local),
            Seq::empty(),
        ) == rewritten(data, kind, ip, local.port),
{
    let backend = target(data, server)->Some_0;
    let announced = pending.push(Relay { backend, local });
    assert(announced.drop_last() =~= pending);
    assert(relay_in(announced, backend) == Some(local));
    let after = registered(entries, backend, local);
    assert(after == entries.push(Relay { backend, local }));
    assert(after.drop_last() =~= entries);
    assert(relay_in(after, backend) == Some(local));
}

/// The relay that a bridge may name for `backend`: the registered one, or
/// else the first that a command of this tick announces.
pub fn find_relay<L, T, S>(
    addrs: &Registry,
    cmds: &Vec<ShimCommand<L, T, S>>,
    backend: &Endpoint,
) -> (relay: Option<Endpoint>)
    ensures
        relay == relay_for(addrs.entries(), announced(cmds@), *backend),
{
    match addrs.get(backend) {
        Some(relay) => Some(relay),
        None => {
            let ghost pending = announced(cmds@);
            let mut i: usize = 0;
            while i < cmds.len()
                invariant
                    i <= cmds@.len(),
                    pending == announced(cmds@),
                    relay_in(addrs.entries(), *backend) is None,
                    relay_in(pending.take(i as int), *backend) is None,
                decreases cmds@.len() - i,
            {
                let relay = cmds[i].announces();
                proof {
                    assert(pending.take(i + 1).drop_last() =~= pending.take(i as int));
                    assert(pending.take(i + 1).last() == relay);
                }
                if relay.backend == *backend {
                    proof {
                        assert(relay_in(pending.take(i + 1), *backend) == Some(relay.local));
                        lemma_relay_in_prefix(pending, i + 1, *backend);
                    }
                    return Some(relay.local);
                }
                i += 1;
            }
            proof {
                assert(pending.take(i as int) =~= pending);
            }
            None
        },
    }
}

/// Whether `backend` is among `backends`.
fn holds(backends: &Vec<Endpoint>, backend: &Endpoint) -> (found: bool)
    ensures
        found == backends@.contains(*backend),
{
    let mut i: usize = 0;
    while i < backends.len()
        invariant
            i <= backends@.len(),
            forall|k: int| 0 <= k < i ==> backends@[k] != *backend,
        decreases backends@.len() - i,
    {
        if backends[i] == *backend {
            return true;
        }
        i += 1;
    }
    false
}

/// Whether some packet is a redirect with too little room for `ip`.
fn any_too_long(packets: &Vec<Packet>, ip: &[u8]) -> (found: bool)
    ensures
        found == too_long(packets@, ip@),
{
    let mut i: usize = 0;
    while i < packets.len()
        invariant
            i <= packets@.len(),
            forall|k: int| 0 <= k < i ==> fits((#[trigger] packets@[k]).data@, ip@),
        decreases packets@.len() - i,
    {
        match classify_packet(packets[i].data.as_slice()) {
            Some(kind) => {
                if ip.len() > kind.room() {
                    assert(!fits(packets@[i as int].data@, ip@));
                    return true;
                }
            },
            None => {},
        }
        i += 1;
    }
    false
}

/// What the client gets to see of each of `packets`, in order.
pub open spec fn delivered(
    packets: Seq<Packet>,
    server: Endpoint,
    ip: Seq<u8>,
    entries: Seq<Relay>,
    pending: Seq<Relay>,
) -> Seq<Seq<u8>> {
    Seq::new(
        packets.len(),
        |i: int| intercepted(packets[i].data@, server, ip, entries, pending),
    )
}

/// Every packet of `after` is the packet of `before` at its place as the
/// client gets to see it, with the delivery class that it had.
pub open spec fn scanned(
    before: Seq<Packet>,
    after: Seq<Packet>,
    server: Endpoint,
    ip: Seq<u8>,
    entries: Seq<Relay>,
    pending: Seq<Relay>,
) -> bool {
    &&& after.len() == before.len()
    &&& forall|i: int|
        0 <= i < before.len() ==> (#[trigger] after[i]).reliability == before[i].reliability
            && after[i].data@ == intercepted(before[i].data@, server, ip, entries, pending)
}

/// The error, if any, that keeps `packets` from being rewritten: the
/// external address has to fit into every redirect among them, and then
/// every backend that is named has to have a relay. Where no packet is a
/// redirect there is none.
pub open spec fn scan_error(
    packets: Seq<Packet>,
    server: Endpoint,
    ip: Seq<u8>,
    entries: Seq<Relay>,
    pending: Seq<Relay>,
) -> Option<ScanError> {
    if too_long(packets, ip) {
        Some(ScanError::AddressTooLong)
    } else if missing(packets, server, entries, pending).len() > 0 {
        Some(ScanError::NoRelay)
    } else {
        None
    }
}

/// When rewriting is owed: a batch is rewritten without error if the
/// external address fits into every redirect among its packets and every
/// backend that one of them names has a relay.
pub proof fn lemma_scan_succeeds(
    packets: Seq<Packet>,
    server: Endpoint,
    ip: Seq<u8>,
    entries: Seq<Relay>,
    pending: Seq<Relay>,
)
    requires
        forall|i: int| 0 <= i < packets.len() ==> fits((#[trigger] packets[i]).data@, ip),
        forall|i: int|
            0 <= i < packets.len() && target((#[trigger] packets[i]).data@, server) is Some
                ==> relay_for(entries, pending, target(packets[i].data@, server)->Some_0) is Some,
    ensures
        scan_error(packets, server, ip, entries, pending) is None,
{
    lemma_missing(packets, server, entries, pending);
    let lacking = missing(packets, server, entries, pending);
    if lacking.len() > 0 {
        let backend = lacking[0];
        assert(lacking.contains(backend));
        let i = choose|i: int|
            0 <= i < packets.len() && target((#[trigger] packets[i]).data@, server) == Some(
                backend,
            );
        assert(relay_for(entries, pending, target(packets[i].data@, server)->Some_0) is Some);
    }
}

/// Why a batch of packets could not be rewritten.
#[derive(Clone, Copy, Debug, PartialEq, Eq, Structural)]
pub enum ScanError {
    /// The external address is longer than the room that one of the
    /// redirects has for an address: written there, it would run into the
    /// port.
    AddressTooLong,
    /// A redirect names a backend for which no relay is registered or
    /// announced.
    NoRelay,
}

/// A bridge ties the framed connection of one client to one session with
/// the backend. `T` is the client's stream and `S` the session; the bridge
/// keeps them for its owner and never looks inside.
pub struct Bridge<T, S> {
    conn_to_client: Connection<T>,
    conn_to_server: S,
    /// The backend that the session is with.
    server_addr: Endpoint,
    config: AppConfig,
}

impl<T, S> Bridge<T, S> {
    /// The framed connection to the client.
    pub closed spec fn client(&self) -> Connection<T> {
        self.conn_to_client
    }

    /// The session with the backend.
    pub closed spec fn server(&self) -> S {
        self.conn_to_server
    }

    /// The backend that the session is with.
    pub closed spec fn server_addr(&self) -> Endpoint {
        self.server_addr
    }

    /// The configuration.
    pub closed spec fn config(&self) -> AppConfig {
        self.config
    }

    /// A bridge between `tcp_conn` and the session `raknet_to_server` with
    /// the backend at `server_addr`.
    pub fn new(
        tcp_conn: Connection<T>,
        raknet_to_server: S,
        server_addr: Endpoint,
        config: AppConfig,
    ) -> (bridge: Self)
        ensures
            bridge.client() == tcp_conn,
            bridge.server() == raknet_to_server,
            bridge.server_addr() == server_addr,
            bridge.config() == config,
    {
        Bridge { conn_to_client: tcp_conn, conn_to_server: raknet_to_server, server_addr, config }
    }

    /// The framed connection to the client.
    pub fn conn_to_client(&self) -> (conn: &Connection<T>)
        ensures
            *conn == self.client(),
    {
        &self.conn_to_client
    }

    /// The session with the backend.
    pub fn conn_to_server(&self) -> (session: &S)
        ensures
            *session == self.server(),
    {
        &self.conn_to_server
    }

    /// The backend that the session is with.
    pub fn peer_addr(&self) -> (addr: Endpoint)
        ensures
            addr == self.server_addr(),
    {
        self.server_addr
    }

    /// Takes the next chunk of what the client sent. Returns how much of it
    /// was taken and the message that it completed, if it completed one.
    pub fn client_receive(&mut self, input: &[u8]) -> (r: (usize, Option<Vec<u8>>))
        ensures
            final(self).server() == old(self).server(),
            final(self).server_addr() == old(self).server_addr(),
            final(self).config() == old(self).config(),
            final(self).client().transport_view() == old(self).client().transport_view(),
            !complete(old(self).client().pending()),
            final(self).client().pending() == advance(old(self).client().pending(), input@).pending,
            r.0 == advance(old(self).client().pending(), input@).consumed,
            r.0 <= input@.len(),
            match r.1 {
                Some(message) => advance(old(self).client().pending(), input@).message == Some(
                    message@,
                ),
                None => advance(old(self).client().pending(), input@).message is None,
            },
    {
        self.conn_to_client.receive_raw(input)
    }

    /// What goes to the backend for a message of the client: the message as
    /// one reliable packet.
    pub fn forward_to_server(&self, data: &[u8]) -> (packets: Vec<Packet>)
        ensures
            packets@.len() == 1,
            packets@[0].reliability == Reliability::Reliable,
            packets@[0].data@ == data@,
    {
        let mut packets: Vec<Packet> = Vec::new();
        packets.push(Packet { reliability: Reliability::Reliable, data: slice_to_vec(data) });
        packets
    }

    /// The backend that `data` sends the client to, if it is a redirect, and
    /// the kind of redirect.
    pub fn redirect_target(&self, data: &[u8]) -> (found: Option<(Redirect, Endpoint)>)
        ensures
            match found {
                Some((kind, backend)) => classify(data@) == Some(kind) && target(
                    data@,
                    self.server_addr(),
                ) == Some(backend),
                None => classify(data@) is None && target(data@, self.server_addr()) is None,
            },
    {
        match classify_packet(data) {
            Some(kind) => {
                let port = read_port(data, kind);
                Some((kind, self.server_addr.with_port(port)))
            },
            None => None,
        }
    }

    /// The backends for which a relay has to be opened before `packets` can
    /// go to the client: those that a redirect names and that have no relay,
    /// neither registered in `addrs` nor announced by `cmds`. Each comes
    /// once, in the order in which the packets name them.
    pub fn missing_relays<L>(
        &self,
        packets: &Vec<Packet>,
        addrs: &Registry,
        cmds: &Vec<ShimCommand<L, T, S>>,
    ) -> (backends: Vec<Endpoint>)
        ensures
            backends@ == missing(
                packets@,
                self.server_addr(),
                addrs.entries(),
                announced(cmds@),
            ),
            backends@.no_duplicates(),
            forall|backend: Endpoint|
                backends@.contains(backend) <==> (relay_for(
                    addrs.entries(),
                    announced(cmds@),
                    backend,
                ) is None && exists|i: int|
                    0 <= i < packets@.len() && target(
                        (#[trigger] packets@[i]).data@,
                        self.server_addr(),
                    ) == Some(backend)),
    {
        let mut backends: Vec<Endpoint> = Vec::new();
        let mut i: usize = 0;
        while i < packets.len()
            invariant
                i <= packets@.len(),
                backends@ == missing(
                    packets@.take(i as int),
                    self.server_addr(),
                    addrs.entries(),
                    announced(cmds@),
                ),
            decreases packets@.len() - i,
        {
            proof {
                assert(packets@.take(i + 1).drop_last() =~= packets@.take(i as int));
                assert(packets@.take(i + 1).last() == packets@[i as int]);
            }
            match self.redirect_target(packets[i].data.as_slice()) {
                Some((_, backend)) => {
                    if find_relay(addrs, cmds, &backend).is_none() && !holds(&backends, &backend) {
                        backends.push(backend);
                    }
                },
                None => {},
            }
            i += 1;
        }
        proof {
            assert(packets@.take(i as int) =~= packets@);
            lemma_missing(packets@, self.server_addr(), addrs.entries(), announced(cmds@));
        }
        backends
    }

    /// Rewrites the redirects among `packets` so that the client comes back
    /// to this relay: each gets the external address in place of its
    /// address, and in place of its port the port of the relay that stands
    /// in for the backend it names, as `addrs` registers or `cmds` announce
    /// it. Packets that are no redirects stay as they are.
    ///
    /// Fails, and changes nothing, if the external address is longer than
    /// the room that one of the redirects has for it, or a backend that is
    /// named has no relay.
    pub fn scan_packets<L>(
        &self,
        packets: &mut Vec<Packet>,
        addrs: &Registry,
        cmds: &Vec<ShimCommand<L, T, S>>,
    ) -> (r: Result<(), ScanError>)
        ensures
            match r {
                Ok(()) => scan_error(
                    old(packets)@,
                    self.server_addr(),
                    self.config().external_ip_bytes(),
                    addrs.entries(),
                    announced(cmds@),
                ) is None && scanned(
                    old(packets)@,
                    final(packets)@,
                    self.server_addr(),
                    self.config().external_ip_bytes(),
                    addrs.entries(),
                    announced(cmds@),
                ),
                Err(e) => scan_error(
                    old(packets)@,
                    self.server_addr(),
                    self.config().external_ip_bytes(),
                    addrs.entries(),
                    announced(cmds@),
                ) == Some(e) && final(packets)@ == old(packets)@,
            },
    {
        let ip = self.config.external_ip.as_str().as_bytes();
        if any_too_long(packets, ip) {
            return Err(ScanError::AddressTooLong);
        }
        if self.missing_relays(packets, addrs, cmds).len() > 0 {
            return Err(ScanError::NoRelay);
        }
        let mut i: usize = 0;
        while i < packets.len()
            invariant
                i <= packets@.len(),
                ip@ == self.config().external_ip_bytes(),
                !too_long(old(packets)@, ip@),
                packets@.len() == old(packets)@.len(),
                forall|k: int| i <= k < packets@.len() ==> packets@[k] == old(packets)@[k],
                forall|k: int|
                    0 <= k < i ==> (#[trigger] packets@[k]).reliability == old(
                        packets,
                    )@[k].reliability && packets@[k].data@ == intercepted(
                        old(packets)@[k].data@,
                        self.server_addr(),
                        ip@,
                        addrs.entries(),
                        announced(cmds@),
                    ),
            decreases packets@.len() - i,
        {
            match self.redirect_target(packets[i].data.as_slice()) {
                Some((kind, backend)) => {
                    match find_relay(addrs, cmds, &backend) {
                        Some(relay) => {
                            assert(fits(old(packets)@[i as int].data@, ip@));
                            write_target(&mut packets[i].data, kind, ip, relay.port);
                        },
                        None => {},
                    }
                },
                None => {},
            }
            i += 1;
        }
        Ok(())
    }

    /// The session with the backend, for driving it.
    pub fn conn_to_server_mut(&mut self) -> (session: &mut S)
        ensures
            *session == old(self).server(),
            final(self).server() == *final(session),
            final(self).client() == old(self).client(),
            final(self).server_addr() == old(self).server_addr(),
            final(self).config() == old(self).config(),
    {
        &mut self.conn_to_server
    }

    /// What goes to the client for a batch of packets that the backend
    /// sent: the frames of the packets, in order, with the redirects among
    /// them rewritten as [`Bridge::scan_packets`] does.
    ///
    /// Fails as `scan_packets` does; then nothing goes to the client.
    pub fn server_receive<L>(
        &self,
        packets: Vec<Packet>,
        addrs: &Registry,
        cmds: &Vec<ShimCommand<L, T, S>>,
    ) -> (r: Result<Vec<u8>, ScanError>)
        ensures
            match r {
                Ok(wire) => scan_error(
                    packets@,
                    self.server_addr(),
                    self.config().external_ip_bytes(),
                    addrs.entries(),
                    announced(cmds@),
                ) is None && wire@ == frames(
                    delivered(
                        packets@,
                        self.server_addr(),
                        self.config().external_ip_bytes(),
                        addrs.entries(),
                        announced(cmds@),
                    ),
                ),
                Err(e) => scan_error(
                    packets@,
                    self.server_addr(),
                    self.config().external_ip_bytes(),
                    addrs.entries(),
                    announced(cmds@),
                ) == Some(e),
            },
    {
        let ghost came = packets@;
        let mut packets = packets;
        match self.scan_packets(&mut packets, addrs, cmds) {
            Ok(()) => {
                let wire = self.conn_to_client.send_packets(&packets);
                proof {
                    assert(payloads(packets@) =~= delivered(
                        came,
                        self.server_addr(),
                        self.config().external_ip_bytes(),
                        addrs.entries(),
                        announced(cmds@),
                    ));
                }
                Ok(wire)
            },
            Err(e) => Err(e),
        }
    }
}

} // verus!
