use raknet_shim::addr::{Endpoint, Host};
use raknet_shim::bridge::{Bridge, Packet, Reliability};
use raknet_shim::config::AppConfig;
use raknet_shim::registry::{Registry, Relay};
use raknet_shim::shim::{apply, ErrorKind, Shim, ShimCommand, Verdict};
use raknet_shim::tcpudp::Connection;

type TestShim = Shim<&'static str, u32, u32>;
type Cmd = ShimCommand<&'static str, u32, u32>;

const BACKEND_HOST: Host = Host::V4(0x0A00_0005);

fn config() -> AppConfig {
    AppConfig {
        external_ip: "203.0.113.7".to_string(),
        external_auth_port: 1001,
        raknet_ip: "10.0.0.5".to_string(),
        raknet_auth_port: 1001,
        bind_to: "127.0.0.1".to_string(),
    }
}

fn backend(port: u16) -> Endpoint {
    Endpoint::new(BACKEND_HOST, port)
}

fn local(port: u16) -> Endpoint {
    Endpoint::new(Host::V4(0x7F00_0001), port)
}

fn client(n: u16) -> Endpoint {
    Endpoint::new(Host::V6(0xFE80_0000_0000_0000_0000_0000_0000_0001), 50_000 + n)
}

fn shim(name: &'static str, local_port: u16, backend_port: u16) -> TestShim {
    Shim::new(name, local(local_port), backend(backend_port), config())
}

fn with_clients(n: u32) -> TestShim {
    let mut shim = shim("auth", 1001, 1001);
    for i in 0..n {
        let bridge = shim.create_bridge(Connection::from(i), 100 + i);
        assert!(shim.insert(client(i as u16), bridge).is_none());
    }
    shim
}

fn sessions(shim: &mut TestShim) -> Vec<(Endpoint, u32)> {
    let mut all = Vec::new();
    for i in 0..shim.bridge_count() {
        let addr = shim.client_addr(i).unwrap();
        let session = *shim.bridge_mut(i).conn_to_server();
        all.push((addr, session));
    }
    all
}

#[test]
fn endpoints_compare_by_host_and_port() {
    assert_eq!(Endpoint::new(Host::V4(1), 2), Endpoint { host: Host::V4(1), port: 2 });
    assert_ne!(Endpoint::new(Host::V4(1), 2), Endpoint::new(Host::V4(1), 3));
    assert_ne!(Endpoint::new(Host::V4(1), 2), Endpoint::new(Host::V6(1), 2));
    assert_eq!(Endpoint::new(Host::V4(1), 2).with_port(9), Endpoint::new(Host::V4(1), 9));
}

#[test]
fn config_says_where_listeners_are_bound() {
    let config = config();
    assert_eq!(
        config.bind_target(&Endpoint::new(Host::V4(0), 2004)),
        ("127.0.0.1".to_string(), 2004)
    );
    assert_eq!(config.auth_listen_addr(), Endpoint::new(Host::V4(0), 1001));
    let copy = config.clone();
    assert_eq!(copy.external_ip, "203.0.113.7");
    assert_eq!(copy.external_auth_port, 1001);
    assert_eq!(copy.raknet_ip, "10.0.0.5");
    assert_eq!(copy.raknet_auth_port, 1001);
    assert_eq!(copy.bind_to, "127.0.0.1");
}

#[test]
fn registry_starts_empty() {
    let registry = Registry::new();
    assert_eq!(registry.len(), 0);
    assert_eq!(registry.get(&backend(2004)), None);
}

#[test]
fn registry_finds_what_was_registered() {
    let mut registry = Registry::new();
    assert!(registry.insert(backend(2004), local(40001)));
    assert!(registry.insert(backend(2005), local(40002)));
    assert_eq!(registry.len(), 2);
    assert_eq!(registry.get(&backend(2004)), Some(local(40001)));
    assert_eq!(registry.get(&backend(2005)), Some(local(40002)));
    assert_eq!(registry.get(&backend(2006)), None);
    assert_eq!(registry.get(&Endpoint::new(Host::V4(1), 2004)), None);
}

#[test]
fn registry_never_gives_a_backend_a_second_relay() {
    let mut registry = Registry::new();
    assert!(registry.insert(backend(2004), local(40001)));
    for attempt in 0..20u16 {
        assert!(!registry.insert(backend(2004), local(41000 + attempt)));
        assert_eq!(registry.len(), 1);
        assert_eq!(registry.get(&backend(2004)), Some(local(40001)));
    }
}

#[test]
fn relays_compare_by_both_addresses() {
    let relay = Relay { backend: backend(1), local: local(2) };
    assert_eq!(relay, Relay { backend: backend(1), local: local(2) });
    assert_ne!(relay, Relay { backend: backend(1), local: local(3) });
}

#[test]
fn verdicts_after_a_pull_from_the_client() {
    assert_eq!(
        ErrorKind::ConnectionReset.after_client_pull(),
        Verdict { keep: false, log: false }
    );
    assert_eq!(ErrorKind::WouldBlock.after_client_pull(), Verdict { keep: true, log: false });
    assert_eq!(
        ErrorKind::ConnectionAborted.after_client_pull(),
        Verdict { keep: true, log: true }
    );
    assert_eq!(ErrorKind::Other.after_client_pull(), Verdict { keep: true, log: true });
}

#[test]
fn verdicts_after_a_pull_from_the_backend() {
    assert_eq!(
        ErrorKind::ConnectionReset.after_server_pull(),
        Verdict { keep: false, log: false }
    );
    assert_eq!(
        ErrorKind::ConnectionAborted.after_server_pull(),
        Verdict { keep: false, log: false }
    );
    assert_eq!(ErrorKind::WouldBlock.after_server_pull(), Verdict { keep: false, log: true });
    assert_eq!(ErrorKind::Other.after_server_pull(), Verdict { keep: false, log: true });
}

#[test]
fn receiving_stops_quietly_only_when_nothing_is_left() {
    assert!(ErrorKind::WouldBlock.drained());
    assert!(!ErrorKind::ConnectionReset.drained());
    assert!(!ErrorKind::ConnectionAborted.drained());
    assert!(!ErrorKind::Other.drained());
}

#[test]
fn a_reset_while_receiving_from_the_backend_ends_the_bridge_unreported() {
    let kind = ErrorKind::ConnectionReset;
    assert!(!kind.drained());
    let mut shim = with_clients(2);
    let mut cmds: Vec<Cmd> = Vec::new();
    let (closed, taken, log) = shim.step(0, Some(kind), &mut cmds, 0);
    assert_eq!(*closed.unwrap().conn_to_server(), 100);
    assert!(taken.is_empty());
    assert!(!log);
    assert_eq!(sessions(&mut shim), vec![(client(1), 101)]);
}

#[test]
fn accepting_stops_quietly_only_when_no_client_waits() {
    assert!(ErrorKind::WouldBlock.accepted_all());
    assert!(!ErrorKind::ConnectionReset.accepted_all());
    assert!(!ErrorKind::ConnectionAborted.accepted_all());
    assert!(!ErrorKind::Other.accepted_all());
}

#[test]
fn a_read_of_no_bytes_is_no_data_yet() {
    assert_eq!(ErrorKind::after_read(0), Some(ErrorKind::WouldBlock));
    assert_eq!(ErrorKind::after_read(1), None);
    assert_eq!(ErrorKind::after_read(4096), None);
    assert_eq!(
        ErrorKind::after_read(0).unwrap().after_client_pull(),
        Verdict { keep: true, log: false }
    );
}

#[test]
fn a_new_shim_has_no_clients() {
    let shim = shim("auth", 1001, 1001);
    assert_eq!(shim.bridge_count(), 0);
    assert_eq!(shim.local_addr(), local(1001));
    assert_eq!(shim.connect_addr(), backend(1001));
    assert_eq!(*shim.listener(), "auth");
    assert_eq!(shim.client_addr(0), None);
}

#[test]
fn a_bridge_is_made_for_the_shims_backend() {
    let shim = shim("world", 40001, 2004);
    let bridge = shim.create_bridge(Connection::from(7), 8);
    assert_eq!(bridge.peer_addr(), backend(2004));
    assert_eq!(*bridge.conn_to_client().transport(), 7);
    assert_eq!(*bridge.conn_to_server(), 8);
}

#[test]
fn clients_are_kept_in_order() {
    let mut shim = with_clients(3);
    assert_eq!(shim.bridge_count(), 3);
    assert_eq!(sessions(&mut shim), vec![(client(0), 100), (client(1), 101), (client(2), 102)]);
    assert_eq!(shim.client_addr(3), None);
}

#[test]
fn a_client_that_connects_again_replaces_its_bridge() {
    let mut shim = with_clients(3);
    let bridge = shim.create_bridge(Connection::from(9), 900);
    let replaced = shim.insert(client(1), bridge).unwrap();
    assert_eq!(*replaced.conn_to_server(), 101);
    assert_eq!(sessions(&mut shim), vec![(client(0), 100), (client(1), 900), (client(2), 102)]);
}

#[test]
fn a_reset_from_the_client_removes_only_that_bridge() {
    let mut shim = with_clients(4);
    let (closed, log) = shim.client_receive(1, ErrorKind::ConnectionReset);
    assert_eq!(*closed.unwrap().conn_to_server(), 101);
    assert!(!log);
    assert_eq!(sessions(&mut shim), vec![(client(0), 100), (client(2), 102), (client(3), 103)]);
    assert_eq!(shim.local_addr(), local(1001));
    assert_eq!(shim.connect_addr(), backend(1001));
    assert_eq!(*shim.listener(), "auth");

    assert_eq!(shim.bridge_mut(1).client_receive(&[1, 0, 0, 0, 5]), (5, Some(vec![5])));
    let bridge = shim.create_bridge(Connection::from(50), 150);
    assert!(shim.insert(client(9), bridge).is_none());
    assert_eq!(shim.bridge_count(), 4);
}

#[test]
fn other_failures_of_the_client_keep_the_bridge() {
    let mut shim = with_clients(2);
    let (closed, log) = shim.client_receive(0, ErrorKind::WouldBlock);
    assert!(closed.is_none());
    assert!(!log);
    let (closed, log) = shim.client_receive(0, ErrorKind::Other);
    assert!(closed.is_none());
    assert!(log);
    let (closed, log) = shim.client_receive(1, ErrorKind::ConnectionAborted);
    assert!(closed.is_none());
    assert!(log);
    assert_eq!(sessions(&mut shim), vec![(client(0), 100), (client(1), 101)]);
}

#[test]
fn a_client_that_is_not_there_cannot_be_removed() {
    let mut shim = with_clients(2);
    let (closed, log) = shim.client_receive(2, ErrorKind::ConnectionReset);
    assert!(closed.is_none());
    assert!(!log);
    assert!(shim.remove(7).is_none());
    assert_eq!(shim.bridge_count(), 2);
}

#[test]
fn remove_hands_the_bridge_back() {
    let mut shim = with_clients(3);
    let closed = shim.remove(0).unwrap();
    assert_eq!(*closed.conn_to_server(), 100);
    assert_eq!(sessions(&mut shim), vec![(client(1), 101), (client(2), 102)]);
    let closed = shim.remove(1).unwrap();
    assert_eq!(*closed.conn_to_server(), 102);
    assert_eq!(sessions(&mut shim), vec![(client(1), 101)]);
}

#[test]
fn a_pull_from_the_backend_that_went_well_keeps_everything() {
    let mut shim = with_clients(2);
    let mut cmds: Vec<Cmd> =
        vec![ShimCommand::NewShim(backend(2004), self::shim("a", 40001, 2004))];
    let (closed, taken, log) = shim.step(0, None, &mut cmds, 0);
    assert!(closed.is_none());
    assert!(taken.is_empty());
    assert!(!log);
    assert_eq!(cmds.len(), 1);
    assert_eq!(shim.bridge_count(), 2);
}

#[test]
fn a_failed_pull_from_the_backend_removes_only_that_bridge() {
    let mut shim = with_clients(3);
    let mut cmds: Vec<Cmd> = Vec::new();
    let (closed, taken, log) = shim.step(2, Some(ErrorKind::ConnectionReset), &mut cmds, 0);
    assert_eq!(*closed.unwrap().conn_to_server(), 102);
    assert!(taken.is_empty());
    assert!(!log);
    assert_eq!(sessions(&mut shim), vec![(client(0), 100), (client(1), 101)]);

    let (closed, _, log) = shim.step(0, Some(ErrorKind::Other), &mut cmds, 0);
    assert_eq!(*closed.unwrap().conn_to_server(), 100);
    assert!(log);
    assert_eq!(sessions(&mut shim), vec![(client(1), 101)]);

    let (closed, _, log) = shim.step(0, Some(ErrorKind::ConnectionAborted), &mut cmds, 0);
    assert_eq!(*closed.unwrap().conn_to_server(), 101);
    assert!(!log);
    assert_eq!(shim.bridge_count(), 0);
    assert_eq!(shim.local_addr(), local(1001));
}

#[test]
fn a_failed_pull_takes_its_commands_back() {
    let mut shim = with_clients(1);
    let mut cmds: Vec<Cmd> = vec![
        ShimCommand::NewShim(backend(2004), self::shim("a", 40001, 2004)),
        ShimCommand::NewShim(backend(2005), self::shim("b", 40002, 2005)),
        ShimCommand::NewShim(backend(2006), self::shim("c", 40003, 2006)),
    ];
    let (closed, taken, log) = shim.step(0, Some(ErrorKind::WouldBlock), &mut cmds, 1);
    assert!(closed.is_some());
    assert!(log);
    assert_eq!(cmds.len(), 1);
    assert_eq!(cmds[0].announces().backend, backend(2004));
    assert_eq!(taken.len(), 2);
    assert_eq!(taken[0].announces().backend, backend(2005));
    assert_eq!(taken[1].announces().local, local(40003));

    let (closed, taken, _) = shim.step(0, Some(ErrorKind::Other), &mut cmds, 5);
    assert!(closed.is_none());
    assert!(taken.is_empty());
    assert_eq!(cmds.len(), 1);
}

#[test]
fn a_command_announces_the_shims_address() {
    let cmd: Cmd = ShimCommand::NewShim(backend(2004), shim("w", 40001, 2004));
    assert_eq!(cmd.announces(), Relay { backend: backend(2004), local: local(40001) });
}

#[test]
fn apply_registers_the_relay_and_adds_the_shim() {
    let mut shims: Vec<TestShim> = Vec::new();
    let mut registry = Registry::new();
    let first = ShimCommand::NewShim(backend(1001), shim("auth", 1001, 1001));
    assert!(apply(first, &mut shims, &mut registry).is_none());
    let second = ShimCommand::NewShim(backend(2004), shim("world", 40001, 2004));
    assert!(apply(second, &mut shims, &mut registry).is_none());

    assert_eq!(shims.len(), 2);
    assert_eq!(*shims[1].listener(), "world");
    assert_eq!(registry.len(), 2);
    assert_eq!(registry.get(&backend(1001)), Some(local(1001)));
    assert_eq!(registry.get(&backend(2004)), Some(local(40001)));
}

#[test]
fn many_bridges_one_backend_one_relay() {
    let mut shims: Vec<TestShim> = Vec::new();
    let mut registry = Registry::new();
    let names = ["a", "b", "c", "d", "e", "f"];
    let mut rejected = Vec::new();
    for (i, name) in names.iter().enumerate() {
        let cmd = ShimCommand::NewShim(backend(2004), shim(name, 40000 + i as u16, 2004));
        if let Some(shim) = apply(cmd, &mut shims, &mut registry) {
            rejected.push(*shim.listener());
        }
        assert_eq!(registry.len(), 1);
        assert_eq!(shims.len(), 1);
        assert_eq!(registry.get(&backend(2004)), Some(local(40000)));
    }
    assert_eq!(*shims[0].listener(), "a");
    assert_eq!(rejected, vec!["b", "c", "d", "e", "f"]);
}

#[test]
fn bridges_of_one_tick_share_the_relay_that_the_first_asked_for() {
    let auth = with_clients(0);
    let registry = Registry::new();
    let mut cmds: Vec<Cmd> = Vec::new();
    let mut data = vec![0u8; 43];
    data[0] = 83;
    data[1] = 5;
    data[3] = 14;
    data[41..43].copy_from_slice(&2004u16.to_le_bytes());
    let mut opened = 0;
    for i in 0..10u32 {
        let bridge: Bridge<u32, u32> = auth.create_bridge(Connection::from(i), i);
        let packets = vec![Packet { reliability: Reliability::Reliable, data: data.clone() }];
        for wanted in bridge.missing_relays(&packets, &registry, &cmds) {
            opened += 1;
            cmds.push(ShimCommand::NewShim(wanted, shim("w", 41000 + i as u16, wanted.port)));
        }
        let wire = bridge.server_receive(packets, &registry, &cmds).unwrap();
        assert_eq!(&wire[4 + 41..], &41000u16.to_le_bytes());
    }
    assert_eq!(opened, 1);
    assert_eq!(cmds.len(), 1);
}

#[test]
fn login_redirect_end_to_end() {
    let config = AppConfig {
        external_ip: "198.51.100.1".to_string(),
        external_auth_port: 1001,
        raknet_ip: "10.0.0.5".to_string(),
        raknet_auth_port: 1001,
        bind_to: "0.0.0.0".to_string(),
    };
    let mut shims: Vec<TestShim> = Vec::new();
    let mut registry = Registry::new();
    let auth_backend = backend(1001);
    let auth = Shim::new("auth", local(1001), auth_backend, config.clone());
    assert!(apply(ShimCommand::NewShim(auth_backend, auth), &mut shims, &mut registry).is_none());

    // A client connects; its session with the backend starts with the handshake.
    assert_eq!(raknet_shim::bridge::open_request(), [9, 121]);
    let bridge = shims[0].create_bridge(Connection::from(1), 1);
    assert!(shims[0].insert(client(1), bridge).is_none());
    assert_eq!(shims[0].bridge_mut(0).peer_addr(), backend(1001));

    // The backend answers the login.
    let mut login = vec![0x55u8; 500];
    login[0] = 83;
    login[1] = 5;
    login[3] = 0;
    login[8] = 1;
    login[345..353].copy_from_slice(b"10.0.0.5");
    login[411..413].copy_from_slice(&2004u16.to_le_bytes());
    let packets = vec![Packet { reliability: Reliability::ReliableOrdered, data: login.clone() }];

    let mut cmds: Vec<Cmd> = Vec::new();
    let wanted = shims[0].bridge_mut(0).missing_relays(&packets, &registry, &cmds);
    assert_eq!(wanted, vec![backend(2004)]);
    let listen = raknet_shim::bridge::relay_listen_addr(&wanted[0]);
    assert_eq!(config.bind_target(&listen), ("0.0.0.0".to_string(), 2004));
    let fresh = local(47001);
    cmds.push(ShimCommand::NewShim(wanted[0], Shim::new("world", fresh, wanted[0], config.clone())));

    let wire = shims[0].bridge_mut(0).server_receive(packets, &registry, &cmds).unwrap();
    let (closed, taken, log) = shims[0].step(0, None, &mut cmds, 0);
    assert!(closed.is_none() && taken.is_empty() && !log);

    // What the client receives.
    let mut client_side = Connection::from(());
    let (used, message) = client_side.receive_raw(&wire);
    assert_eq!(used, wire.len());
    let message = message.unwrap();
    assert_eq!(message.len(), login.len());
    assert_eq!(&message[345..357], b"198.51.100.1");
    assert_eq!(&message[411..413], &47001u16.to_le_bytes());
    for i in (0..345).chain(357..411).chain(413..500) {
        assert_eq!(message[i], login[i]);
    }

    // After the tick the registry knows the new backend.
    for cmd in cmds {
        assert!(apply(cmd, &mut shims, &mut registry).is_none());
    }
    assert_eq!(registry.get(&backend(2004)), Some(fresh));
    assert_eq!(registry.get(&backend(1001)), Some(local(1001)));
    assert_eq!(shims.len(), 2);
    assert_eq!(shims[1].connect_addr(), backend(2004));
    assert_eq!(shims[1].local_addr(), fresh);
}
