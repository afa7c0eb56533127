use raknet_shim::bridge::{Packet, Reliability};
use raknet_shim::tcpudp::{Connection, PREFIX_LEN};

fn packet(data: &[u8]) -> Packet {
    Packet { reliability: Reliability::ReliableOrdered, data: data.to_vec() }
}

#[test]
fn prefix_is_four_bytes() {
    assert_eq!(PREFIX_LEN, 4);
}

#[test]
fn send_raw_puts_the_length_first() {
    let conn = Connection::from(());
    assert_eq!(conn.send_raw(b"abc"), vec![3, 0, 0, 0, b'a', b'b', b'c']);
}

#[test]
fn send_raw_of_nothing_is_a_bare_prefix() {
    let conn = Connection::from(());
    assert_eq!(conn.send_raw(&[]), vec![0, 0, 0, 0]);
}

#[test]
fn send_raw_length_is_little_endian() {
    let conn = Connection::from(());
    let payload = vec![7u8; 0x0102_03];
    let wire = conn.send_raw(&payload);
    assert_eq!(wire.len(), payload.len() + 4);
    assert_eq!(&wire[..4], &[0x03, 0x02, 0x01, 0x00]);
    assert_eq!(&wire[4..], &payload[..]);
}

#[test]
fn send_packets_frames_each_in_order() {
    let conn = Connection::from(());
    let wire = conn.send_packets(&vec![packet(b"hi"), packet(b""), packet(b"you")]);
    assert_eq!(
        wire,
        vec![2, 0, 0, 0, b'h', b'i', 0, 0, 0, 0, 3, 0, 0, 0, b'y', b'o', b'u']
    );
}

#[test]
fn send_packets_of_none_sends_nothing() {
    let conn = Connection::from(());
    assert_eq!(conn.send_packets(&Vec::new()), Vec::<u8>::new());
}

#[test]
fn a_fresh_connection_wants_the_prefix() {
    let conn = Connection::from(());
    assert_eq!(conn.wanted(), 4);
}

#[test]
fn receive_raw_takes_a_whole_frame() {
    let mut conn = Connection::from(());
    let (used, message) = conn.receive_raw(&[3, 0, 0, 0, 1, 2, 3]);
    assert_eq!(used, 7);
    assert_eq!(message, Some(vec![1, 2, 3]));
    assert_eq!(conn.wanted(), 4);
}

#[test]
fn round_trip_gives_the_payload_and_takes_four_more_bytes() {
    let payloads: Vec<Vec<u8>> = vec![
        vec![],
        vec![0],
        vec![255; 1],
        (0..=255u8).collect(),
        vec![0xAB; 70_000],
    ];
    for payload in payloads {
        let sender = Connection::from(());
        let mut wire = sender.send_raw(&payload);
        let framed = wire.len();
        assert_eq!(framed, payload.len() + 4);
        wire.extend_from_slice(&[9, 9, 9]);
        let mut receiver = Connection::from(());
        let (used, message) = receiver.receive_raw(&wire);
        assert_eq!(used, framed);
        assert_eq!(message, Some(payload));
    }
}

#[test]
fn receive_raw_leaves_the_next_frame_alone() {
    let mut conn = Connection::from(());
    let stream = [1, 0, 0, 0, 42, 2, 0, 0, 0, 7, 8];
    let (used, message) = conn.receive_raw(&stream);
    assert_eq!((used, message), (5, Some(vec![42])));
    let (used, message) = conn.receive_raw(&stream[5..]);
    assert_eq!((used, message), (6, Some(vec![7, 8])));
}

#[test]
fn receive_raw_byte_by_byte_gives_the_same_message() {
    let payload: Vec<u8> = (0..200u8).collect();
    let wire = Connection::from(()).send_raw(&payload);

    let mut whole = Connection::from(());
    let at_once = whole.receive_raw(&wire);

    let mut conn = Connection::from(());
    let mut taken = 0;
    let mut message = None;
    for (i, byte) in wire.iter().enumerate() {
        assert!(message.is_none());
        let (used, got) = conn.receive_raw(&[*byte]);
        assert_eq!(used, 1);
        taken += used;
        if i + 1 < wire.len() {
            assert_eq!(got, None);
        }
        message = got;
    }
    assert_eq!((taken, message), at_once);
    assert_eq!(at_once, (wire.len(), Some(payload)));
}

#[test]
fn receive_raw_resumes_inside_the_prefix_and_the_body() {
    let mut conn = Connection::from(());
    assert_eq!(conn.receive_raw(&[5, 0]), (2, None));
    assert_eq!(conn.wanted(), 2);
    assert_eq!(conn.receive_raw(&[0, 0, 1, 2]), (4, None));
    assert_eq!(conn.wanted(), 3);
    assert_eq!(conn.receive_raw(&[3, 4]), (2, None));
    assert_eq!(conn.wanted(), 1);
    assert_eq!(conn.receive_raw(&[5, 99]), (1, Some(vec![1, 2, 3, 4, 5])));
    assert_eq!(conn.wanted(), 4);
}

#[test]
fn an_empty_read_is_no_data_yet() {
    let mut conn = Connection::from(());
    assert_eq!(conn.receive_raw(&[]), (0, None));
    assert_eq!(conn.receive_raw(&[2, 0, 0, 0, 1]), (5, None));
    assert_eq!(conn.receive_raw(&[]), (0, None));
    assert_eq!(conn.wanted(), 1);
    assert_eq!(conn.receive_raw(&[2]), (1, Some(vec![1, 2])));
}

#[test]
fn an_empty_read_mid_message_loses_nothing() {
    let mut conn = Connection::from(());
    assert_eq!(conn.receive_raw(&[3, 0, 0]), (3, None));
    assert_eq!(conn.receive_raw(&[]), (0, None));
    assert_eq!(conn.receive_raw(&[0, 7]), (2, None));
    assert_eq!(conn.receive_raw(&[]), (0, None));
    assert_eq!(conn.receive_raw(&[8, 9]), (2, Some(vec![7, 8, 9])));
}

#[test]
fn a_frame_of_length_zero_is_an_empty_message() {
    let mut conn = Connection::from(());
    assert_eq!(conn.receive_raw(&[0, 0, 0]), (3, None));
    assert_eq!(conn.receive_raw(&[0, 1, 0]), (1, Some(vec![])));
}

#[test]
fn the_length_is_read_little_endian() {
    let mut conn = Connection::from(());
    assert_eq!(conn.receive_raw(&[0x00, 0x01, 0x00, 0x00]), (4, None));
    assert_eq!(conn.wanted(), 256);
    let body = vec![1u8; 255];
    assert_eq!(conn.receive_raw(&body), (255, None));
    assert_eq!(conn.wanted(), 1);
    let (used, message) = conn.receive_raw(&[2]);
    assert_eq!(used, 1);
    let message = message.unwrap();
    assert_eq!(message.len(), 256);
    assert_eq!(message[255], 2);
}

#[test]
fn the_transport_is_kept() {
    let conn = Connection::from(17u32);
    assert_eq!(*conn.transport(), 17);
    assert_eq!(conn.into_transport(), 17);
}

#[test]
fn an_empty_read_taken_for_the_end_shows_a_cut_message() {
    let mut conn = Connection::from(());
    assert!(!conn.mid_message());
    assert_eq!(conn.receive_raw(&[]), (0, None));
    assert!(!conn.mid_message());

    assert_eq!(conn.receive_raw(&[2]), (1, None));
    assert!(conn.mid_message());
    assert_eq!(conn.receive_raw(&[0, 0, 0, 7]), (4, None));
    assert_eq!(conn.receive_raw(&[]), (0, None));
    assert!(conn.mid_message());

    assert_eq!(conn.receive_raw(&[8]), (1, Some(vec![7, 8])));
    assert!(!conn.mid_message());
}
