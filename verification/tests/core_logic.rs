use russenger::addr::PeerAddr;
use russenger::frame;
use russenger::reader::{reader_start, reader_step, ReaderAction, ReaderEvent, ReaderState};
use russenger::table::StreamTable;
use russenger::writer::{plan_send, prepare_wire_bytes, register_connection, Registration, SendPlan};

fn addr(a: u8, b: u8, c: u8, d: u8, port: u16) -> PeerAddr {
    PeerAddr { a, b, c, d, port }
}

#[test]
fn frame_encodes_length_prefix() {
    let payload: Vec<u8> = vec![1, 2, 3];
    let wire = frame::encode_frame(&payload);
    assert_eq!(wire, vec![3, 0, 0, 0, 1, 2, 3]);
}

#[test]
fn frame_empty_payload() {
    let payload: Vec<u8> = Vec::new();
    let wire = frame::encode_frame(&payload);
    assert_eq!(wire, vec![0, 0, 0, 0]);
    assert_eq!(frame::parse_frame(&wire), Some(Vec::new()));
}

#[test]
fn frame_parse_round_trip() {
    let payload: Vec<u8> = vec![9, 8, 7, 6, 5];
    let wire = frame::encode_frame(&payload);
    assert_eq!(frame::parse_frame(&wire), Some(payload));
}

#[test]
fn frame_parse_rejects_short_data() {
    assert_eq!(frame::parse_frame(&vec![1, 2, 3]), None);
    // A header announcing more bytes than follow.
    assert_eq!(frame::parse_frame(&vec![5, 0, 0, 0, 1, 2]), None);
}

#[test]
fn frame_parse_rejects_length_mismatch() {
    // A header announcing fewer bytes than follow.
    assert_eq!(frame::parse_frame(&vec![1, 0, 0, 0, 1, 2]), None);
}

#[test]
fn frame_length_is_little_endian() {
    let header: Vec<u8> = vec![0x12, 0x34, 0x56, 0x78];
    assert_eq!(frame::decode_len(&header), 0x7856_3412);
    assert_eq!(frame::encode_len(0x7856_3412), header);
}

#[test]
fn addr_key_packs_fields() {
    let a = addr(127, 0, 0, 1, 4005);
    let expected: u64 = (127u64 << 40) | (1u64 << 16) | 4005u64;
    assert_eq!(a.key(), expected);
}

#[test]
fn addr_key_distinguishes_peers() {
    let a = addr(127, 0, 0, 1, 4005);
    let b = addr(127, 0, 0, 1, 4010);
    let c = addr(127, 0, 1, 0, 4005);
    assert_ne!(a.key(), b.key());
    assert_ne!(a.key(), c.key());
    assert_ne!(b.key(), c.key());
}

#[test]
fn addr_render_dotted_text() {
    assert_eq!(addr(127, 0, 0, 1, 4005).render(), b"127.0.0.1:4005".to_vec());
    assert_eq!(addr(0, 0, 0, 0, 0).render(), b"0.0.0.0:0".to_vec());
    assert_eq!(addr(255, 255, 255, 255, 65535).render(), b"255.255.255.255:65535".to_vec());
}

#[test]
fn addr_parse_dotted_text() {
    assert_eq!(
        PeerAddr::parse(&b"127.0.0.1:4010".to_vec()),
        Some(addr(127, 0, 0, 1, 4010))
    );
    assert_eq!(
        PeerAddr::parse(&b"10.20.30.40:65535".to_vec()),
        Some(addr(10, 20, 30, 40, 65535))
    );
}

#[test]
fn addr_parse_render_round_trip() {
    let cases = [
        addr(127, 0, 0, 1, 4005),
        addr(0, 0, 0, 0, 0),
        addr(255, 255, 255, 255, 65535),
        addr(192, 168, 1, 9, 80),
    ];
    for a in cases {
        assert_eq!(PeerAddr::parse(&a.render()), Some(a));
    }
}

#[test]
fn addr_parse_rejects_malformed_text() {
    for bad in [
        &b""[..],
        b"1.2.3.4",
        b"1.2.3:80",
        b"256.0.0.1:80",
        b"1.2.3.4:65536",
        b"01.2.3.4:80",
        b"1.2.3.4:080",
        b"1.2.3.4:80x",
        b"1..3.4:80",
        b"a.b.c.d:80",
    ] {
        assert_eq!(PeerAddr::parse(&bad.to_vec()), None, "{:?}", bad);
    }
}

#[test]
fn table_lookup_miss() {
    let table = StreamTable::new();
    assert_eq!(table.lookup(&addr(10, 0, 0, 1, 80)), None);
    assert_eq!(table.count(), 0);
}

#[test]
fn table_insert_if_absent_dedup() {
    let dest = addr(10, 0, 0, 2, 9000);
    let mut table = StreamTable::new();
    // Racing registrations of the same peer: the first connection wins,
    // and exactly one entry for the peer exists afterwards.
    assert_eq!(table.insert_if_absent(&dest, 7), 7);
    assert_eq!(table.insert_if_absent(&dest, 9), 7);
    assert_eq!(table.insert_if_absent(&dest, 11), 7);
    assert_eq!(table.count(), 1);
    assert_eq!(table.lookup(&dest), Some(7));
}

#[test]
fn writer_plan_send_miss_then_hit() {
    let dest = addr(10, 0, 0, 3, 4242);
    let mut table = StreamTable::new();
    assert!(matches!(plan_send(&table, &dest), SendPlan::NeedConnect));
    table.insert_if_absent(&dest, 3);
    match plan_send(&table, &dest) {
        SendPlan::UseExisting(c) => assert_eq!(c, 3),
        SendPlan::NeedConnect => panic!("connection should be reused"),
    }
}

#[test]
fn writer_drops_message_when_connect_fails() {
    let dest = addr(10, 0, 0, 4, 4242);
    let mut table = StreamTable::new();
    // Nothing listens at the destination: the message is dropped silently
    // and no connection entry appears.
    let r = register_connection(&mut table, &dest, None);
    assert!(matches!(r, Registration::Dropped));
    assert_eq!(table.count(), 0);
    assert_eq!(table.lookup(&dest), None);
}

#[test]
fn writer_registers_fresh_connection_once() {
    let dest = addr(10, 0, 0, 5, 4242);
    let mut table = StreamTable::new();
    match register_connection(&mut table, &dest, Some(5)) {
        Registration::Ready { conn, fresh } => {
            assert_eq!(conn, 5);
            assert!(fresh);
        },
        Registration::Dropped => panic!("connect succeeded"),
    }
    // A second attempt loses the race: the winner is kept, nothing fresh.
    match register_connection(&mut table, &dest, Some(6)) {
        Registration::Ready { conn, fresh } => {
            assert_eq!(conn, 5);
            assert!(!fresh);
        },
        Registration::Dropped => panic!("connect succeeded"),
    }
    assert_eq!(table.count(), 1);
}

#[test]
fn writer_prepare_wire_bytes_frames_payload() {
    let payload: Vec<u8> = vec![0xaa, 0xbb];
    let wire = prepare_wire_bytes(&payload).expect("payload fits the length field");
    assert_eq!(wire, vec![2, 0, 0, 0, 0xaa, 0xbb]);
}

#[test]
fn reader_delivers_frame() {
    let payload: Vec<u8> = vec![4, 5, 6];
    let wire = frame::encode_frame(&payload);
    let (st, act) = reader_start();
    assert!(matches!(act, ReaderAction::ReadHeader));
    let (st, act) = reader_step(st, ReaderEvent::Bytes(wire[..4].to_vec()));
    assert_eq!(st, ReaderState::AwaitingBody { need: 3 });
    assert!(matches!(act, ReaderAction::ReadBody(3)));
    let (st, act) = reader_step(st, ReaderEvent::Bytes(wire[4..].to_vec()));
    assert_eq!(st, ReaderState::AwaitingHeader);
    match act {
        ReaderAction::Deliver(p) => assert_eq!(p, payload),
        _ => panic!("a well-formed frame is delivered"),
    }
}

#[test]
fn reader_delivers_stream_in_order_exactly_once() {
    let p1: Vec<u8> = vec![1, 2];
    let p2: Vec<u8> = vec![3];
    let mut wire = frame::encode_frame(&p1);
    wire.extend(frame::encode_frame(&p2));

    let mut delivered: Vec<Vec<u8>> = Vec::new();
    let mut pos = 0usize;
    let (mut st, mut act) = reader_start();
    loop {
        let need = match act {
            ReaderAction::ReadHeader => 4,
            ReaderAction::ReadBody(n) => n as usize,
            ReaderAction::Deliver(p) => {
                delivered.push(p);
                act = ReaderAction::ReadHeader;
                continue;
            },
            ReaderAction::Stop => break,
        };
        let event = if pos + need <= wire.len() {
            let chunk = wire[pos..pos + need].to_vec();
            pos += need;
            ReaderEvent::Bytes(chunk)
        } else {
            ReaderEvent::Closed
        };
        let next = reader_step(st, event);
        st = next.0;
        act = next.1;
    }
    assert_eq!(delivered, vec![p1, p2]);
}

#[test]
fn reader_stops_on_length_mismatch_but_peers_continue() {
    // One connection carries a malformed frame: its header announces 4
    // bytes, the body has 2. Only that reader stops.
    let (bad, _) = reader_start();
    let (bad, _) = reader_step(bad, ReaderEvent::Bytes(vec![4, 0, 0, 0]));
    let (bad, act) = reader_step(bad, ReaderEvent::Bytes(vec![1, 2]));
    assert_eq!(bad, ReaderState::Stopped);
    assert!(matches!(act, ReaderAction::Stop));

    // Another connection's reader keeps delivering.
    let (other, _) = reader_start();
    let (other, _) = reader_step(other, ReaderEvent::Bytes(vec![1, 0, 0, 0]));
    let (other, act) = reader_step(other, ReaderEvent::Bytes(vec![42]));
    assert_eq!(other, ReaderState::AwaitingHeader);
    match act {
        ReaderAction::Deliver(p) => assert_eq!(p, vec![42]),
        _ => panic!("the healthy connection still delivers"),
    }
}

#[test]
fn reader_stops_on_short_header() {
    let (st, _) = reader_start();
    let (st, act) = reader_step(st, ReaderEvent::Bytes(vec![1, 2]));
    assert_eq!(st, ReaderState::Stopped);
    assert!(matches!(act, ReaderAction::Stop));
}

#[test]
fn reader_stops_on_stream_close() {
    let (st, _) = reader_start();
    let (st, act) = reader_step(st, ReaderEvent::Closed);
    assert_eq!(st, ReaderState::Stopped);
    assert!(matches!(act, ReaderAction::Stop));
}

#[test]
fn reader_stops_on_decode_failure() {
    let (st, _) = reader_start();
    let (st, _) = reader_step(st, ReaderEvent::Bytes(vec![1, 0, 0, 0]));
    let (st, act) = reader_step(st, ReaderEvent::DecodeFailed);
    assert_eq!(st, ReaderState::Stopped);
    assert!(matches!(act, ReaderAction::Stop));
}

#[test]
fn reader_stops_gracefully_when_receiver_hangs_up() {
    let (st, _) = reader_start();
    let (st, act) = reader_step(st, ReaderEvent::ForwardFailed);
    assert_eq!(st, ReaderState::Stopped);
    assert!(matches!(act, ReaderAction::Stop));
}

#[test]
fn reader_stays_stopped() {
    let (st, _) = reader_step(ReaderState::Stopped, ReaderEvent::Bytes(vec![1, 0, 0, 0]));
    assert_eq!(st, ReaderState::Stopped);
    let (st, act) = reader_step(st, ReaderEvent::Closed);
    assert_eq!(st, ReaderState::Stopped);
    assert!(matches!(act, ReaderAction::Stop));
}
