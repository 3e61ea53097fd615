//! The event record codec: header round-trips, full record round-trips for
//! every variant, and the inputs each error or drop comes from.

use mina_recorder::event::{DataTag, Event};
use mina_recorder::sniffer_event::{
    ErrorSliceTooShort, SnifferEvent, SnifferEventVariant, SocketAddress,
};

#[test]
fn header_round_trip() {
    let e = Event::new(42, 1000, 2000).set_tag_fd(DataTag::Write, 7).set_ok(5);
    let bytes = e.to_bytes();
    assert_eq!(bytes.len(), 32);
    let back = Event::from_bytes(&bytes);
    assert_eq!(back, e);
}

#[test]
fn header_exact_bytes() {
    let e = Event::new(2, 3, 4).set_tag_fd(DataTag::Connect, 1).set_err(-115);
    let bytes = e.to_bytes();
    let expect: Vec<u8> = vec![
        1, 0, 0, 0, // fd
        2, 0, 0, 0, // pid
        3, 0, 0, 0, 0, 0, 0, 0, // ts0
        4, 0, 0, 0, 0, 0, 0, 0, // ts1
        2, 0, 0, 0, // tag: connect
        0x8d, 0xff, 0xff, 0xff, // size: -115
    ];
    assert_eq!(bytes, expect);
}

#[test]
fn tag_codes_round_trip() {
    let tags = [
        DataTag::Debug,
        DataTag::Close,
        DataTag::Connect,
        DataTag::Bind,
        DataTag::Listen,
        DataTag::Accept,
        DataTag::Write,
        DataTag::Read,
        DataTag::Alias,
        DataTag::Random,
    ];
    for (i, tag) in tags.iter().enumerate() {
        assert_eq!(tag.to_u32(), i as u32);
        assert_eq!(DataTag::from_u32(i as u32), Some(*tag));
    }
    assert_eq!(DataTag::from_u32(10), None);
    assert_eq!(DataTag::from_u32(0xffffffff), None);
}

fn round_trip(ev: SnifferEvent) {
    let bytes = ev.to_rb_bytes();
    let back = SnifferEvent::from_rb_slice(&bytes).expect("complete").expect("kept");
    assert_eq!(back, ev);
}

#[test]
fn record_round_trips_all_variants() {
    let variants = vec![
        SnifferEventVariant::NewApp(b"mina-node-1".to_vec()),
        SnifferEventVariant::IncomingConnection(SocketAddress::V4 {
            ip: 0x0a000001,
            port: 8302,
        }),
        SnifferEventVariant::OutgoingConnection(SocketAddress::V6 {
            ip: 0x20010db8000000000000000000000001,
            port: 49153,
        }),
        SnifferEventVariant::Disconnected,
        SnifferEventVariant::IncomingData(b"hello".to_vec()),
        SnifferEventVariant::OutgoingData(vec![0u8; 0x200]),
        SnifferEventVariant::Random(vec![7u8; 32]),
        SnifferEventVariant::Error(DataTag::Connect, -115),
    ];
    for variant in variants {
        round_trip(SnifferEvent { pid: 1234, fd: 7, ts0: 10, ts1: 20, variant });
    }
}

#[test]
fn record_round_trip_empty_payload() {
    round_trip(SnifferEvent {
        pid: 1,
        fd: 0,
        ts0: 0,
        ts1: 0,
        variant: SnifferEventVariant::NewApp(Vec::new()),
    });
}

#[test]
fn short_slice_asks_for_more() {
    assert_eq!(SnifferEvent::from_rb_slice(&[0u8; 31]), Err(ErrorSliceTooShort));
    // A header promising five payload bytes, with only three there.
    let ev = SnifferEvent {
        pid: 1,
        fd: 2,
        ts0: 3,
        ts1: 4,
        variant: SnifferEventVariant::OutgoingData(b"hello".to_vec()),
    };
    let bytes = ev.to_rb_bytes();
    assert_eq!(SnifferEvent::from_rb_slice(&bytes[..35]), Err(ErrorSliceTooShort));
}

#[test]
fn unknown_tag_code_is_dropped() {
    let mut bytes = Event::new(1, 2, 3).to_bytes();
    bytes[24] = 0xab;
    assert_eq!(SnifferEvent::from_rb_slice(&bytes), Ok(None));
}

#[test]
fn reserved_tags_are_dropped() {
    for tag in [DataTag::Debug, DataTag::Listen, DataTag::Bind] {
        let bytes = Event::new(1, 2, 3).set_tag_fd(tag, 0).to_bytes();
        assert_eq!(SnifferEvent::from_rb_slice(&bytes), Ok(None));
    }
}

#[test]
fn unsupported_address_family_is_dropped() {
    let mut header = Event::new(1, 2, 3).set_tag_fd(DataTag::Connect, 7).set_ok(8).to_bytes();
    let payload = [1u8, 0, 0x20, 0x6e, 10, 0, 0, 1]; // family 1: AF_UNIX
    header.extend_from_slice(&payload);
    assert_eq!(SnifferEvent::from_rb_slice(&header), Ok(None));
}

#[test]
fn sockaddr_payload_reads_back() {
    let mut bytes = Event::new(9, 1, 2).set_tag_fd(DataTag::Accept, 5).set_ok(8).to_bytes();
    // family AF_INET, port 8302, address 10.0.0.1
    bytes.extend_from_slice(&[2, 0, 0x20, 0x6e, 10, 0, 0, 1]);
    let ev = SnifferEvent::from_rb_slice(&bytes).expect("complete").expect("kept");
    assert_eq!(
        ev.variant,
        SnifferEventVariant::IncomingConnection(SocketAddress::V4 { ip: 0x0a000001, port: 8302 }),
    );
    assert_eq!(ev.pid, 9);
    assert_eq!(ev.fd, 5);
}

#[test]
fn alias_that_is_not_utf8_is_dropped() {
    let mut bytes = Event::new(1, 2, 3).set_tag_fd(DataTag::Alias, 0).set_ok(2).to_bytes();
    bytes.extend_from_slice(&[0xff, 0xfe]);
    assert_eq!(SnifferEvent::from_rb_slice(&bytes), Ok(None));
}

#[test]
fn random_payload_of_wrong_size_is_dropped() {
    let mut bytes = Event::new(1, 2, 3).set_tag_fd(DataTag::Random, 0).set_ok(16).to_bytes();
    bytes.extend_from_slice(&[0u8; 16]);
    assert_eq!(SnifferEvent::from_rb_slice(&bytes), Ok(None));
}

#[test]
fn negative_size_is_an_error_event() {
    let bytes = Event::new(8, 5, 6).set_tag_fd(DataTag::Read, 3).set_err(-11).to_bytes();
    let ev = SnifferEvent::from_rb_slice(&bytes).expect("complete").expect("kept");
    assert_eq!(ev.variant, SnifferEventVariant::Error(DataTag::Read, -11));
}
