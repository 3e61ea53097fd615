//! The router's event dispatch and the recorder's per-connection pipelines:
//! who gets connected, what is ignored, and the synthesized disconnect when
//! a descriptor is reused.

use mina_recorder::recorder::{Cx, P2pRecorder};
use mina_recorder::router::{Action, Router};
use mina_recorder::sniffer_event::{SnifferEvent, SnifferEventVariant, SocketAddress};

const PID: u32 = 4242;

fn ev(fd: u32, variant: SnifferEventVariant) -> SnifferEvent {
    SnifferEvent { pid: PID, fd, ts0: 100, ts1: 150, variant }
}

fn p2p_addr() -> SocketAddress {
    SocketAddress::V4 { ip: 0x0a000001, port: 8302 }
}

fn tagged_router() -> Router {
    let mut router = Router::new();
    let actions = router.handle(&ev(0, SnifferEventVariant::NewApp(b"node".to_vec())));
    assert!(actions.is_empty());
    router
}

#[test]
fn connect_data_disconnect_flow() {
    let mut router = tagged_router();

    let actions = router.handle(&ev(7, SnifferEventVariant::OutgoingConnection(p2p_addr())));
    assert_eq!(actions.len(), 1);
    match &actions[0] {
        Action::Connect { incoming, metadata } => {
            assert!(!incoming);
            assert_eq!(metadata.alias, b"node".to_vec());
            assert_eq!(metadata.addr, p2p_addr());
            assert_eq!(metadata.fd, 7);
            assert_eq!(metadata.ts0, 100);
            assert_eq!(metadata.duration, 50);
        },
        other => panic!("expected a connect, got {:?}", other),
    }

    let actions = router.handle(&ev(7, SnifferEventVariant::OutgoingData(b"hello".to_vec())));
    assert_eq!(actions.len(), 1);
    match &actions[0] {
        Action::Data { incoming, metadata, bytes } => {
            assert!(!incoming);
            assert_eq!(metadata.addr, p2p_addr());
            assert_eq!(bytes, &b"hello".to_vec());
        },
        other => panic!("expected data, got {:?}", other),
    }

    let actions = router.handle(&ev(7, SnifferEventVariant::Disconnected));
    assert_eq!(actions.len(), 1);
    assert!(matches!(&actions[0], Action::Disconnect { .. }));

    // After the disconnect, further bytes on the descriptor are dropped.
    let actions = router.handle(&ev(7, SnifferEventVariant::OutgoingData(b"late".to_vec())));
    assert!(actions.is_empty());
}

#[test]
fn reused_descriptor_synthesizes_a_disconnect() {
    let mut router = tagged_router();
    let other_addr = SocketAddress::V4 { ip: 0x0a000002, port: 8302 };

    let actions = router.handle(&ev(7, SnifferEventVariant::OutgoingConnection(p2p_addr())));
    assert_eq!(actions.len(), 1);

    let actions = router.handle(&ev(7, SnifferEventVariant::OutgoingConnection(other_addr)));
    assert_eq!(actions.len(), 2);
    match (&actions[0], &actions[1]) {
        (Action::Disconnect { metadata: old }, Action::Connect { metadata: new, .. }) => {
            assert_eq!(old.addr, p2p_addr());
            assert_eq!(new.addr, other_addr);
        },
        other => panic!("expected disconnect then connect, got {:?}", other),
    }
}

#[test]
fn other_ports_are_ignored() {
    let mut router = tagged_router();
    let dns = SocketAddress::V4 { ip: 0x08080808, port: 53 };
    let actions = router.handle(&ev(9, SnifferEventVariant::OutgoingConnection(dns)));
    assert!(actions.is_empty());
    let actions = router.handle(&ev(9, SnifferEventVariant::OutgoingData(b"query".to_vec())));
    assert!(actions.is_empty());
    let actions = router.handle(&ev(9, SnifferEventVariant::Disconnected));
    assert!(actions.is_empty());
}

#[test]
fn incoming_ephemeral_ports_are_recorded() {
    let mut router = tagged_router();
    let peer = SocketAddress::V6 { ip: 1, port: 50000 };
    let actions = router.handle(&ev(11, SnifferEventVariant::IncomingConnection(peer)));
    assert!(matches!(&actions[0], Action::Connect { incoming: true, .. }));
    // An outgoing connection to an ephemeral port is not recorded.
    let actions = router.handle(&ev(12, SnifferEventVariant::OutgoingConnection(peer)));
    assert!(actions.is_empty());
}

#[test]
fn events_without_an_alias_are_dropped() {
    let mut router = Router::new();
    let actions = router.handle(&ev(7, SnifferEventVariant::OutgoingConnection(p2p_addr())));
    assert!(actions.is_empty());
    let actions = router.handle(&ev(0, SnifferEventVariant::Random(vec![1u8; 32])));
    assert!(actions.is_empty());
}

#[test]
fn randomness_reaches_the_recorder_with_the_alias() {
    let mut router = tagged_router();
    let actions = router.handle(&ev(0, SnifferEventVariant::Random(vec![9u8; 32])));
    assert_eq!(actions.len(), 1);
    match &actions[0] {
        Action::Randomness { alias, bytes } => {
            assert_eq!(alias, &b"node".to_vec());
            assert_eq!(bytes, &vec![9u8; 32]);
        },
        other => panic!("expected randomness, got {:?}", other),
    }
}

#[test]
fn timestamp_order_is_checked_with_one_second_of_slack() {
    let mut router = Router::new();
    assert!(!router.check_order(5_000_000_000));
    assert!(!router.check_order(4_500_000_000)); // within the slack
    assert!(router.check_order(3_000_000_000)); // more than a second back
}

#[test]
fn recorder_feeds_the_right_pipeline() {
    let mut rec = P2pRecorder::new();
    rec.on_connect(false, b"node".to_vec(), p2p_addr(), PID, 7);
    let out = rec
        .on_data(false, b"node".to_vec(), p2p_addr(), PID, 7, b"\x07/noise\n")
        .expect("pipeline exists");
    assert_eq!(out.tokens, vec![b"/noise".to_vec()]);
    // Another identity has no pipeline.
    let out = rec.on_data(false, b"node".to_vec(), p2p_addr(), PID, 8, b"\x07/noise\n");
    assert!(out.is_none());
    // After the disconnect the pipeline is gone.
    rec.on_disconnect(b"node".to_vec(), p2p_addr(), PID, 7);
    let out = rec.on_data(false, b"node".to_vec(), p2p_addr(), PID, 7, b"\x07/noise\n");
    assert!(out.is_none());
}

#[test]
fn reconnect_restarts_the_pipeline() {
    let mut rec = P2pRecorder::new();
    rec.on_connect(false, b"node".to_vec(), p2p_addr(), PID, 7);
    let out = rec
        .on_data(false, b"node".to_vec(), p2p_addr(), PID, 7, b"\x07/noise\n")
        .expect("pipeline exists");
    assert_eq!(out.tokens.len(), 1);
    // A second connect on the same identity installs a fresh pipeline: the
    // partial token below is new, not a continuation.
    rec.on_connect(false, b"node".to_vec(), p2p_addr(), PID, 7);
    let out = rec
        .on_data(false, b"node".to_vec(), p2p_addr(), PID, 7, b"\x07/noi")
        .expect("pipeline exists");
    assert!(out.tokens.is_empty());
}

#[test]
fn randomness_queue_hands_back_newest_first() {
    let mut cx = Cx::new();
    cx.push_randomness(b"node".to_vec(), [1u8; 32]);
    cx.push_randomness(b"node".to_vec(), [2u8; 32]);
    cx.push_randomness(b"node".to_vec(), [3u8; 32]);
    let all = cx.iter_rand();
    assert_eq!(all.len(), 3);
    assert_eq!(all[0], [3u8; 32]);
    assert_eq!(all[1], [2u8; 32]);
    assert_eq!(all[2], [1u8; 32]);
}

#[test]
fn randomness_is_scoped_by_alias() {
    let mut cx = Cx::new();
    cx.push_randomness(b"one".to_vec(), [1u8; 32]);
    cx.push_randomness(b"two".to_vec(), [2u8; 32]);
    cx.push_randomness(b"one".to_vec(), [3u8; 32]);
    let ones = cx.iter_rand_for(b"one");
    assert_eq!(ones, vec![[3u8; 32], [1u8; 32]]);
    let twos = cx.iter_rand_for(b"two");
    assert_eq!(twos, vec![[2u8; 32]]);
    assert!(cx.iter_rand_for(b"three").is_empty());
    assert_eq!(cx.iter_rand().len(), 3);
}

#[test]
fn recorder_keeps_randomness_per_alias() {
    let mut rec = P2pRecorder::new();
    rec.on_randomness(b"node".to_vec(), [7u8; 32]);
    rec.on_randomness(b"other".to_vec(), [8u8; 32]);
    // The queues live in the recorder's shared state; pipelines come and
    // go without touching them.
    rec.on_connect(true, b"node".to_vec(), p2p_addr(), PID, 3);
    rec.on_disconnect(b"node".to_vec(), p2p_addr(), PID, 3);
    assert_eq!(rec.iter_rand_for(b"node"), vec![[7u8; 32]]);
    assert_eq!(rec.iter_rand_for(b"other"), vec![[8u8; 32]]);
}
