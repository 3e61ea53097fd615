//! The whole chain at once: syscalls observed by the probe become ring
//! records, the records become events, the router turns them into recorder
//! actions, and the recorder's pipeline reads the multistream tokens out of
//! the written bytes.

use mina_recorder::probe::ProbeState;
use mina_recorder::recorder::P2pRecorder;
use mina_recorder::router::{Action, Router};
use mina_recorder::sniffer_event::SnifferEvent;

const PID: u32 = 900;
const TID: u32 = 901;

// family AF_INET, port 8302, 10.0.0.1
const SOCKADDR: [u8; 8] = [2, 0, 0x20, 0x6e, 10, 0, 0, 1];

#[test]
fn observed_syscalls_reach_the_pipeline() {
    let mut probe = ProbeState::new();
    let mut router = Router::new();
    let mut recorder = P2pRecorder::new();
    let mut tokens_seen: Vec<Vec<u8>> = Vec::new();

    let mut deliver = |rec: mina_recorder::probe::EmittedRecord,
                       router: &mut Router,
                       recorder: &mut P2pRecorder| {
        let bytes = rec.to_bytes();
        let event = SnifferEvent::from_rb_slice(&bytes).expect("complete").expect("kept");
        let mut tokens: Vec<Vec<u8>> = Vec::new();
        for action in router.handle(&event) {
            match action {
                Action::Connect { incoming, metadata } => recorder.on_connect(
                    incoming,
                    metadata.alias,
                    metadata.addr,
                    metadata.pid,
                    metadata.fd,
                ),
                Action::Disconnect { metadata } => recorder.on_disconnect(
                    metadata.alias,
                    metadata.addr,
                    metadata.pid,
                    metadata.fd,
                ),
                Action::Data { incoming, metadata, bytes } => {
                    let out = recorder
                        .on_data(
                            incoming,
                            metadata.alias,
                            metadata.addr,
                            metadata.pid,
                            metadata.fd,
                            &bytes,
                        )
                        .expect("pipeline exists");
                    tokens.extend(out.tokens);
                },
                Action::Randomness { .. } => {},
            }
        }
        tokens
    };

    // The process execs with an alias in its environment.
    let envp = vec![b"BPF_ALIAS=node-e2e".to_vec()];
    let rec = probe.execve(PID, 10, &envp).expect("alias found");
    assert!(deliver(rec, &mut router, &mut recorder).is_empty());

    // It connects to a peer on the p2p port.
    probe.enter_connect(TID, PID, 7, 0, 8, 20).expect("stored");
    let rec = probe.exit(TID, PID, 0, 25, &SOCKADDR).expect("judged").expect("emitted");
    assert!(deliver(rec, &mut router, &mut recorder).is_empty());

    // It writes a multistream-select proposal on the connection.
    probe.enter_write(TID, PID, 7, 0, 30).expect("stored");
    let written = b"\x07/noise\n";
    let rec = probe
        .exit(TID, PID, written.len() as i64, 35, written)
        .expect("judged")
        .expect("emitted");
    tokens_seen.extend(deliver(rec, &mut router, &mut recorder));
    assert_eq!(tokens_seen, vec![b"/noise".to_vec()]);

    // A write on an unregistered descriptor never shows up.
    probe.enter_write(TID, PID, 1, 0, 40).expect("stored");
    assert!(probe.exit(TID, PID, 3, 45, b"log").expect("judged").is_none());

    // The connection closes; its pipeline is gone.
    let rec = probe.enter_close(PID, 7, 50).expect("judged").expect("emitted");
    assert!(deliver(rec, &mut router, &mut recorder).is_empty());
}
