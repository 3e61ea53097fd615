//! The probe state machine run through the concrete syscall scenarios:
//! exec tagging, a connect-write-close round, an in-progress connect, and
//! writes on untracked descriptors.

use mina_recorder::probe::{socket_id, EmittedRecord, ProbeState};
use mina_recorder::sniffer_event::{SnifferEvent, SnifferEventVariant, SocketAddress};

const PID: u32 = 4242;
const TID: u32 = 4243;

fn decode(rec: &EmittedRecord) -> SnifferEvent {
    SnifferEvent::from_rb_slice(&rec.to_bytes()).expect("complete").expect("kept")
}

fn tagged_probe() -> ProbeState {
    let mut probe = ProbeState::new();
    let envp = vec![
        b"FOO=bar".to_vec(),
        b"BPF_ALIAS=mina-node-1".to_vec(),
        b"BAZ=qux".to_vec(),
    ];
    let rec = probe.execve(PID, 100, &envp).expect("alias found");
    let ev = decode(&rec);
    assert_eq!(ev.pid, PID);
    assert_eq!(ev.variant, SnifferEventVariant::NewApp(b"mina-node-1".to_vec()));
    probe
}

#[test]
fn execve_tagging() {
    let probe = tagged_probe();
    assert!(probe.check_pid(PID));
    assert!(!probe.check_pid(PID + 1));
}

#[test]
fn execve_without_alias_is_silent() {
    let mut probe = ProbeState::new();
    let envp = vec![b"FOO=bar".to_vec(), b"PATH=/bin".to_vec()];
    assert!(probe.execve(PID, 100, &envp).is_none());
    assert!(!probe.check_pid(PID));
}

#[test]
fn alias_entry_past_the_scan_limit_is_not_seen() {
    let mut probe = ProbeState::new();
    let mut envp: Vec<Vec<u8>> = (0..256).map(|i| format!("VAR{}=x", i).into_bytes()).collect();
    envp.push(b"BPF_ALIAS=late".to_vec());
    assert!(probe.execve(PID, 100, &envp).is_none());
}

// family AF_INET (host order), port 8302 (network order), 10.0.0.1
const SOCKADDR: [u8; 8] = [2, 0, 0x20, 0x6e, 10, 0, 0, 1];

#[test]
fn ipv4_connect_write_close() {
    let mut probe = tagged_probe();

    probe.enter_connect(TID, PID, 7, 0, 8, 200).expect("stored");
    let rec = probe.exit(TID, PID, 0, 210, &SOCKADDR).expect("judged").expect("emitted");
    let ev = decode(&rec);
    assert_eq!(
        ev.variant,
        SnifferEventVariant::OutgoingConnection(SocketAddress::V4 { ip: 0x0a000001, port: 8302 }),
    );
    assert_eq!(ev.fd, 7);
    assert_eq!((ev.ts0, ev.ts1), (200, 210));
    assert!(probe.check_connection(socket_id(7, PID)));

    probe.enter_write(TID, PID, 7, 0, 300).expect("stored");
    let rec = probe.exit(TID, PID, 5, 310, b"hello").expect("judged").expect("emitted");
    let ev = decode(&rec);
    assert_eq!(ev.variant, SnifferEventVariant::OutgoingData(b"hello".to_vec()));
    assert_eq!(ev.fd, 7);

    let rec = probe.enter_close(PID, 7, 400).expect("judged").expect("emitted");
    let ev = decode(&rec);
    assert_eq!(ev.variant, SnifferEventVariant::Disconnected);
    assert_eq!(ev.fd, 7);
    assert!(!probe.check_connection(socket_id(7, PID)));
}

#[test]
fn einprogress_connect_still_tracks() {
    let mut probe = tagged_probe();
    probe.enter_connect(TID, PID, 7, 0, 8, 200).expect("stored");
    let rec = probe.exit(TID, PID, -115, 210, &SOCKADDR).expect("judged").expect("emitted");
    let ev = decode(&rec);
    assert!(matches!(ev.variant, SnifferEventVariant::OutgoingConnection(_)));
    assert!(probe.check_connection(socket_id(7, PID)));

    // A write on that descriptor must now be reported.
    probe.enter_write(TID, PID, 7, 0, 300).expect("stored");
    let rec = probe.exit(TID, PID, 2, 310, b"hi").expect("judged").expect("emitted");
    assert_eq!(decode(&rec).variant, SnifferEventVariant::OutgoingData(b"hi".to_vec()));
}

#[test]
fn untracked_fd_writes_are_silent() {
    let mut probe = tagged_probe();
    // Descriptor 1 was never registered by connect or accept.
    probe.enter_write(TID, PID, 1, 0, 300).expect("stored");
    let out = probe.exit(TID, PID, 5, 310, b"hello").expect("judged");
    assert!(out.is_none());
}

#[test]
fn untracked_process_is_ignored_entirely() {
    let mut probe = ProbeState::new();
    assert_eq!(probe.enter_write(TID, PID, 7, 0, 300), Err(0));
}

#[test]
fn failed_connect_emits_error() {
    let mut probe = tagged_probe();
    probe.enter_connect(TID, PID, 7, 0, 8, 200).expect("stored");
    let rec = probe.exit(TID, PID, -111, 210, &SOCKADDR).expect("judged").expect("emitted");
    let ev = decode(&rec);
    assert!(matches!(ev.variant, SnifferEventVariant::Error(_, -111)));
    assert!(!probe.check_connection(socket_id(7, PID)));
}

#[test]
fn eagain_is_no_event() {
    let mut probe = tagged_probe();
    probe.enter_connect(TID, PID, 7, 0, 8, 200).expect("stored");
    assert_eq!(probe.exit(TID, PID, -11, 210, &SOCKADDR), Ok(None));
}

#[test]
fn unsupported_family_is_dropped_silently() {
    let mut probe = tagged_probe();
    probe.enter_connect(TID, PID, 7, 0, 8, 200).expect("stored");
    let unix_addr = [1u8, 0, 0, 0, 0, 0, 0, 0];
    assert_eq!(probe.exit(TID, PID, 0, 210, &unix_addr), Err(0));
    assert!(!probe.check_connection(socket_id(7, PID)));
}

#[test]
fn accept_registers_the_returned_descriptor() {
    let mut probe = tagged_probe();
    probe.enter_accept4(TID, PID, 3, 0, 8, 200).expect("stored");
    let rec = probe.exit(TID, PID, 9, 210, &SOCKADDR).expect("judged").expect("emitted");
    let ev = decode(&rec);
    assert!(matches!(ev.variant, SnifferEventVariant::IncomingConnection(_)));
    assert_eq!(ev.fd, 9);
    assert!(probe.check_connection(socket_id(9, PID)));
}

#[test]
fn getrandom_of_32_bytes_is_reported() {
    let mut probe = tagged_probe();
    let sample = [0x5au8; 32];
    probe.enter_getrandom(TID, PID, 0, 32, 200).expect("stored");
    let rec = probe.exit(TID, PID, 32, 210, &sample).expect("judged").expect("emitted");
    assert_eq!(decode(&rec).variant, SnifferEventVariant::Random(sample.to_vec()));
}

#[test]
fn getrandom_of_other_sizes_is_not_instrumented() {
    let mut probe = tagged_probe();
    probe.enter_getrandom(TID, PID, 0, 16, 200).expect("ignored");
    // Nothing was stored for the thread, so the exit finds no context.
    assert_eq!(probe.exit(TID, PID, 16, 210, &[0u8; 16]), Err(-1));
}

#[test]
fn socket_ids_do_not_collide() {
    assert_ne!(socket_id(1, 2), socket_id(2, 1));
    assert_eq!(socket_id(7, PID) >> 32, 7);
    assert_eq!(socket_id(7, PID) & 0xffffffff, PID as u64);
}
