//! The ring-buffer consumer's position arithmetic: fill accounting, the
//! fatal states, busy and discarded records, and the 8-byte framing over
//! emitted records.

use mina_recorder::probe::{EmittedRecord, ProbeState};
use mina_recorder::ring::{HeaderAction, ReadStatus, RingBuffer};

#[test]
fn producer_position_judgement() {
    let mut rb = RingBuffer::new(0x100);
    assert!(matches!(rb.on_producer_pos(0), ReadStatus::Empty));
    assert!(matches!(rb.on_producer_pos(100), ReadStatus::Available { percent: 50 }));
    assert!(matches!(rb.on_producer_pos(3), ReadStatus::Available { percent: 1 }));
}

#[test]
fn producer_behind_consumer_is_fatal() {
    let mut rb = RingBuffer::new(0x100);
    let action = rb.on_header(0x28); // advance over a 40-byte record
    assert!(matches!(action, HeaderAction::Deliver { .. }));
    assert!(matches!(rb.on_producer_pos(0), ReadStatus::Corrupt));
}

#[test]
fn full_buffer_is_fatal() {
    let mut rb = RingBuffer::new(0x100);
    // 200 unread bytes of a 256-byte ring: 100 percent quanta.
    assert!(matches!(rb.on_producer_pos(200), ReadStatus::Overflow));
    assert!(matches!(rb.on_producer_pos(199), ReadStatus::Available { percent: 99 }));
}

#[test]
fn busy_header_waits() {
    let mut rb = RingBuffer::new(0x100);
    assert!(matches!(rb.on_header(0x80000028), HeaderAction::Busy));
    assert_eq!(rb.consumer_pos(), 0);
}

#[test]
fn discarded_record_is_skipped_but_advanced_over() {
    let mut rb = RingBuffer::new(0x100);
    assert!(matches!(rb.on_header(0x40000021), HeaderAction::Skip { len: 0x21 }));
    // 8 header bytes plus 0x21 padded to 0x28.
    assert_eq!(rb.consumer_pos(), 8 + 0x28);
}

#[test]
fn delivered_record_stands_after_its_header() {
    let mut rb = RingBuffer::new(0x100);
    let action = rb.on_header(0x25);
    assert!(matches!(action, HeaderAction::Deliver { offset: 8, len: 0x25 }));
    assert_eq!(rb.consumer_pos(), 8 + 0x28);
    // The next record's offset wraps at the capacity.
    let action = rb.on_header(0x10);
    assert!(matches!(action, HeaderAction::Deliver { offset: 0x38, len: 0x10 }));
}

#[test]
fn offsets_wrap_at_the_mask() {
    let mut rb = RingBuffer::new(0x100);
    let mut last_offset = 0;
    for _ in 0..11 {
        if let HeaderAction::Deliver { offset, len: _ } = rb.on_header(0x18) {
            last_offset = offset;
        } else {
            panic!("expected a record");
        }
    }
    // Ten records of 32 bytes each passed; the eleventh starts at
    // (10 * 32) masked by 0xff, past one wrap.
    assert_eq!(last_offset, (10 * 32) % 0x100 + 8);
    assert_eq!(rb.consumer_pos(), 11 * 32);
}

#[test]
fn emitted_record_length_is_header_plus_size() {
    let mut probe = ProbeState::new();
    let envp = vec![b"BPF_ALIAS=node".to_vec()];
    let rec: EmittedRecord = probe.execve(77, 5, &envp).expect("alias found");
    let bytes = rec.to_bytes();
    // size is 4 ("node"), the slice is 32 + 4 bytes long.
    assert_eq!(bytes.len(), 32 + 4);
    // The consumer advances over it by 8 header bytes plus the record
    // padded to the next 8-byte boundary.
    let mut rb = RingBuffer::new(0x100);
    rb.on_header(bytes.len() as u64);
    assert_eq!(rb.consumer_pos(), 8 + 40);
}
