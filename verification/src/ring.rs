//! The single-consumer side of the shared ring buffer: position arithmetic
//! over the producer and consumer counters and the per-record headers. The
//! memory mapping and the atomic loads live with the caller; this state
//! machine decides, from each loaded value, how far to advance and which
//! byte range holds the next record.
//!
//! A record starts at an 8-byte boundary with an 8-byte header whose low 32
//! bits carry the record length (bits 0 to 29), a discard flag (bit 30) and
//! a busy flag (bit 31); the payload follows, padded to the next 8-byte
//! boundary. The data area is mapped twice back to back, so a record is
//! always linearly addressable at its masked offset.

use vstd::prelude::*;
use crate::sniffer_event::{encodable, spec_encode, wire_size, EventModel};

verus! {

/// The busy flag of a record header: the producer is still writing.
pub const BUSY_BIT: u64 = 0x80000000;

/// The discard flag of a record header: the producer abandoned the record.
pub const DISCARD_BIT: u64 = 0x40000000;

/// How much payload one drain pass may deliver before positions are
/// reported back, to keep latency bounded.
pub const TOTAL_READ_THRESHOLD: usize = 0x100000;

/// A length rounded up to the next 8-byte boundary.
pub open spec fn align8(n: int) -> int {
    ((n + 7) / 8) * 8
}

/// The record length a header word carries: its low 32 bits without the
/// discard flag (the busy flag is examined before the length is used).
pub open spec fn header_length(h: u64) -> u64 {
    h & 0xbfffffff
}

/// Whether the producer is still writing the record.
pub open spec fn header_busy(h: u64) -> bool {
    h & BUSY_BIT != 0
}

/// Whether the producer abandoned the record.
pub open spec fn header_discard(h: u64) -> bool {
    h & DISCARD_BIT != 0
}

/// The consumer's position state, as the contracts speak of it.
pub struct RingModel {
    pub mask: u64,
    pub consumer_pos: u64,
    pub last_reported_percent: u64,
}

/// A well-formed consumer: the capacity is a power of two and holds at
/// least one percent quantum.
pub open spec fn ring_wf(m: RingModel) -> bool {
    &&& exists|k: nat| #[trigger] pow2(k) == m.mask + 1
    &&& m.mask + 1 >= 0x80
    &&& m.mask + 1 <= 0x8000000000000000
}

/// Two to the `k`th power.
pub open spec fn pow2(k: nat) -> int
    decreases k,
{
    if k == 0 {
        1
    } else {
        2 * pow2((k - 1) as nat)
    }
}

/// What the producer position says: nothing new, data with the buffer's
/// fill percentage, or one of the two fatal states — a producer behind the
/// consumer (corrupted positions) and a buffer filled to the brim, which
/// this design treats as unrecoverable rather than risk dropping or
/// reordering records.
pub enum ReadStatus {
    Corrupt,
    Empty,
    Available { percent: u64 },
    Overflow,
}

/// What a record header says: wait, or advance — skipping a discarded
/// record, or delivering `len` bytes at `offset` in the doubled mapping.
pub enum HeaderAction {
    Busy,
    Skip { len: u64 },
    Deliver { offset: u64, len: u64 },
}

/// The consumer's position state over a mapped ring.
pub struct RingBuffer {
    mask: u64,
    consumer_pos: u64,
    last_reported_percent: u64,
}

impl View for RingBuffer {
    type V = RingModel;

    closed spec fn view(&self) -> RingModel {
        RingModel {
            mask: self.mask,
            consumer_pos: self.consumer_pos,
            last_reported_percent: self.last_reported_percent,
        }
    }
}

impl RingBuffer {
    /// A consumer at position zero over a ring of `max_length` bytes.
    pub fn new(max_length: u64) -> (r: RingBuffer)
        requires
            exists|k: nat| #[trigger] pow2(k) == max_length,
            0x80 <= max_length <= 0x8000000000000000,
        ensures
            r@ == (RingModel { mask: (max_length - 1) as u64, consumer_pos: 0, last_reported_percent: 0 }),
            ring_wf(r@),
    {
        RingBuffer { mask: max_length - 1, consumer_pos: 0, last_reported_percent: 0 }
    }

    /// The absolute position of the next unread byte.
    pub fn consumer_pos(&self) -> (r: u64)
        ensures
            r == self@.consumer_pos,
    {
        self.consumer_pos
    }

    /// Judge a loaded producer position against our own. Fill percentage is
    /// reported in whole percent of the capacity; a full buffer is fatal,
    /// as is a producer that stands behind us.
    pub fn on_producer_pos(&mut self, producer_pos: u64) -> (r: ReadStatus)
        requires
            ring_wf(old(self)@),
        ensures
            ring_wf(final(self)@),
            final(self)@.mask == old(self)@.mask,
            final(self)@.consumer_pos == old(self)@.consumer_pos,
            ({
                let c = old(self)@.consumer_pos;
                let quant = (old(self)@.mask + 1) / 100;
                if producer_pos < c {
                    r is Corrupt && final(self)@ == old(self)@
                } else if producer_pos == c {
                    r is Empty && final(self)@ == old(self)@
                } else {
                    let percent = (producer_pos - c) / quant;
                    if percent >= 100 {
                        r is Overflow && final(self)@ == old(self)@
                    } else {
                        &&& r == (ReadStatus::Available { percent: percent as u64 })
                        &&& final(self)@.last_reported_percent == percent
                    }
                }
            }),
    {
        if producer_pos < self.consumer_pos {
            return ReadStatus::Corrupt;
        }
        if producer_pos == self.consumer_pos {
            return ReadStatus::Empty;
        }
        let distance = producer_pos - self.consumer_pos;
        let quant = (self.mask + 1) / 100;
        let percent = distance / quant;
        if percent >= 100 {
            return ReadStatus::Overflow;
        }
        self.last_reported_percent = percent;
        ReadStatus::Available { percent }
    }

    /// Judge a loaded record header. Unless the record is still being
    /// written, the position advances over the 8 header bytes and the
    /// padded record length, and the record's bytes stand at the returned
    /// offset of the doubled mapping.
    pub fn on_header(&mut self, header: u64) -> (r: HeaderAction)
        requires
            ring_wf(old(self)@),
            old(self)@.consumer_pos + 8 + align8(header_length(header) as int) <= u64::MAX,
        ensures
            ring_wf(final(self)@),
            final(self)@.mask == old(self)@.mask,
            final(self)@.last_reported_percent == old(self)@.last_reported_percent,
            header_busy(header) ==> r is Busy && final(self)@ == old(self)@,
            !header_busy(header) ==> ({
                let len = header_length(header);
                &&& final(self)@.consumer_pos == old(self)@.consumer_pos + 8 + align8(len as int)
                &&& if header_discard(header) {
                    r == (HeaderAction::Skip { len })
                } else {
                    r == (HeaderAction::Deliver {
                        offset: ((old(self)@.consumer_pos & old(self)@.mask) + 8) as u64,
                        len,
                    })
                }
            }),
    {
        if header & BUSY_BIT != 0 {
            return HeaderAction::Busy;
        }
        let len = header & 0xbfffffff;
        proof {
            let p = self.consumer_pos;
            let m = self.mask;
            assert(header & 0xbfffffff <= 0xbfffffff) by (bit_vector);
            assert(p & m <= m) by (bit_vector);
        }
        let offset = (self.consumer_pos & self.mask) + 8;
        self.consumer_pos = self.consumer_pos + 8 + (len + 7) / 8 * 8;
        if header & DISCARD_BIT != 0 {
            HeaderAction::Skip { len }
        } else {
            HeaderAction::Deliver { offset, len }
        }
    }
}

/// The ring slice of an emitted event with a nonnegative size is exactly
/// `32 + size` bytes, and the consumer steps over it by the 8 header bytes
/// plus that length rounded up to the next 8-byte boundary.
pub proof fn lemma_record_framing(m: EventModel)
    requires
        encodable(m),
        wire_size(m.variant) >= 0,
    ensures
        spec_encode(m).len() == 32 + wire_size(m.variant),
        8 + align8(spec_encode(m).len() as int) == 8 + ((32 + wire_size(m.variant) + 7) / 8) * 8,
{
    crate::event::lemma_event_bytes_len(crate::sniffer_event::wire_header(m));
}

/// The same holds on the probe's side: a record it reserves for a
/// successful syscall carries exactly `32 + size` ring bytes.
pub proof fn lemma_emitted_record_length(e: crate::event::Event, mem: Seq<u8>)
    requires
        e.size >= 0,
        crate::probe::spec_emit(e, mem) matches Ok(Some(_)),
    ensures
        ({
            let rec = crate::probe::spec_emit(e, mem)->Ok_0->Some_0;
            crate::event::event_bytes(e).len() + rec.payload.len() == 32 + e.size
        }),
{
    crate::event::lemma_event_bytes_len(e);
}

} // verus!
