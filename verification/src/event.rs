//! The fixed 32-byte event record exchanged between the kernel-side probe and
//! the user-space consumer, with its scalar field codecs.
//!
//! All scalar fields are stored little-endian (the byte order of every machine
//! the probe runs on); only the port inside a socket address payload is
//! big-endian, as the kernel keeps it.

use vstd::prelude::*;

verus! {

// --- scalar field codecs ---

/// Value of two little-endian bytes.
pub open spec fn le16(s: Seq<u8>) -> u16
    recommends
        s.len() == 2,
{
    (s[0] + s[1] * 0x100) as u16
}

/// Value of two big-endian bytes (network order, used for ports).
pub open spec fn be16(s: Seq<u8>) -> u16
    recommends
        s.len() == 2,
{
    (s[0] * 0x100 + s[1]) as u16
}

/// Value of four little-endian bytes.
pub open spec fn le32(s: Seq<u8>) -> u32
    recommends
        s.len() == 4,
{
    (s[0] + s[1] * 0x100 + s[2] * 0x10000 + s[3] * 0x1000000) as u32
}

/// Value of eight little-endian bytes.
pub open spec fn le64(s: Seq<u8>) -> u64
    recommends
        s.len() == 8,
{
    (s[0] + s[1] * 0x100 + s[2] * 0x10000 + s[3] * 0x1000000 + s[4] * 0x100000000
        + s[5] * 0x10000000000 + s[6] * 0x1000000000000 + s[7] * 0x100000000000000) as u64
}

/// The two little-endian bytes of a 16-bit value.
pub open spec fn le16_bytes(x: u16) -> Seq<u8> {
    seq![(x % 0x100) as u8, (x / 0x100) as u8]
}

/// The two big-endian bytes of a 16-bit value.
pub open spec fn be16_bytes(x: u16) -> Seq<u8> {
    seq![(x / 0x100) as u8, (x % 0x100) as u8]
}

/// The four little-endian bytes of a 32-bit value.
pub open spec fn le32_bytes(x: u32) -> Seq<u8> {
    seq![
        (x % 0x100) as u8,
        ((x / 0x100) % 0x100) as u8,
        ((x / 0x10000) % 0x100) as u8,
        ((x / 0x1000000) % 0x100) as u8,
    ]
}

/// The eight little-endian bytes of a 64-bit value.
pub open spec fn le64_bytes(x: u64) -> Seq<u8> {
    seq![
        (x % 0x100) as u8,
        ((x / 0x100) % 0x100) as u8,
        ((x / 0x10000) % 0x100) as u8,
        ((x / 0x1000000) % 0x100) as u8,
        ((x / 0x100000000) % 0x100) as u8,
        ((x / 0x10000000000) % 0x100) as u8,
        ((x / 0x1000000000000) % 0x100) as u8,
        ((x / 0x100000000000000) % 0x100) as u8,
    ]
}

/// Value of four big-endian bytes (an IPv4 address as the wire carries it).
pub open spec fn be32(s: Seq<u8>) -> u32
    recommends
        s.len() == 4,
{
    (s[0] * 0x1000000 + s[1] * 0x10000 + s[2] * 0x100 + s[3]) as u32
}

/// Value of sixteen big-endian bytes (an IPv6 address as the wire carries it).
pub open spec fn be128(s: Seq<u8>) -> u128
    recommends
        s.len() == 16,
{
    (s[0] * 0x1000000000000000000000000000000 + s[1] * 0x10000000000000000000000000000
        + s[2] * 0x100000000000000000000000000 + s[3] * 0x1000000000000000000000000
        + s[4] * 0x10000000000000000000000 + s[5] * 0x100000000000000000000
        + s[6] * 0x1000000000000000000 + s[7] * 0x10000000000000000
        + s[8] * 0x100000000000000 + s[9] * 0x1000000000000 + s[10] * 0x10000000000
        + s[11] * 0x100000000 + s[12] * 0x1000000 + s[13] * 0x10000 + s[14] * 0x100
        + s[15]) as u128
}

/// The four big-endian bytes of a 32-bit value.
pub open spec fn be32_bytes(x: u32) -> Seq<u8> {
    seq![
        ((x / 0x1000000) % 0x100) as u8,
        ((x / 0x10000) % 0x100) as u8,
        ((x / 0x100) % 0x100) as u8,
        (x % 0x100) as u8,
    ]
}

/// The sixteen big-endian bytes of a 128-bit value.
pub open spec fn be128_bytes(x: u128) -> Seq<u8> {
    seq![
        ((x / 0x1000000000000000000000000000000) % 0x100) as u8,
        ((x / 0x10000000000000000000000000000) % 0x100) as u8,
        ((x / 0x100000000000000000000000000) % 0x100) as u8,
        ((x / 0x1000000000000000000000000) % 0x100) as u8,
        ((x / 0x10000000000000000000000) % 0x100) as u8,
        ((x / 0x100000000000000000000) % 0x100) as u8,
        ((x / 0x1000000000000000000) % 0x100) as u8,
        ((x / 0x10000000000000000) % 0x100) as u8,
        ((x / 0x100000000000000) % 0x100) as u8,
        ((x / 0x1000000000000) % 0x100) as u8,
        ((x / 0x10000000000) % 0x100) as u8,
        ((x / 0x100000000) % 0x100) as u8,
        ((x / 0x1000000) % 0x100) as u8,
        ((x / 0x10000) % 0x100) as u8,
        ((x / 0x100) % 0x100) as u8,
        (x % 0x100) as u8,
    ]
}

pub proof fn lemma_be32_roundtrip(x: u32)
    ensures
        be32(be32_bytes(x)) == x,
{
    assert(((x / 0x1000000) % 0x100) * 0x1000000 + ((x / 0x10000) % 0x100) * 0x10000 + ((x
        / 0x100) % 0x100) * 0x100 + (x % 0x100) == x) by (bit_vector);
}

pub proof fn lemma_be128_roundtrip(x: u128)
    ensures
        be128(be128_bytes(x)) == x,
{
    assert(((x / 0x1000000000000000000000000000000) % 0x100) * 0x1000000000000000000000000000000
        + ((x / 0x10000000000000000000000000000) % 0x100) * 0x10000000000000000000000000000 + ((x
        / 0x100000000000000000000000000) % 0x100) * 0x100000000000000000000000000 + ((x
        / 0x1000000000000000000000000) % 0x100) * 0x1000000000000000000000000 + ((x
        / 0x10000000000000000000000) % 0x100) * 0x10000000000000000000000 + ((x
        / 0x100000000000000000000) % 0x100) * 0x100000000000000000000 + ((x
        / 0x1000000000000000000) % 0x100) * 0x1000000000000000000 + ((x / 0x10000000000000000)
        % 0x100) * 0x10000000000000000 + ((x / 0x100000000000000) % 0x100) * 0x100000000000000 + (
    (x / 0x1000000000000) % 0x100) * 0x1000000000000 + ((x / 0x10000000000) % 0x100) * 0x10000000000
        + ((x / 0x100000000) % 0x100) * 0x100000000 + ((x / 0x1000000) % 0x100) * 0x1000000 + ((x
        / 0x10000) % 0x100) * 0x10000 + ((x / 0x100) % 0x100) * 0x100 + (x % 0x100) == x)
        by (bit_vector);
}

/// Read four big-endian bytes at `off`.
pub fn read_be32(b: &[u8], off: usize) -> (r: u32)
    requires
        off + 4 <= b@.len(),
    ensures
        r == be32(b@.subrange(off as int, off as int + 4)),
{
    let r = (b[off] as u32) * 0x1000000 + (b[off + 1] as u32) * 0x10000 + (b[off + 2] as u32)
        * 0x100 + b[off + 3] as u32;
    proof {
        let s = b@.subrange(off as int, off as int + 4);
        assert(forall|i: int| 0 <= i < 4 ==> s[i] == b@[off as int + i]);
    }
    r
}

/// Read sixteen big-endian bytes at `off`.
pub fn read_be128(b: &[u8], off: usize) -> (r: u128)
    requires
        off + 16 <= b@.len(),
    ensures
        r == be128(b@.subrange(off as int, off as int + 16)),
{
    let r = (b[off] as u128) * 0x1000000000000000000000000000000 + (b[off + 1] as u128)
        * 0x10000000000000000000000000000 + (b[off + 2] as u128) * 0x100000000000000000000000000 + (
    b[off + 3] as u128) * 0x1000000000000000000000000 + (b[off + 4] as u128)
        * 0x10000000000000000000000 + (b[off + 5] as u128) * 0x100000000000000000000 + (b[off
        + 6] as u128) * 0x1000000000000000000 + (b[off + 7] as u128) * 0x10000000000000000 + (b[off
        + 8] as u128) * 0x100000000000000 + (b[off + 9] as u128) * 0x1000000000000 + (b[off
        + 10] as u128) * 0x10000000000 + (b[off + 11] as u128) * 0x100000000 + (b[off
        + 12] as u128) * 0x1000000 + (b[off + 13] as u128) * 0x10000 + (b[off + 14] as u128) * 0x100
        + b[off + 15] as u128;
    proof {
        let s = b@.subrange(off as int, off as int + 16);
        assert(forall|i: int| 0 <= i < 16 ==> s[i] == b@[off as int + i]);
    }
    r
}

/// Append the big-endian bytes of a 32-bit value.
pub fn push_be32(out: &mut Vec<u8>, x: u32)
    ensures
        final(out)@ == old(out)@ + be32_bytes(x),
{
    out.push(((x / 0x1000000) % 0x100) as u8);
    out.push(((x / 0x10000) % 0x100) as u8);
    out.push(((x / 0x100) % 0x100) as u8);
    out.push((x % 0x100) as u8);
    proof {
        assert(final(out)@ =~= old(out)@ + be32_bytes(x));
    }
}

/// Append the big-endian bytes of a 128-bit value.
pub fn push_be128(out: &mut Vec<u8>, x: u128)
    ensures
        final(out)@ == old(out)@ + be128_bytes(x),
{
    out.push(((x / 0x1000000000000000000000000000000) % 0x100) as u8);
    out.push(((x / 0x10000000000000000000000000000) % 0x100) as u8);
    out.push(((x / 0x100000000000000000000000000) % 0x100) as u8);
    out.push(((x / 0x1000000000000000000000000) % 0x100) as u8);
    out.push(((x / 0x10000000000000000000000) % 0x100) as u8);
    out.push(((x / 0x100000000000000000000) % 0x100) as u8);
    out.push(((x / 0x1000000000000000000) % 0x100) as u8);
    out.push(((x / 0x10000000000000000) % 0x100) as u8);
    out.push(((x / 0x100000000000000) % 0x100) as u8);
    out.push(((x / 0x1000000000000) % 0x100) as u8);
    out.push(((x / 0x10000000000) % 0x100) as u8);
    out.push(((x / 0x100000000) % 0x100) as u8);
    out.push(((x / 0x1000000) % 0x100) as u8);
    out.push(((x / 0x10000) % 0x100) as u8);
    out.push(((x / 0x100) % 0x100) as u8);
    out.push((x % 0x100) as u8);
    proof {
        assert(final(out)@ =~= old(out)@ + be128_bytes(x));
    }
}

pub proof fn lemma_le16_roundtrip(x: u16)
    ensures
        le16(le16_bytes(x)) == x,
{
    assert((x % 0x100) + (x / 0x100) * 0x100 == x) by (bit_vector);
}

pub proof fn lemma_be16_roundtrip(x: u16)
    ensures
        be16(be16_bytes(x)) == x,
{
    assert((x / 0x100) * 0x100 + (x % 0x100) == x) by (bit_vector);
}

pub proof fn lemma_le32_roundtrip(x: u32)
    ensures
        le32(le32_bytes(x)) == x,
{
    assert((x % 0x100) + ((x / 0x100) % 0x100) * 0x100 + ((x / 0x10000) % 0x100) * 0x10000
        + ((x / 0x1000000) % 0x100) * 0x1000000 == x) by (bit_vector);
}

pub proof fn lemma_le64_roundtrip(x: u64)
    ensures
        le64(le64_bytes(x)) == x,
{
    assert((x % 0x100) + ((x / 0x100) % 0x100) * 0x100 + ((x / 0x10000) % 0x100) * 0x10000
        + ((x / 0x1000000) % 0x100) * 0x1000000 + ((x / 0x100000000) % 0x100) * 0x100000000
        + ((x / 0x10000000000) % 0x100) * 0x10000000000
        + ((x / 0x1000000000000) % 0x100) * 0x1000000000000
        + ((x / 0x100000000000000) % 0x100) * 0x100000000000000 == x) by (bit_vector);
}

/// Read two little-endian bytes at `off`.
pub fn read_le16(b: &[u8], off: usize) -> (r: u16)
    requires
        off + 2 <= b@.len(),
    ensures
        r == le16(b@.subrange(off as int, off as int + 2)),
{
    let r = b[off] as u16 + (b[off + 1] as u16) * 0x100;
    proof {
        let s = b@.subrange(off as int, off as int + 2);
        assert(s[0] == b@[off as int] && s[1] == b@[off as int + 1]);
    }
    r
}

/// Read two big-endian bytes at `off`.
pub fn read_be16(b: &[u8], off: usize) -> (r: u16)
    requires
        off + 2 <= b@.len(),
    ensures
        r == be16(b@.subrange(off as int, off as int + 2)),
{
    let r = (b[off] as u16) * 0x100 + b[off + 1] as u16;
    proof {
        let s = b@.subrange(off as int, off as int + 2);
        assert(s[0] == b@[off as int] && s[1] == b@[off as int + 1]);
    }
    r
}

/// Read four little-endian bytes at `off`.
pub fn read_le32(b: &[u8], off: usize) -> (r: u32)
    requires
        off + 4 <= b@.len(),
    ensures
        r == le32(b@.subrange(off as int, off as int + 4)),
{
    let r = b[off] as u32 + (b[off + 1] as u32) * 0x100 + (b[off + 2] as u32) * 0x10000
        + (b[off + 3] as u32) * 0x1000000;
    proof {
        let s = b@.subrange(off as int, off as int + 4);
        assert(s[0] == b@[off as int] && s[1] == b@[off as int + 1] && s[2] == b@[off as int + 2]
            && s[3] == b@[off as int + 3]);
    }
    r
}

/// Read eight little-endian bytes at `off`.
pub fn read_le64(b: &[u8], off: usize) -> (r: u64)
    requires
        off + 8 <= b@.len(),
    ensures
        r == le64(b@.subrange(off as int, off as int + 8)),
{
    let r = b[off] as u64 + (b[off + 1] as u64) * 0x100 + (b[off + 2] as u64) * 0x10000
        + (b[off + 3] as u64) * 0x1000000 + (b[off + 4] as u64) * 0x100000000
        + (b[off + 5] as u64) * 0x10000000000 + (b[off + 6] as u64) * 0x1000000000000
        + (b[off + 7] as u64) * 0x100000000000000;
    proof {
        let s = b@.subrange(off as int, off as int + 8);
        assert(forall|i: int| 0 <= i < 8 ==> s[i] == b@[off as int + i]);
    }
    r
}

/// Append the little-endian bytes of a 32-bit value.
pub fn push_le32(out: &mut Vec<u8>, x: u32)
    ensures
        final(out)@ == old(out)@ + le32_bytes(x),
{
    out.push((x % 0x100) as u8);
    out.push(((x / 0x100) % 0x100) as u8);
    out.push(((x / 0x10000) % 0x100) as u8);
    out.push(((x / 0x1000000) % 0x100) as u8);
    proof {
        assert(final(out)@ =~= old(out)@ + le32_bytes(x));
    }
}

/// Append the little-endian bytes of a 64-bit value.
pub fn push_le64(out: &mut Vec<u8>, x: u64)
    ensures
        final(out)@ == old(out)@ + le64_bytes(x),
{
    out.push((x % 0x100) as u8);
    out.push(((x / 0x100) % 0x100) as u8);
    out.push(((x / 0x10000) % 0x100) as u8);
    out.push(((x / 0x1000000) % 0x100) as u8);
    out.push(((x / 0x100000000) % 0x100) as u8);
    out.push(((x / 0x10000000000) % 0x100) as u8);
    out.push(((x / 0x1000000000000) % 0x100) as u8);
    out.push(((x / 0x100000000000000) % 0x100) as u8);
    proof {
        assert(final(out)@ =~= old(out)@ + le64_bytes(x));
    }
}

/// Append the little-endian bytes of a 16-bit value.
pub fn push_le16(out: &mut Vec<u8>, x: u16)
    ensures
        final(out)@ == old(out)@ + le16_bytes(x),
{
    out.push((x % 0x100) as u8);
    out.push((x / 0x100) as u8);
    proof {
        assert(final(out)@ =~= old(out)@ + le16_bytes(x));
    }
}

/// Append the big-endian bytes of a 16-bit value.
pub fn push_be16(out: &mut Vec<u8>, x: u16)
    ensures
        final(out)@ == old(out)@ + be16_bytes(x),
{
    out.push((x / 0x100) as u8);
    out.push((x % 0x100) as u8);
    proof {
        assert(final(out)@ =~= old(out)@ + be16_bytes(x));
    }
}

// --- the signed size field, stored as a 32-bit word ---

/// The size field read back from its stored word: values with the top bit set
/// are errno-style failure codes.
pub open spec fn word_to_i32(w: u32) -> i32 {
    if w < 0x80000000 {
        w as i32
    } else {
        (w - 0x100000000) as i32
    }
}

/// The stored word of a signed size field.
pub open spec fn i32_to_word(x: i32) -> u32 {
    if x >= 0 {
        x as u32
    } else {
        (x + 0x100000000) as u32
    }
}

pub proof fn lemma_size_word_roundtrip(x: i32)
    ensures
        word_to_i32(i32_to_word(x)) == x,
{
}

/// Stored word of a signed size field.
pub fn i32_word(x: i32) -> (r: u32)
    ensures
        r == i32_to_word(x),
{
    if x >= 0 {
        x as u32
    } else {
        ((x as i64) + 0x100000000) as u32
    }
}

/// Signed size field of its stored word.
pub fn word_i32(w: u32) -> (r: i32)
    ensures
        r == word_to_i32(w),
{
    if w < 0x80000000 {
        w as i32
    } else {
        ((w as i64) - 0x100000000) as i32
    }
}

// --- the record tag ---

/// What kind of syscall observation a record carries.
#[derive(Clone, Copy, Debug, PartialEq, Eq, Structural)]
pub enum DataTag {
    Debug,
    Close,
    Connect,
    Bind,
    Listen,
    Accept,
    Write,
    Read,
    Alias,
    Random,
}

/// The wire code of a tag.
pub open spec fn tag_code(t: DataTag) -> u32 {
    match t {
        DataTag::Debug => 0,
        DataTag::Close => 1,
        DataTag::Connect => 2,
        DataTag::Bind => 3,
        DataTag::Listen => 4,
        DataTag::Accept => 5,
        DataTag::Write => 6,
        DataTag::Read => 7,
        DataTag::Alias => 8,
        DataTag::Random => 9,
    }
}

/// The tag of a wire code, if the code is known.
pub open spec fn spec_tag_of(c: u32) -> Option<DataTag> {
    if c == 0 {
        Some(DataTag::Debug)
    } else if c == 1 {
        Some(DataTag::Close)
    } else if c == 2 {
        Some(DataTag::Connect)
    } else if c == 3 {
        Some(DataTag::Bind)
    } else if c == 4 {
        Some(DataTag::Listen)
    } else if c == 5 {
        Some(DataTag::Accept)
    } else if c == 6 {
        Some(DataTag::Write)
    } else if c == 7 {
        Some(DataTag::Read)
    } else if c == 8 {
        Some(DataTag::Alias)
    } else if c == 9 {
        Some(DataTag::Random)
    } else {
        None
    }
}

pub proof fn lemma_tag_code_roundtrip(t: DataTag)
    ensures
        spec_tag_of(tag_code(t)) == Some(t),
{
}

impl DataTag {
    /// The tag of a wire code, or `None` for an unknown code.
    pub fn from_u32(c: u32) -> (r: Option<DataTag>)
        ensures
            r == spec_tag_of(c),
    {
        match c {
            0 => Some(DataTag::Debug),
            1 => Some(DataTag::Close),
            2 => Some(DataTag::Connect),
            3 => Some(DataTag::Bind),
            4 => Some(DataTag::Listen),
            5 => Some(DataTag::Accept),
            6 => Some(DataTag::Write),
            7 => Some(DataTag::Read),
            8 => Some(DataTag::Alias),
            9 => Some(DataTag::Random),
            _ => None,
        }
    }

    /// The wire code of this tag.
    pub fn to_u32(self) -> (r: u32)
        ensures
            r == tag_code(self),
    {
        match self {
            DataTag::Debug => 0,
            DataTag::Close => 1,
            DataTag::Connect => 2,
            DataTag::Bind => 3,
            DataTag::Listen => 4,
            DataTag::Accept => 5,
            DataTag::Write => 6,
            DataTag::Read => 7,
            DataTag::Alias => 8,
            DataTag::Random => 9,
        }
    }
}

// --- the event record header ---

/// The fixed 32-byte record header: who did what, when, and how large the
/// payload that follows is (a negative size is a failure code).
#[derive(Clone, Copy, Debug, PartialEq, Eq, Structural)]
pub struct Event {
    pub fd: u32,
    pub pid: u32,
    pub ts0: u64,
    pub ts1: u64,
    pub tag: DataTag,
    pub size: i32,
}

/// The 32 header bytes of an event.
pub open spec fn event_bytes(e: Event) -> Seq<u8> {
    le32_bytes(e.fd) + le32_bytes(e.pid) + le64_bytes(e.ts0) + le64_bytes(e.ts1) + le32_bytes(
        tag_code(e.tag),
    ) + le32_bytes(i32_to_word(e.size))
}

/// The event of 32 header bytes, or `None` when the tag code is unknown.
pub open spec fn spec_event_from_bytes(s: Seq<u8>) -> Option<Event>
    recommends
        s.len() == 32,
{
    match spec_tag_of(le32(s.subrange(24, 28))) {
        Some(tag) => Some(
            Event {
                fd: le32(s.subrange(0, 4)),
                pid: le32(s.subrange(4, 8)),
                ts0: le64(s.subrange(8, 16)),
                ts1: le64(s.subrange(16, 24)),
                tag,
                size: word_to_i32(le32(s.subrange(28, 32))),
            },
        ),
        None => None,
    }
}

pub proof fn lemma_event_bytes_len(e: Event)
    ensures
        event_bytes(e).len() == 32,
{
}

/// Encoding then decoding a header yields the header back.
pub proof fn lemma_event_header_roundtrip(e: Event)
    ensures
        spec_event_from_bytes(event_bytes(e)) == Some(e),
{
    let s = event_bytes(e);
    assert(s.subrange(0, 4) =~= le32_bytes(e.fd));
    assert(s.subrange(4, 8) =~= le32_bytes(e.pid));
    assert(s.subrange(8, 16) =~= le64_bytes(e.ts0));
    assert(s.subrange(16, 24) =~= le64_bytes(e.ts1));
    assert(s.subrange(24, 28) =~= le32_bytes(tag_code(e.tag)));
    assert(s.subrange(28, 32) =~= le32_bytes(i32_to_word(e.size)));
    lemma_le32_roundtrip(e.fd);
    lemma_le32_roundtrip(e.pid);
    lemma_le64_roundtrip(e.ts0);
    lemma_le64_roundtrip(e.ts1);
    lemma_le32_roundtrip(tag_code(e.tag));
    lemma_le32_roundtrip(i32_to_word(e.size));
    lemma_tag_code_roundtrip(e.tag);
    lemma_size_word_roundtrip(e.size);
}

impl Event {
    /// A fresh record for the given process and timestamps, not yet tagged.
    pub fn new(pid: u32, ts0: u64, ts1: u64) -> (r: Event)
        ensures
            r == (Event { fd: 0, pid, ts0, ts1, tag: DataTag::Debug, size: 0 }),
    {
        Event { fd: 0, pid, ts0, ts1, tag: DataTag::Debug, size: 0 }
    }

    /// The record with its tag and file descriptor filled in.
    pub fn set_tag_fd(self, tag: DataTag, fd: u32) -> (r: Event)
        ensures
            r == (Event { fd, tag, ..self }),
    {
        Event { fd, tag, ..self }
    }

    /// The record marked successful, carrying a payload of `size` bytes.
    pub fn set_ok(self, size: u64) -> (r: Event)
        requires
            size <= 0x7fffffff,
        ensures
            r == (Event { size: size as i32, ..self }),
    {
        Event { size: size as i32, ..self }
    }

    /// The record marked failed with an errno-style code.
    pub fn set_err(self, code: i64) -> (r: Event)
        requires
            -0x80000000 <= code <= 0x7fffffff,
        ensures
            r == (Event { size: code as i32, ..self }),
    {
        Event { size: code as i32, ..self }
    }

    /// Decode a 32-byte header whose tag code is known.
    pub fn from_bytes(b: &[u8]) -> (r: Event)
        requires
            b@.len() == 32,
            spec_event_from_bytes(b@) is Some,
        ensures
            Some(r) == spec_event_from_bytes(b@),
    {
        let tag = DataTag::from_u32(read_le32(b, 24)).unwrap();
        Event {
            fd: read_le32(b, 0),
            pid: read_le32(b, 4),
            ts0: read_le64(b, 8),
            ts1: read_le64(b, 16),
            tag,
            size: word_i32(read_le32(b, 28)),
        }
    }

    /// Encode the header into its 32 bytes.
    pub fn to_bytes(&self) -> (r: Vec<u8>)
        ensures
            r@ == event_bytes(*self),
            r@.len() == 32,
    {
        let mut out: Vec<u8> = Vec::new();
        push_le32(&mut out, self.fd);
        push_le32(&mut out, self.pid);
        push_le64(&mut out, self.ts0);
        push_le64(&mut out, self.ts1);
        push_le32(&mut out, self.tag.to_u32());
        push_le32(&mut out, i32_word(self.size));
        proof {
            assert(out@ =~= event_bytes(*self));
        }
        out
    }
}

} // verus!
