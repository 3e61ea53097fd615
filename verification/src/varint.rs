//! Unsigned base-128 varints, the length prefix of multistream-select
//! messages. Decoding is done by the `unsigned-varint` crate; this module
//! states exactly what that decoder returns.

use vstd::prelude::*;

verus! {

/// What the varint decoder says about a byte sequence: a value and how many
/// bytes it took, an input that ended mid-varint, or an input no completion
/// of which is a varint (over-long or non-minimal encoding).
pub enum VarintOutcome {
    Done { value: u64, consumed: int },
    Incomplete,
    Malformed,
}

/// One step of the decoder, at byte `i` with the bits gathered so far.
/// A byte's low seven bits join the value; its high bit says another byte
/// follows. A tenth continuation byte is over-long; a trailing zero byte is
/// non-minimal.
pub open spec fn varint_from(s: Seq<u8>, i: nat, acc: u64) -> VarintOutcome
    decreases s.len() - i,
{
    if i >= s.len() {
        VarintOutcome::Incomplete
    } else {
        let b = s[i as int];
        let k = (b & 0x7f) as u64;
        let acc2 = acc | (k << ((7 * i) as u64));
        if b & 0x80 == 0 {
            if b == 0 && i > 0 {
                VarintOutcome::Malformed
            } else {
                VarintOutcome::Done { value: acc2, consumed: i + 1 as int }
            }
        } else if i == 9 {
            VarintOutcome::Malformed
        } else {
            varint_from(s, i + 1, acc2)
        }
    }
}

/// What the decoder returns on `s`.
pub open spec fn varint_decode(s: Seq<u8>) -> VarintOutcome {
    varint_from(s, 0, 0)
}

/// A completed decode consumed between one byte and the whole input.
pub proof fn lemma_varint_from_consumed(s: Seq<u8>, i: nat, acc: u64)
    requires
        varint_from(s, i, acc) is Done,
    ensures
        i < varint_from(s, i, acc)->Done_consumed <= s.len(),
    decreases s.len() - i,
{
    if i < s.len() {
        let b = s[i as int];
        let k = (b & 0x7f) as u64;
        let acc2 = acc | (k << ((7 * i) as u64));
        if b & 0x80 == 0 {
        } else if i == 9 {
        } else {
            lemma_varint_from_consumed(s, i + 1, acc2);
        }
    }
}

/// A completed decode is decided by the bytes it consumed: appending input
/// does not change it.
pub proof fn lemma_varint_from_extend(s: Seq<u8>, e: Seq<u8>, i: nat, acc: u64)
    requires
        varint_from(s, i, acc) is Done,
    ensures
        varint_from(s + e, i, acc) == varint_from(s, i, acc),
    decreases s.len() - i,
{
    if i < s.len() {
        let b = s[i as int];
        assert((s + e)[i as int] == b);
        let k = (b & 0x7f) as u64;
        let acc2 = acc | (k << ((7 * i) as u64));
        if b & 0x80 == 0 {
        } else if i == 9 {
        } else {
            lemma_varint_from_extend(s, e, i + 1, acc2);
        }
    }
}

/// A completed decode is decided by the bytes it consumed: appending input
/// does not change it.
pub proof fn lemma_varint_decode_extend(s: Seq<u8>, e: Seq<u8>)
    requires
        varint_decode(s) is Done,
    ensures
        varint_decode(s + e) == varint_decode(s),
{
    lemma_varint_from_extend(s, e, 0, 0);
}

/// Relies on `unsigned_varint::decode::u64`: reads a base-128 varint of at
/// most ten bytes from the front of the input and returns its value together
/// with the rest of the input; any decoding error (input ended mid-varint,
/// over-long, or non-minimal encoding) becomes `None`.
#[verifier::external_body]
pub(crate) fn varint_u64(b: &[u8]) -> (r: Option<(u64, &[u8])>)
    ensures
        match varint_decode(b@) {
            VarintOutcome::Done { value, consumed } => {
                &&& r is Some
                &&& r->Some_0.0 == value
                &&& r->Some_0.1@ == b@.subrange(consumed, b@.len() as int)
            },
            _ => r is None,
        },
{
    unsigned_varint::decode::u64(b).ok()
}

} // verus!
