//! The low-level multistream-select parser: an accumulator of stream bytes
//! from which tokens are split off one at a time. A token is either one of
//! the two fixed newline-framed words of the simultaneous-connect handshake,
//! or a varint-length-prefixed message.

use vstd::prelude::*;
use vstd::slice::{slice_subrange, slice_to_vec};
use crate::varint::{
    varint_decode, varint_u64, VarintOutcome, lemma_varint_from_consumed,
    lemma_varint_decode_extend,
};

verus! {

/// Whether `p` is a prefix of `s`.
pub open spec fn starts_with(s: Seq<u8>, p: Seq<u8>) -> bool {
    s.len() >= p.len() && s.subrange(0, p.len() as int) == p
}

/// The eleven bytes of `"\ninitiator\n"`.
pub open spec fn initiator_lit() -> Seq<u8> {
    seq![10u8, 105u8, 110u8, 105u8, 116u8, 105u8, 97u8, 116u8, 111u8, 114u8, 10u8]
}

/// The eleven bytes of `"\nresponder\n"`.
pub open spec fn responder_lit() -> Seq<u8> {
    seq![10u8, 114u8, 101u8, 115u8, 112u8, 111u8, 110u8, 100u8, 101u8, 114u8, 10u8]
}

/// A parsed element of the byte stream. A `Message` carries the prefixed
/// bytes as they stand, newline terminator included.
pub enum Token {
    Initiator,
    Responder,
    Message(Seq<u8>),
}

/// One parsing step on the accumulated bytes: the token split off the front
/// and the bytes after it, or `None` when no complete token is there yet.
pub open spec fn step(acc: Seq<u8>) -> Option<(Token, Seq<u8>)> {
    if starts_with(acc, initiator_lit()) {
        Some((Token::Initiator, acc.skip(11)))
    } else if starts_with(acc, responder_lit()) {
        Some((Token::Responder, acc.skip(11)))
    } else {
        match varint_decode(acc) {
            VarintOutcome::Done { value, consumed } => if consumed + value <= acc.len() {
                Some(
                    (
                        Token::Message(acc.subrange(consumed, consumed + value)),
                        acc.skip(consumed + value),
                    ),
                )
            } else {
                None
            },
            _ => None,
        }
    }
}

/// A step always consumes at least one byte.
pub proof fn lemma_step_consumes(acc: Seq<u8>)
    requires
        step(acc) is Some,
    ensures
        step(acc)->Some_0.1.len() < acc.len(),
{
    if starts_with(acc, initiator_lit()) {
    } else if starts_with(acc, responder_lit()) {
    } else {
        match varint_decode(acc) {
            VarintOutcome::Done { value, consumed } => {
                lemma_varint_from_consumed(acc, 0, 0);
            },
            _ => {},
        }
    }
}

/// An accumulator that is a proper prefix of one of the newline-framed words
/// holds no complete token: its first byte, the newline, reads as a varint
/// length of ten, and fewer than ten bytes follow.
proof fn lemma_short_newline_prefix_stalls(acc: Seq<u8>)
    requires
        acc.len() < 11,
        acc.len() == 0 || acc[0] == 10,
    ensures
        step(acc) is None,
{
    assert(!starts_with(acc, initiator_lit()));
    assert(!starts_with(acc, responder_lit()));
    if acc.len() == 0 {
        assert(varint_decode(acc) is Incomplete);
    } else {
        assert(10u8 & 0x80u8 == 0u8) by (bit_vector);
        assert(10u8 & 0x7fu8 == 10u8) by (bit_vector);
        assert(0u64 | ((10u8 & 0x7fu8) as u64) << ((7 * 0) as u64) == 10u64) by (bit_vector);
        assert(varint_decode(acc) == (VarintOutcome::Done { value: 10u64, consumed: 1int }));
    }
}

/// A completed step is decided by the bytes it consumed: appending input
/// yields the same token and carries the appended bytes into the rest.
pub proof fn lemma_step_extend(acc: Seq<u8>, ext: Seq<u8>)
    requires
        step(acc) is Some,
    ensures
        step(acc + ext) is Some,
        step(acc + ext)->Some_0.0 == step(acc)->Some_0.0,
        step(acc + ext)->Some_0.1 == step(acc)->Some_0.1 + ext,
{
    let joined = acc + ext;
    if starts_with(acc, initiator_lit()) {
        assert(joined.subrange(0, 11) =~= acc.subrange(0, 11));
        assert(joined.skip(11) =~= acc.skip(11) + ext);
    } else if starts_with(acc, responder_lit()) {
        assert(joined.subrange(0, 11) =~= acc.subrange(0, 11));
        assert(!starts_with(joined, initiator_lit())) by {
            assert(acc.subrange(0, 11)[1] == acc[1]);
        }
        assert(joined.skip(11) =~= acc.skip(11) + ext);
    } else {
        // Neither framed word starts `acc`; show the same of the joined
        // sequence. Were a word a prefix of the joined bytes but not of
        // `acc`, then `acc` would be a proper prefix of that word, and a
        // proper prefix holds no token at all.
        if acc.len() >= 11 {
            assert(acc.subrange(0, 11) =~= joined.subrange(0, 11));
        } else {
            if starts_with(joined, initiator_lit()) || starts_with(joined, responder_lit()) {
                if acc.len() > 0 {
                    assert(acc[0] == joined.subrange(0, 11)[0]);
                }
                lemma_short_newline_prefix_stalls(acc);
                assert(false);
            }
        }
        match varint_decode(acc) {
            VarintOutcome::Done { value, consumed } => {
                lemma_varint_from_consumed(acc, 0, 0);
                lemma_varint_decode_extend(acc, ext);
                assert(joined.subrange(consumed, consumed + value) =~= acc.subrange(
                    consumed,
                    consumed + value,
                ));
                assert(joined.skip(consumed + value) =~= acc.skip(consumed + value) + ext);
            },
            _ => {},
        }
    }
}

/// Trailing newline bytes removed, as the negotiation layer reads a message.
pub open spec fn trim_newlines(s: Seq<u8>) -> Seq<u8>
    decreases s.len(),
{
    if s.len() > 0 && s[s.len() - 1] == 10 {
        trim_newlines(s.drop_last())
    } else {
        s
    }
}

/// Whether a byte sequence is well-formed UTF-8.
pub uninterp spec fn valid_utf8(s: Seq<u8>) -> bool;

/// Relies on `core::str::from_utf8`, which returns `Ok` exactly when its
/// input is well-formed UTF-8.
#[verifier::external_body]
pub(crate) fn utf8_check(b: &[u8]) -> (r: bool)
    ensures
        r == valid_utf8(b@),
{
    core::str::from_utf8(b).is_ok()
}

/// A token handed to the negotiation layer. A message token carries its
/// bytes with trailing newlines trimmed; a message that is not UTF-8 is
/// handed back as an error instead, with the bytes untouched.
pub enum Output {
    String(Vec<u8>),
    InitiatorToken,
    ResponderToken,
}

/// The parser state: bytes received and not yet split into tokens.
pub struct State {
    acc: Vec<u8>,
}

impl View for State {
    type V = Seq<u8>;

    closed spec fn view(&self) -> Seq<u8> {
        self.acc@
    }
}

/// Copy `b[from..to]` into a fresh vector.
fn copy_range(b: &[u8], from: usize, to: usize) -> (r: Vec<u8>)
    requires
        from <= to <= b@.len(),
    ensures
        r@ == b@.subrange(from as int, to as int),
{
    slice_to_vec(slice_subrange(b, from, to))
}

impl Default for State {
    /// An empty accumulator.
    fn default() -> (r: State)
        ensures
            r@ == Seq::<u8>::empty(),
    {
        State::new()
    }
}

impl State {
    /// An empty accumulator.
    pub fn new() -> (r: State)
        ensures
            r@ == Seq::<u8>::empty(),
    {
        let r = State { acc: Vec::new() };
        proof {
            assert(r@ =~= Seq::<u8>::empty());
        }
        r
    }

    /// Add a chunk of stream bytes to the accumulator.
    pub fn append(&mut self, bytes: &[u8])
        ensures
            final(self)@ == old(self)@ + bytes@,
    {
        let mut i: usize = 0;
        while i < bytes.len()
            invariant
                i <= bytes@.len(),
                self.acc@ == old(self).acc@ + bytes@.subrange(0, i as int),
            decreases bytes@.len() - i,
        {
            self.acc.push(bytes[i]);
            proof {
                assert(old(self).acc@ + bytes@.subrange(0, i as int) + seq![bytes@[i as int]]
                    =~= old(self).acc@ + bytes@.subrange(0, i + 1));
            }
            i += 1;
        }
        proof {
            assert(bytes@.subrange(0, bytes@.len() as int) =~= bytes@);
        }
    }

    /// Hand out everything: the accumulated bytes followed by the chunk,
    /// leaving the accumulator empty.
    pub fn end(&mut self, bytes: &[u8]) -> (r: Vec<u8>)
        ensures
            r@ == old(self)@ + bytes@,
            final(self)@ == Seq::<u8>::empty(),
    {
        self.append(bytes);
        let mut out: Vec<u8> = Vec::new();
        core::mem::swap(&mut out, &mut self.acc);
        out
    }

    /// Split one token off the front of the accumulator, if a complete one
    /// is there: one of the two framed words, a message with its trailing
    /// newlines trimmed, or the raw bytes of a message that is not UTF-8.
    pub fn poll(&mut self) -> (r: Option<Result<Output, Vec<u8>>>)
        ensures
            match step(old(self)@) {
                None => r is None && final(self)@ == old(self)@,
                Some((tok, rest)) => {
                    &&& final(self)@ == rest
                    &&& match tok {
                        Token::Initiator => r matches Some(Ok(Output::InitiatorToken)),
                        Token::Responder => r matches Some(Ok(Output::ResponderToken)),
                        Token::Message(m) => if valid_utf8(m) {
                            r matches Some(Ok(Output::String(t))) && t@ == trim_newlines(m)
                        } else {
                            r matches Some(Err(raw)) && raw@ == m
                        },
                    }
                },
            },
    {
        let n = self.acc.len();
        let framed = if n >= 11 && self.acc[0] == 10 && self.acc[10] == 10 {
            if self.acc[1] == 105 && self.acc[2] == 110 && self.acc[3] == 105 && self.acc[4] == 116
                && self.acc[5] == 105 && self.acc[6] == 97 && self.acc[7] == 116
                && self.acc[8] == 111 && self.acc[9] == 114 {
                1u8
            } else if self.acc[1] == 114 && self.acc[2] == 101 && self.acc[3] == 115
                && self.acc[4] == 112 && self.acc[5] == 111 && self.acc[6] == 110
                && self.acc[7] == 100 && self.acc[8] == 101 && self.acc[9] == 114 {
                2u8
            } else {
                0u8
            }
        } else {
            0u8
        };
        proof {
            let s = self.acc@;
            if s.len() >= 11 {
                assert(forall|i: int| 0 <= i < 11 ==> s.subrange(0, 11)[i] == s[i]);
            }
            if framed == 1 {
                assert(s.subrange(0, 11) =~= initiator_lit());
            } else if framed == 2 {
                assert(s.subrange(0, 11) =~= responder_lit());
            } else {
                if starts_with(s, initiator_lit()) {
                    assert(false);
                }
                if starts_with(s, responder_lit()) {
                    assert(false);
                }
            }
        }
        if framed == 1 {
            let rest = copy_range(self.acc.as_slice(), 11, n);
            self.acc = rest;
            return Some(Ok(Output::InitiatorToken));
        }
        if framed == 2 {
            let rest = copy_range(self.acc.as_slice(), 11, n);
            self.acc = rest;
            return Some(Ok(Output::ResponderToken));
        }
        match varint_u64(self.acc.as_slice()) {
            None => None,
            Some((value, after)) => {
                proof {
                    lemma_varint_from_consumed(self.acc@, 0, 0);
                }
                if (after.len() as u64) < value {
                    return None;
                }
                let length = value as usize;
                let msg = copy_range(after, 0, length);
                let rest = copy_range(after, length, after.len());
                proof {
                    let s = self.acc@;
                    let consumed = varint_decode(s)->Done_consumed;
                    assert(msg@ =~= s.subrange(consumed, consumed + value));
                    assert(rest@ =~= s.skip(consumed + value));
                }
                self.acc = rest;
                if utf8_check(msg.as_slice()) {
                    let trimmed = trim_newline_bytes(msg);
                    Some(Ok(Output::String(trimmed)))
                } else {
                    Some(Err(msg))
                }
            },
        }
    }
}

/// Remove the trailing newline bytes of a message token.
fn trim_newline_bytes(v: Vec<u8>) -> (r: Vec<u8>)
    ensures
        r@ == trim_newlines(v@),
{
    let mut out = v;
    let mut n = out.len();
    proof {
        assert(v@.subrange(0, v@.len() as int) =~= v@);
    }
    while n > 0 && out[n - 1] == 10
        invariant
            n <= out@.len(),
            out@ == v@,
            trim_newlines(v@) == trim_newlines(v@.subrange(0, n as int)),
        decreases n,
    {
        proof {
            assert(v@.subrange(0, n as int).drop_last() =~= v@.subrange(0, n - 1));
        }
        n -= 1;
    }
    proof {
        if n > 0 {
            assert(v@.subrange(0, n as int)[n - 1] == v@[n - 1]);
        }
        assert(trim_newlines(v@.subrange(0, n as int)) == v@.subrange(0, n as int));
    }
    out.truncate(n);
    out
}

} // verus!
