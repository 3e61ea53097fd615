//! The multistream-select pipeline layer of one connection: it feeds each
//! direction's byte chunks to the negotiation, reports the tokens read, and
//! once the two directions agree passes every further byte through under the
//! agreed protocol. A direction whose stream turns out malformed is
//! poisoned: its further bytes are dropped, while the other direction goes
//! on.

use vstd::prelude::*;
use vstd::slice::slice_to_vec;
use crate::negotiation;
use crate::negotiation::{agreement_ready, poll_model, DirModel, OutputModel};
pub use crate::negotiation::Output;

verus! {

/// The layer's state, as the contracts speak of it.
pub struct StateModel {
    pub stream_id: u64,
    pub stream_forward: bool,
    pub negotiation: (DirModel, DirModel),
    pub poisoned_incoming: bool,
    pub poisoned_outgoing: bool,
    pub protocol: Option<Seq<u8>>,
}

/// The direction a chunk belongs to.
pub open spec fn dir_of(st: StateModel, incoming: bool) -> DirModel {
    if incoming {
        st.negotiation.0
    } else {
        st.negotiation.1
    }
}

/// The opposite direction.
pub open spec fn other_of(st: StateModel, incoming: bool) -> DirModel {
    if incoming {
        st.negotiation.1
    } else {
        st.negotiation.0
    }
}

/// Whether a direction is poisoned.
pub open spec fn poisoned_of(st: StateModel, incoming: bool) -> bool {
    if incoming {
        st.poisoned_incoming
    } else {
        st.poisoned_outgoing
    }
}

/// An empty output: nothing read, nothing agreed.
pub open spec fn empty_output() -> OutputModel {
    OutputModel { tokens: Seq::empty(), error: None, agreed: None }
}

/// What one `on_data` call does. A poisoned direction's bytes are dropped.
/// Otherwise the chunk is polled through the negotiation; a malformed
/// message poisons the direction, and the first agreement fixes the
/// connection's protocol.
pub open spec fn on_data_model(st: StateModel, incoming: bool, bytes: Seq<u8>) -> (
    StateModel,
    OutputModel,
) {
    if poisoned_of(st, incoming) {
        (st, empty_output())
    } else {
        let r = poll_model(dir_of(st, incoming), other_of(st, incoming), bytes);
        let ngn = if incoming {
            (r.0, r.1)
        } else {
            (r.1, r.0)
        };
        let st1 = StateModel {
            negotiation: ngn,
            poisoned_incoming: st.poisoned_incoming || (incoming && r.2.error is Some),
            poisoned_outgoing: st.poisoned_outgoing || (!incoming && r.2.error is Some),
            protocol: if st.protocol is None && r.2.agreed is Some {
                Some(r.2.agreed->Some_0.0)
            } else {
                st.protocol
            },
            ..st
        };
        (st1, r.2)
    }
}

/// One connection's multistream-select layer.
pub struct State {
    stream_id: u64,
    stream_forward: bool,
    negotiation: negotiation::State,
    poisoned_incoming: bool,
    poisoned_outgoing: bool,
    protocol: Option<Vec<u8>>,
}

impl View for State {
    type V = StateModel;

    closed spec fn view(&self) -> StateModel {
        StateModel {
            stream_id: self.stream_id,
            stream_forward: self.stream_forward,
            negotiation: self.negotiation@,
            poisoned_incoming: self.poisoned_incoming,
            poisoned_outgoing: self.poisoned_outgoing,
            protocol: if self.protocol is Some {
                Some(self.protocol->Some_0@)
            } else {
                None
            },
        }
    }
}

/// A fresh layer's state for a stream.
pub open spec fn fresh_state(stream_id: u64, stream_forward: bool) -> StateModel {
    StateModel {
        stream_id,
        stream_forward,
        negotiation: (
            DirModel { acc: Seq::empty(), simultaneous_connect: false, done: None },
            DirModel { acc: Seq::empty(), simultaneous_connect: false, done: None },
        ),
        poisoned_incoming: false,
        poisoned_outgoing: false,
        protocol: None,
    }
}

impl State {
    /// A fresh layer for the stream with this id and orientation.
    pub fn new(stream_id: u64, stream_forward: bool) -> (r: State)
        ensures
            r@ == fresh_state(stream_id, stream_forward),
    {
        State {
            stream_id,
            stream_forward,
            negotiation: negotiation::State::new(),
            poisoned_incoming: false,
            poisoned_outgoing: false,
            protocol: None,
        }
    }

    /// The agreed protocol, once the negotiation has reached one.
    pub fn protocol(&self) -> (r: Option<&Vec<u8>>)
        ensures
            match r {
                Some(p) => self@.protocol == Some(p@),
                None => self@.protocol is None,
            },
    {
        self.protocol.as_ref()
    }

    /// Feed one chunk of one direction's stream.
    pub fn on_data(&mut self, incoming: bool, bytes: &[u8]) -> (r: Output)
        ensures
            final(self)@ == on_data_model(old(self)@, incoming, bytes@).0,
            r@ == on_data_model(old(self)@, incoming, bytes@).1,
    {
        let poisoned = if incoming {
            self.poisoned_incoming
        } else {
            self.poisoned_outgoing
        };
        if poisoned {
            let r = Output { tokens: Vec::new(), error: None, agreed: None };
            proof {
                assert(r@.tokens =~= empty_output().tokens);
            }
            return r;
        }
        let out = self.negotiation.poll(incoming, bytes);
        if out.error.is_some() {
            if incoming {
                self.poisoned_incoming = true;
            } else {
                self.poisoned_outgoing = true;
            }
        }
        if out.agreed.is_some() && self.protocol.is_none() {
            let proto = slice_to_vec(out.agreed.as_ref().unwrap().0.as_slice());
            self.protocol = Some(proto);
        }
        out
    }
}

/// Two values of a direction's state are interchangeable when they differ
/// at most in the accumulator of a poisoned direction, whose bytes are
/// dropped anyway.
pub open spec fn dir_equiv(a: DirModel, b: DirModel, poisoned: bool) -> bool {
    if poisoned {
        a.simultaneous_connect == b.simultaneous_connect && a.done == b.done
    } else {
        a == b
    }
}

/// Two layer states that behave the same on all further input.
pub open spec fn state_equiv(a: StateModel, b: StateModel) -> bool {
    &&& a.stream_id == b.stream_id
    &&& a.stream_forward == b.stream_forward
    &&& a.poisoned_incoming == b.poisoned_incoming
    &&& a.poisoned_outgoing == b.poisoned_outgoing
    &&& a.protocol == b.protocol
    &&& dir_equiv(a.negotiation.0, b.negotiation.0, a.poisoned_incoming)
    &&& dir_equiv(a.negotiation.1, b.negotiation.1, a.poisoned_outgoing)
}

/// Chunking invariance of the negotiation: while no agreement is pending at
/// a chunk boundary, feeding a direction two chunks reads the same token
/// sequence, reports the same error, and leaves an interchangeable state, as
/// feeding the joined bytes in one call would.
pub proof fn lemma_on_data_chunking(st: StateModel, incoming: bool, b1: Seq<u8>, b2: Seq<u8>)
    requires
        !agreement_ready(dir_of(st, incoming), other_of(st, incoming)),
        !agreement_ready(
            dir_of(on_data_model(st, incoming, b1).0, incoming),
            other_of(on_data_model(st, incoming, b1).0, incoming),
        ),
    ensures
        ({
            let st1 = on_data_model(st, incoming, b1).0;
            let out1 = on_data_model(st, incoming, b1).1;
            let st2 = on_data_model(st1, incoming, b2).0;
            let out2 = on_data_model(st1, incoming, b2).1;
            let stj = on_data_model(st, incoming, b1 + b2).0;
            let outj = on_data_model(st, incoming, b1 + b2).1;
            &&& outj.tokens == out1.tokens + out2.tokens
            &&& out1.agreed is None && out2.agreed is None && outj.agreed is None
            &&& outj.error == (if out1.error is Some {
                out1.error
            } else {
                out2.error
            })
            &&& state_equiv(st2, stj)
            &&& out1.error is None ==> st2 == stj
        }),
{
    let st1 = on_data_model(st, incoming, b1).0;
    let out1 = on_data_model(st, incoming, b1).1;
    let st2 = on_data_model(st1, incoming, b2).0;
    let out2 = on_data_model(st1, incoming, b2).1;
    let stj = on_data_model(st, incoming, b1 + b2).0;
    let outj = on_data_model(st, incoming, b1 + b2).1;
    if poisoned_of(st, incoming) {
        assert(outj.tokens =~= out1.tokens + out2.tokens);
    } else {
        let this0 = dir_of(st, incoming);
        let other0 = other_of(st, incoming);
        let joined_arg = DirModel { acc: this0.acc + (b1 + b2), ..this0 };
        let first_arg = DirModel { acc: this0.acc + b1, ..this0 };
        assert(this0.acc + (b1 + b2) =~= (this0.acc + b1) + b2);
        assert(joined_arg == (DirModel { acc: first_arg.acc + b2, ..first_arg }));
        negotiation::lemma_run_extend(first_arg, other0, b2);
        let r1 = negotiation::run(first_arg, other0);
        let rj = negotiation::run(joined_arg, other0);
        if r1.error is None {
            let r2 = negotiation::run(DirModel { acc: r1.this.acc + b2, ..r1.this }, r1.other);
            assert(outj.tokens == out1.tokens + out2.tokens);
        } else {
            assert(out2.tokens =~= Seq::<Seq<u8>>::empty());
            assert(outj.tokens =~= out1.tokens + out2.tokens);
        }
    }
}

/// Chunking invariance of the pass-through: once the directions agree, the
/// bytes a direction forwards under the agreed protocol are the same whether
/// its chunks come one by one or joined, and the state ends the same.
pub proof fn lemma_on_data_passthrough(st: StateModel, incoming: bool, b1: Seq<u8>, b2: Seq<u8>)
    requires
        !poisoned_of(st, incoming),
        agreement_ready(dir_of(st, incoming), other_of(st, incoming)),
    ensures
        ({
            let st1 = on_data_model(st, incoming, b1).0;
            let out1 = on_data_model(st, incoming, b1).1;
            let st2 = on_data_model(st1, incoming, b2).0;
            let out2 = on_data_model(st1, incoming, b2).1;
            let stj = on_data_model(st, incoming, b1 + b2).0;
            let outj = on_data_model(st, incoming, b1 + b2).1;
            &&& out1.agreed is Some && out2.agreed is Some && outj.agreed is Some
            &&& out1.agreed->Some_0.0 == outj.agreed->Some_0.0
            &&& out2.agreed->Some_0.0 == outj.agreed->Some_0.0
            &&& out1.agreed->Some_0.1 + out2.agreed->Some_0.1 == outj.agreed->Some_0.1
            &&& out1.tokens.len() == 0 && out2.tokens.len() == 0 && outj.tokens.len() == 0
            &&& out1.error is None && out2.error is None && outj.error is None
            &&& st2 == stj
        }),
{
    let st1 = on_data_model(st, incoming, b1).0;
    let st2 = on_data_model(st1, incoming, b2).0;
    let stj = on_data_model(st, incoming, b1 + b2).0;
    let this0 = dir_of(st, incoming);
    assert(dir_of(st1, incoming) == (DirModel { acc: Seq::<u8>::empty(), ..this0 }));
    assert(Seq::<u8>::empty() + b2 =~= b2);
    assert((this0.acc + b1) + b2 =~= this0.acc + (b1 + b2));
    assert(st2 == stj);
}

/// Feed a direction a sequence of chunks, one `on_data` call each: the
/// final state and the concatenation of all tokens read.
pub open spec fn feed_all(st: StateModel, incoming: bool, chunks: Seq<Seq<u8>>) -> (
    StateModel,
    Seq<Seq<u8>>,
)
    decreases chunks.len(),
{
    if chunks.len() == 0 {
        (st, Seq::empty())
    } else {
        let s = on_data_model(st, incoming, chunks[0]);
        let rest = feed_all(s.0, incoming, chunks.skip(1));
        (rest.0, s.1.tokens + rest.1)
    }
}

/// The chunks joined into one byte sequence.
pub open spec fn join_chunks(chunks: Seq<Seq<u8>>) -> Seq<u8>
    decreases chunks.len(),
{
    if chunks.len() == 0 {
        Seq::empty()
    } else {
        chunks[0] + join_chunks(chunks.skip(1))
    }
}

/// No chunk boundary falls where it could matter: before each chunk the
/// directions have not yet agreed, and no chunk trips a decoding error.
pub open spec fn boundaries_clear(st: StateModel, incoming: bool, chunks: Seq<Seq<u8>>) -> bool
    decreases chunks.len(),
{
    chunks.len() == 0 || {
        let s = on_data_model(st, incoming, chunks[0]);
        &&& !agreement_ready(dir_of(st, incoming), other_of(st, incoming))
        &&& s.1.error is None
        &&& boundaries_clear(s.0, incoming, chunks.skip(1))
    }
}

/// Chunking invariance over any number of chunks: as long as no boundary
/// falls inside an agreement and the stream is well-formed, feeding the
/// chunks one by one reads exactly the token sequence of the joined bytes
/// and ends in exactly the state the joined call would.
pub proof fn lemma_on_data_chunking_run(st: StateModel, incoming: bool, chunks: Seq<Seq<u8>>)
    requires
        boundaries_clear(st, incoming, chunks),
        chunks.len() > 0,
    ensures
        feed_all(st, incoming, chunks).1 == on_data_model(
            st,
            incoming,
            join_chunks(chunks),
        ).1.tokens,
        feed_all(st, incoming, chunks).0 == on_data_model(st, incoming, join_chunks(chunks)).0,
        on_data_model(st, incoming, join_chunks(chunks)).1.error is None,
        on_data_model(st, incoming, join_chunks(chunks)).1.agreed is None,
    decreases chunks.len(),
{
    let s = on_data_model(st, incoming, chunks[0]);
    if chunks.len() == 1 {
        assert(chunks.skip(1).len() == 0);
        assert(join_chunks(chunks) =~= chunks[0]);
        assert(feed_all(s.0, incoming, chunks.skip(1)).0 == s.0);
        assert(feed_all(s.0, incoming, chunks.skip(1)).1 == Seq::<Seq<u8>>::empty());
        assert(feed_all(st, incoming, chunks).1 =~= s.1.tokens);
    } else {
        let rest = chunks.skip(1);
        assert(rest[0] == chunks[1]);
        lemma_on_data_chunking_run(s.0, incoming, rest);
        lemma_on_data_chunking(st, incoming, chunks[0], join_chunks(rest));
        assert(join_chunks(chunks) == chunks[0] + join_chunks(rest));
        let out1 = on_data_model(st, incoming, chunks[0]).1;
        let out2 = on_data_model(s.0, incoming, join_chunks(rest)).1;
        let outj = on_data_model(st, incoming, chunks[0] + join_chunks(rest)).1;
        assert(outj.tokens == out1.tokens + out2.tokens);
        assert(feed_all(st, incoming, chunks).1 == s.1.tokens + feed_all(s.0, incoming, rest).1);
    }
}

} // verus!
