//! The multistream-select negotiation state machine, aware of the
//! simultaneous-connect handshake. Each connection has two directions; every
//! token read from one direction drives a shared selection state, and once
//! both directions have proposed the same protocol the negotiation is agreed
//! and all further bytes pass through to the agreed protocol's layer.

use vstd::prelude::*;
use vstd::slice::slice_to_vec;
use crate::tokenizer;
use crate::tokenizer::{starts_with, trim_newlines, valid_utf8, Token};

verus! {

/// The thirteen bytes of `"/multistream/"`.
pub open spec fn multistream_prefix() -> Seq<u8> {
    seq![47u8, 109u8, 117u8, 108u8, 116u8, 105u8, 115u8, 116u8, 114u8, 101u8, 97u8, 109u8, 47u8]
}

/// The twenty-eight bytes of `"/libp2p/simultaneous-connect"`.
pub open spec fn simultaneous_connect_prefix() -> Seq<u8> {
    seq![
        47u8, 108u8, 105u8, 98u8, 112u8, 50u8, 112u8, 47u8, 115u8, 105u8, 109u8, 117u8, 108u8,
        116u8, 97u8, 110u8, 101u8, 111u8, 117u8, 115u8, 45u8, 99u8, 111u8, 110u8, 110u8, 101u8,
        99u8, 116u8,
    ]
}

/// The two bytes of `"na"`.
pub open spec fn na_lit() -> Seq<u8> {
    seq![110u8, 97u8]
}

/// The six bytes of `"select"`.
pub open spec fn select_prefix() -> Seq<u8> {
    seq![115u8, 101u8, 108u8, 101u8, 99u8, 116u8]
}

/// The nine bytes of `"initiator"`.
pub open spec fn initiator_name() -> Seq<u8> {
    seq![105u8, 110u8, 105u8, 116u8, 105u8, 97u8, 116u8, 111u8, 114u8]
}

/// The nine bytes of `"responder"`.
pub open spec fn responder_name() -> Seq<u8> {
    seq![114u8, 101u8, 115u8, 112u8, 111u8, 110u8, 100u8, 101u8, 114u8]
}

/// One direction of a negotiation, as the contracts speak of it: the bytes
/// not yet tokenized, whether the direction is inside the
/// simultaneous-connect handshake, and the protocol it has proposed.
pub struct DirModel {
    pub acc: Seq<u8>,
    pub simultaneous_connect: bool,
    pub done: Option<Seq<u8>>,
}

/// How one token moves the selection state of its own direction (`this`)
/// and the opposite one (`other`):
/// a `/multistream/` preamble is ignored; `/libp2p/simultaneous-connect`
/// puts this direction into the handshake; `na` withdraws the other
/// direction's proposal, or ends its handshake if one is running; a
/// `select…` nonce ends this direction's handshake; any other token is this
/// direction's proposed protocol, counted only while neither direction is in
/// the handshake.
pub open spec fn classify(this: DirModel, other: DirModel, tok: Seq<u8>) -> (DirModel, DirModel) {
    if starts_with(tok, multistream_prefix()) {
        (this, other)
    } else if starts_with(tok, simultaneous_connect_prefix()) {
        (DirModel { simultaneous_connect: true, ..this }, other)
    } else if tok == na_lit() {
        if other.simultaneous_connect {
            (this, DirModel { simultaneous_connect: false, ..other })
        } else {
            (this, DirModel { done: None, ..other })
        }
    } else if starts_with(tok, select_prefix()) {
        (DirModel { simultaneous_connect: false, ..this }, other)
    } else if !this.simultaneous_connect && !other.simultaneous_connect {
        (DirModel { done: Some(tok), ..this }, other)
    } else {
        (this, other)
    }
}

/// What draining one direction's accumulator produces: the final states of
/// both directions, the tokens read in order, and the bytes of the first
/// message that was not UTF-8, if one was hit (tokens after it stay in the
/// accumulator).
pub struct RunResult {
    pub this: DirModel,
    pub other: DirModel,
    pub tokens: Seq<Seq<u8>>,
    pub error: Option<Seq<u8>>,
}

/// Drain one direction's accumulator token by token, driving the selection
/// state, until no complete token is left or a message fails to be UTF-8.
pub open spec fn run(this: DirModel, other: DirModel) -> RunResult
    decreases this.acc.len(),
    via run_decreases
{
    match tokenizer::step(this.acc) {
        None => RunResult { this, other, tokens: Seq::empty(), error: None },
        Some((tok, rest)) => match tok {
            Token::Initiator => {
                let r = run(DirModel { acc: rest, ..this }, other);
                RunResult { tokens: seq![initiator_name()] + r.tokens, ..r }
            },
            Token::Responder => {
                let r = run(DirModel { acc: rest, ..this }, other);
                RunResult { tokens: seq![responder_name()] + r.tokens, ..r }
            },
            Token::Message(m) => {
                if valid_utf8(m) {
                    let t = trim_newlines(m);
                    let p = classify(DirModel { acc: rest, ..this }, other, t);
                    let r = run(p.0, p.1);
                    RunResult { tokens: seq![t] + r.tokens, ..r }
                } else {
                    RunResult {
                        this: DirModel { acc: rest, ..this },
                        other,
                        tokens: Seq::empty(),
                        error: Some(m),
                    }
                }
            },
        },
    }
}

#[via_fn]
proof fn run_decreases(this: DirModel, other: DirModel) {
    match tokenizer::step(this.acc) {
        None => {},
        Some((tok, rest)) => {
            tokenizer::lemma_step_consumes(this.acc);
        },
    }
}

/// Draining is decided left to right: appending bytes to the accumulator
/// first drains the tokens the original accumulator held, then goes on from
/// the state they left behind. If the original drain stopped at a message
/// that was not UTF-8, the appended bytes sit untouched behind it.
pub proof fn lemma_run_extend(this: DirModel, other: DirModel, ext: Seq<u8>)
    ensures
        ({
            let r1 = run(this, other);
            let rj = run(DirModel { acc: this.acc + ext, ..this }, other);
            if r1.error is None {
                let r2 = run(DirModel { acc: r1.this.acc + ext, ..r1.this }, r1.other);
                &&& rj.tokens == r1.tokens + r2.tokens
                &&& rj.this == r2.this
                &&& rj.other == r2.other
                &&& rj.error == r2.error
            } else {
                &&& rj.tokens == r1.tokens
                &&& rj.error == r1.error
                &&& rj.other == r1.other
                &&& rj.this == (DirModel { acc: r1.this.acc + ext, ..r1.this })
            }
        }),
    decreases this.acc.len(),
{
    let r1 = run(this, other);
    let joined = DirModel { acc: this.acc + ext, ..this };
    match tokenizer::step(this.acc) {
        None => {
            if r1.error is None {
                let r2 = run(DirModel { acc: r1.this.acc + ext, ..r1.this }, r1.other);
                assert(run(joined, other).tokens =~= r1.tokens + r2.tokens);
            }
        },
        Some((tok, rest)) => {
            tokenizer::lemma_step_consumes(this.acc);
            tokenizer::lemma_step_extend(this.acc, ext);
            assert(joined.acc == this.acc + ext);
            match tok {
                Token::Initiator => {
                    let next = DirModel { acc: rest, ..this };
                    lemma_run_extend(next, other, ext);
                    let n1 = run(next, other);
                    if n1.error is None {
                        let n2 = run(DirModel { acc: n1.this.acc + ext, ..n1.this }, n1.other);
                        assert(seq![initiator_name()] + (n1.tokens + n2.tokens) =~= (seq![
                            initiator_name(),
                        ] + n1.tokens) + n2.tokens);
                    }
                },
                Token::Responder => {
                    let next = DirModel { acc: rest, ..this };
                    lemma_run_extend(next, other, ext);
                    let n1 = run(next, other);
                    if n1.error is None {
                        let n2 = run(DirModel { acc: n1.this.acc + ext, ..n1.this }, n1.other);
                        assert(seq![responder_name()] + (n1.tokens + n2.tokens) =~= (seq![
                            responder_name(),
                        ] + n1.tokens) + n2.tokens);
                    }
                },
                Token::Message(m) => {
                    if valid_utf8(m) {
                        let t = trim_newlines(m);
                        let p = classify(DirModel { acc: rest, ..this }, other, t);
                        lemma_run_extend(p.0, p.1, ext);
                        let n1 = run(p.0, p.1);
                        if n1.error is None {
                            let n2 = run(DirModel { acc: n1.this.acc + ext, ..n1.this }, n1.other);
                            assert(seq![t] + (n1.tokens + n2.tokens) =~= (seq![t] + n1.tokens)
                                + n2.tokens);
                        }
                    }
                },
            }
        },
    }
}

/// Both directions have proposed, and propose the same protocol.
pub open spec fn agreement_ready(this: DirModel, other: DirModel) -> bool {
    this.done is Some && other.done is Some && this.done->Some_0 == other.done->Some_0
}

/// What one poll of a direction produces.
pub struct OutputModel {
    pub tokens: Seq<Seq<u8>>,
    pub error: Option<Seq<u8>>,
    pub agreed: Option<(Seq<u8>, Seq<u8>)>,
}

/// One poll of a direction with a chunk of its stream: if agreement stood at
/// entry, the accumulated bytes and the chunk pass through under the agreed
/// protocol and nothing is tokenized; otherwise the chunk joins the
/// accumulator and tokens are drained from it.
pub open spec fn poll_model(this: DirModel, other: DirModel, bytes: Seq<u8>) -> (
    DirModel,
    DirModel,
    OutputModel,
) {
    if agreement_ready(this, other) {
        (
            DirModel { acc: Seq::empty(), ..this },
            other,
            OutputModel {
                tokens: Seq::empty(),
                error: None,
                agreed: Some((this.done->Some_0, this.acc + bytes)),
            },
        )
    } else {
        let r = run(DirModel { acc: this.acc + bytes, ..this }, other);
        (r.this, r.other, OutputModel { tokens: r.tokens, error: r.error, agreed: None })
    }
}

/// One direction's negotiation state.
pub struct OneDirection {
    inner: tokenizer::State,
    simultaneous_connect: bool,
    done: Option<Vec<u8>>,
}

impl View for OneDirection {
    type V = DirModel;

    closed spec fn view(&self) -> DirModel {
        DirModel {
            acc: self.inner@,
            simultaneous_connect: self.simultaneous_connect,
            done: if self.done is Some {
                Some(self.done->Some_0@)
            } else {
                None
            },
        }
    }
}

impl OneDirection {
    /// A fresh direction: nothing buffered, nothing proposed.
    pub fn new() -> (r: OneDirection)
        ensures
            r@ == (DirModel {
                acc: Seq::<u8>::empty(),
                simultaneous_connect: false,
                done: None::<Seq<u8>>,
            }),
    {
        OneDirection { inner: tokenizer::State::new(), simultaneous_connect: false, done: None }
    }
}

/// What one poll of a direction produced: the tokens read, the bytes of a
/// message that was not UTF-8, and, once both directions agree, the agreed
/// protocol with the bytes passing through to it.
pub struct Output {
    pub tokens: Vec<Vec<u8>>,
    pub error: Option<Vec<u8>>,
    pub agreed: Option<(Vec<u8>, Vec<u8>)>,
}

impl View for Output {
    type V = OutputModel;

    open spec fn view(&self) -> OutputModel {
        OutputModel {
            tokens: self.tokens@.map_values(|t: Vec<u8>| t@),
            error: if self.error is Some {
                Some(self.error->Some_0@)
            } else {
                None
            },
            agreed: if self.agreed is Some {
                Some((self.agreed->Some_0.0@, self.agreed->Some_0.1@))
            } else {
                None
            },
        }
    }
}

/// The negotiation state of a connection: its two directions.
pub struct State {
    incoming: OneDirection,
    outgoing: OneDirection,
}

impl View for State {
    type V = (DirModel, DirModel);

    closed spec fn view(&self) -> (DirModel, DirModel) {
        (self.incoming@, self.outgoing@)
    }
}

/// Whether `p` is a prefix of `b`.
fn bytes_has_prefix(b: &[u8], p: &[u8]) -> (r: bool)
    ensures
        r == starts_with(b@, p@),
{
    if b.len() < p.len() {
        return false;
    }
    let mut i: usize = 0;
    while i < p.len()
        invariant
            i <= p@.len() <= b@.len(),
            forall|j: int| 0 <= j < i ==> b@[j] == p@[j],
        decreases p@.len() - i,
    {
        if b[i] != p[i] {
            proof {
                assert(b@.subrange(0, p@.len() as int)[i as int] == b@[i as int]);
            }
            return false;
        }
        i += 1;
    }
    proof {
        assert(b@.subrange(0, p@.len() as int) =~= p@);
    }
    true
}

/// Whether two byte strings are equal.
fn bytes_eq(a: &[u8], b: &[u8]) -> (r: bool)
    ensures
        r == (a@ == b@),
{
    if a.len() != b.len() {
        return false;
    }
    let mut i: usize = 0;
    while i < a.len()
        invariant
            a@.len() == b@.len(),
            i <= a@.len(),
            forall|j: int| 0 <= j < i ==> a@[j] == b@[j],
        decreases a@.len() - i,
    {
        if a[i] != b[i] {
            return false;
        }
        i += 1;
    }
    proof {
        assert(a@ =~= b@);
    }
    true
}

/// A copy of a byte vector.
fn copy_bytes(v: &Vec<u8>) -> (r: Vec<u8>)
    ensures
        r@ == v@,
{
    slice_to_vec(v.as_slice())
}

/// The bytes of `"initiator"`.
fn initiator_name_bytes() -> (r: Vec<u8>)
    ensures
        r@ == initiator_name(),
{
    let a: [u8; 9] = [105, 110, 105, 116, 105, 97, 116, 111, 114];
    let r = slice_to_vec(a.as_slice());
    proof {
        assert(r@ =~= initiator_name());
    }
    r
}

/// The bytes of `"responder"`.
fn responder_name_bytes() -> (r: Vec<u8>)
    ensures
        r@ == responder_name(),
{
    let a: [u8; 9] = [114, 101, 115, 112, 111, 110, 100, 101, 114];
    let r = slice_to_vec(a.as_slice());
    proof {
        assert(r@ =~= responder_name());
    }
    r
}

/// Drive the selection state with one token of `this` direction.
fn classify_exec(this: &mut OneDirection, other: &mut OneDirection, tok: &Vec<u8>)
    ensures
        final(this)@ == classify(old(this)@, old(other)@, tok@).0,
        final(other)@ == classify(old(this)@, old(other)@, tok@).1,
{
    let ms: [u8; 13] = [47, 109, 117, 108, 116, 105, 115, 116, 114, 101, 97, 109, 47];
    let sc: [u8; 28] = [
        47, 108, 105, 98, 112, 50, 112, 47, 115, 105, 109, 117, 108, 116, 97, 110, 101, 111, 117,
        115, 45, 99, 111, 110, 110, 101, 99, 116,
    ];
    let sel: [u8; 6] = [115, 101, 108, 101, 99, 116];
    proof {
        assert(ms@ =~= multistream_prefix());
        assert(sc@ =~= simultaneous_connect_prefix());
        assert(sel@ =~= select_prefix());
    }
    if bytes_has_prefix(tok.as_slice(), ms.as_slice()) {
    } else if bytes_has_prefix(tok.as_slice(), sc.as_slice()) {
        this.simultaneous_connect = true;
    } else if tok.len() == 2 && tok[0] == 110 && tok[1] == 97 {
        proof {
            assert(tok@ =~= na_lit());
        }
        if other.simultaneous_connect {
            other.simultaneous_connect = false;
        } else {
            other.done = None;
        }
    } else if bytes_has_prefix(tok.as_slice(), sel.as_slice()) {
        this.simultaneous_connect = false;
    } else if !this.simultaneous_connect && !other.simultaneous_connect {
        proof {
            if tok@ == na_lit() {
                assert(tok@.len() == 2 && tok@[0] == 110 && tok@[1] == 97);
            }
        }
        this.done = Some(copy_bytes(tok));
    } else {
        proof {
            if tok@ == na_lit() {
                assert(tok@.len() == 2 && tok@[0] == 110 && tok@[1] == 97);
            }
        }
    }
}

/// Poll one direction (`this`) with a chunk of its stream.
fn poll_pair(this: &mut OneDirection, other: &mut OneDirection, bytes: &[u8]) -> (r: Output)
    ensures
        final(this)@ == poll_model(old(this)@, old(other)@, bytes@).0,
        final(other)@ == poll_model(old(this)@, old(other)@, bytes@).1,
        r@ == poll_model(old(this)@, old(other)@, bytes@).2,
{
    let ready: bool = if this.done.is_some() && other.done.is_some() {
        bytes_eq(this.done.as_ref().unwrap().as_slice(), other.done.as_ref().unwrap().as_slice())
    } else {
        false
    };
    proof {
        assert(ready == agreement_ready(old(this)@, old(other)@));
    }
    if ready {
        let proto = copy_bytes(this.done.as_ref().unwrap());
        let fwd = this.inner.end(bytes);
        let r = Output { tokens: Vec::new(), error: None, agreed: Some((proto, fwd)) };
        proof {
            let want = poll_model(old(this)@, old(other)@, bytes@).2;
            assert(r@.tokens =~= want.tokens);
            assert(r@ == want);
        }
        r
    } else {
        this.inner.append(bytes);
        let ghost full = run(this@, other@);
        let mut tokens: Vec<Vec<u8>> = Vec::new();
        let mut error: Option<Vec<u8>> = None;
        let mut finished: bool = false;
        proof {
            assert(tokens@.map_values(|t: Vec<u8>| t@) =~= Seq::<Seq<u8>>::empty());
        }
        while !finished
            invariant
                old(other)@.simultaneous_connect == other@.simultaneous_connect
                    || old(other)@.simultaneous_connect != other@.simultaneous_connect,
                full == run(
                    DirModel { acc: old(this)@.acc + bytes@, ..old(this)@ },
                    old(other)@,
                ),
                !finished ==> error is None,
                !finished ==> ({
                    let cur = run(this@, other@);
                    &&& full.this == cur.this
                    &&& full.other == cur.other
                    &&& full.error == cur.error
                    &&& full.tokens == tokens@.map_values(|t: Vec<u8>| t@) + cur.tokens
                }),
                finished ==> ({
                    &&& full.this == this@
                    &&& full.other == other@
                    &&& full.tokens == tokens@.map_values(|t: Vec<u8>| t@)
                    &&& match (full.error, error) {
                        (None, None) => true,
                        (Some(m), Some(ref v)) => v@ == m,
                        _ => false,
                    }
                }),
            decreases this@.acc.len(), (if finished { 0int } else { 1int }),
        {
            let ghost pre_this = this@;
            let ghost pre_other = other@;
            let ghost toks_pre = tokens@.map_values(|t: Vec<u8>| t@);
            let polled = this.inner.poll();
            match polled {
                None => {
                    finished = true;
                },
                Some(Ok(tokenizer::Output::InitiatorToken)) => {
                    proof {
                        tokenizer::lemma_step_consumes(pre_this.acc);
                    }
                    tokens.push(initiator_name_bytes());
                    proof {
                        assert(tokens@.map_values(|t: Vec<u8>| t@) =~= toks_pre + seq![
                            initiator_name(),
                        ]);
                        let cur = run(this@, other@);
                        assert(full.tokens =~= tokens@.map_values(|t: Vec<u8>| t@) + cur.tokens);
                    }
                },
                Some(Ok(tokenizer::Output::ResponderToken)) => {
                    proof {
                        tokenizer::lemma_step_consumes(pre_this.acc);
                    }
                    tokens.push(responder_name_bytes());
                    proof {
                        assert(tokens@.map_values(|t: Vec<u8>| t@) =~= toks_pre + seq![
                            responder_name(),
                        ]);
                        let cur = run(this@, other@);
                        assert(full.tokens =~= tokens@.map_values(|t: Vec<u8>| t@) + cur.tokens);
                    }
                },
                Some(Ok(tokenizer::Output::String(s))) => {
                    proof {
                        tokenizer::lemma_step_consumes(pre_this.acc);
                    }
                    let scopy = copy_bytes(&s);
                    tokens.push(scopy);
                    classify_exec(this, other, &s);
                    proof {
                        assert(tokens@.map_values(|t: Vec<u8>| t@) =~= toks_pre + seq![s@]);
                        let cur = run(this@, other@);
                        assert(full.tokens =~= tokens@.map_values(|t: Vec<u8>| t@) + cur.tokens);
                    }
                },
                Some(Err(raw)) => {
                    proof {
                        tokenizer::lemma_step_consumes(pre_this.acc);
                    }
                    error = Some(raw);
                    finished = true;
                    proof {
                        assert(full.tokens =~= toks_pre);
                    }
                },
            }
        }
        let r = Output { tokens, error, agreed: None };
        proof {
            let want = poll_model(old(this)@, old(other)@, bytes@).2;
            assert(r@.tokens == full.tokens);
            assert(r@ == want);
        }
        r
    }
}

impl Default for State {
    /// A fresh negotiation: both directions empty.
    fn default() -> (r: State)
        ensures
            r@.0 == (DirModel {
                acc: Seq::<u8>::empty(),
                simultaneous_connect: false,
                done: None::<Seq<u8>>,
            }),
            r@.1 == (DirModel {
                acc: Seq::<u8>::empty(),
                simultaneous_connect: false,
                done: None::<Seq<u8>>,
            }),
    {
        State::new()
    }
}

impl State {
    /// A fresh negotiation: both directions empty.
    pub fn new() -> (r: State)
        ensures
            r@.0 == (DirModel {
                acc: Seq::<u8>::empty(),
                simultaneous_connect: false,
                done: None::<Seq<u8>>,
            }),
            r@.1 == (DirModel {
                acc: Seq::<u8>::empty(),
                simultaneous_connect: false,
                done: None::<Seq<u8>>,
            }),
    {
        State { incoming: OneDirection::new(), outgoing: OneDirection::new() }
    }

    /// Feed a chunk of one direction's stream and read what it produced.
    /// `incoming` names the direction the chunk belongs to.
    pub fn poll(&mut self, incoming: bool, bytes: &[u8]) -> (r: Output)
        ensures
            ({
                let t0 = if incoming {
                    old(self)@.0
                } else {
                    old(self)@.1
                };
                let o0 = if incoming {
                    old(self)@.1
                } else {
                    old(self)@.0
                };
                let t1 = if incoming {
                    final(self)@.0
                } else {
                    final(self)@.1
                };
                let o1 = if incoming {
                    final(self)@.1
                } else {
                    final(self)@.0
                };
                &&& t1 == poll_model(t0, o0, bytes@).0
                &&& o1 == poll_model(t0, o0, bytes@).1
                &&& r@ == poll_model(t0, o0, bytes@).2
            }),
    {
        if incoming {
            poll_pair(&mut self.incoming, &mut self.outgoing, bytes)
        } else {
            poll_pair(&mut self.outgoing, &mut self.incoming, bytes)
        }
    }
}

} // verus!
