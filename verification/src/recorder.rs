//! The per-connection recorder: it keys a multistream-select pipeline by
//! connection identity, feeds each connection's byte chunks into the right
//! pipeline, and queues observed randomness for the decryption layers.

use vstd::prelude::*;
use std::collections::VecDeque;
use vstd::slice::slice_to_vec;
use crate::multistream_select;
use crate::multistream_select::{fresh_state, on_data_model, StateModel};
use crate::sniffer_event::SocketAddress;

verus! {

/// The identity of one observed connection: the process alias, the remote
/// address, and the process and descriptor the bytes flow through.
#[derive(Debug, Clone, PartialEq, Eq)]
pub struct ConnectionId {
    pub alias: Vec<u8>,
    pub addr: SocketAddress,
    pub pid: u32,
    pub fd: u32,
}

/// `ConnectionId`, as the contracts speak of it.
pub struct ConnIdModel {
    pub alias: Seq<u8>,
    pub addr: SocketAddress,
    pub pid: u32,
    pub fd: u32,
}

impl View for ConnectionId {
    type V = ConnIdModel;

    open spec fn view(&self) -> ConnIdModel {
        ConnIdModel { alias: self.alias@, addr: self.addr, pid: self.pid, fd: self.fd }
    }
}

/// Shared observations that outlive single connections: the randomness
/// samples seen so far, each under the alias of the process that drew it,
/// newest pushed last.
pub struct Cx {
    randomness: VecDeque<(Vec<u8>, [u8; 32])>,
}

impl View for Cx {
    type V = Seq<(Seq<u8>, [u8; 32])>;

    closed spec fn view(&self) -> Seq<(Seq<u8>, [u8; 32])> {
        self.randomness@.map_values(|e: (Vec<u8>, [u8; 32])| (e.0@, e.1))
    }
}

/// Every remembered sample, newest first.
pub open spec fn samples_newest_first(q: Seq<(Seq<u8>, [u8; 32])>) -> Seq<[u8; 32]>
    decreases q.len(),
{
    if q.len() == 0 {
        Seq::empty()
    } else {
        seq![q.last().1] + samples_newest_first(q.drop_last())
    }
}

/// The samples drawn under one alias, newest first.
pub open spec fn samples_for(q: Seq<(Seq<u8>, [u8; 32])>, alias: Seq<u8>) -> Seq<[u8; 32]>
    decreases q.len(),
{
    if q.len() == 0 {
        Seq::empty()
    } else if q.last().0 == alias {
        seq![q.last().1] + samples_for(q.drop_last(), alias)
    } else {
        samples_for(q.drop_last(), alias)
    }
}

impl Default for Cx {
    /// No randomness seen yet.
    fn default() -> (r: Cx)
        ensures
            r@ == Seq::<(Seq<u8>, [u8; 32])>::empty(),
    {
        Cx::new()
    }
}

impl Cx {
    /// No randomness seen yet.
    pub fn new() -> (r: Cx)
        ensures
            r@ == Seq::<(Seq<u8>, [u8; 32])>::empty(),
    {
        let r = Cx { randomness: VecDeque::new() };
        proof {
            assert(r@ =~= Seq::<(Seq<u8>, [u8; 32])>::empty());
        }
        r
    }

    /// Remember one observed randomness sample under its process's alias.
    pub fn push_randomness(&mut self, alias: Vec<u8>, bytes: [u8; 32])
        ensures
            final(self)@ == old(self)@.push((alias@, bytes)),
    {
        self.randomness.push_back((alias, bytes));
        proof {
            assert(self@ =~= old(self)@.push((alias@, bytes)));
        }
    }

    /// Every remembered sample, newest first.
    pub fn iter_rand(&self) -> (r: Vec<[u8; 32]>)
        ensures
            r@ == samples_newest_first(self@),
    {
        let n = self.randomness.len();
        let mut out: Vec<[u8; 32]> = Vec::new();
        let mut i: usize = n;
        proof {
            assert(self@.subrange(0, n as int) =~= self@);
        }
        while i > 0
            invariant
                i <= n,
                n == self@.len(),
                out@ + samples_newest_first(self@.subrange(0, i as int)) == samples_newest_first(
                    self@,
                ),
            decreases i,
        {
            i -= 1;
            let sample = self.randomness[i].1;
            proof {
                let part = self@.subrange(0, i + 1);
                assert(part.last() == self@[i as int]);
                assert(part.drop_last() =~= self@.subrange(0, i as int));
                assert(self@[i as int].1 == sample);
            }
            let ghost out_pre = out@;
            out.push(sample);
            proof {
                assert(out@ + samples_newest_first(self@.subrange(0, i as int)) =~= out_pre
                    + samples_newest_first(self@.subrange(0, i + 1)));
            }
        }
        proof {
            assert(samples_newest_first(self@.subrange(0, 0)) =~= Seq::<[u8; 32]>::empty());
            assert(out@ + Seq::<[u8; 32]>::empty() =~= out@);
        }
        out
    }

    /// The samples drawn under one alias, newest first.
    pub fn iter_rand_for(&self, alias: &[u8]) -> (r: Vec<[u8; 32]>)
        ensures
            r@ == samples_for(self@, alias@),
    {
        let n = self.randomness.len();
        let mut out: Vec<[u8; 32]> = Vec::new();
        let mut i: usize = n;
        proof {
            assert(self@.subrange(0, n as int) =~= self@);
        }
        while i > 0
            invariant
                i <= n,
                n == self@.len(),
                out@ + samples_for(self@.subrange(0, i as int), alias@) == samples_for(
                    self@,
                    alias@,
                ),
            decreases i,
        {
            i -= 1;
            proof {
                let part = self@.subrange(0, i + 1);
                assert(part.last() == self@[i as int]);
                assert(part.drop_last() =~= self@.subrange(0, i as int));
            }
            if bytes_eq(self.randomness[i].0.as_slice(), alias) {
                let sample = self.randomness[i].1;
                proof {
                    assert(self@[i as int].1 == sample);
                }
                let ghost out_pre = out@;
                out.push(sample);
                proof {
                    assert(out@ + samples_for(self@.subrange(0, i as int), alias@) =~= out_pre
                        + samples_for(self@.subrange(0, i + 1), alias@));
                }
            }
        }
        proof {
            assert(samples_for(self@.subrange(0, 0), alias@) =~= Seq::<[u8; 32]>::empty());
            assert(out@ + Seq::<[u8; 32]>::empty() =~= out@);
        }
        out
    }
}

/// Whether some entry of the table carries this identity.
pub open spec fn has_key(s: Seq<(ConnIdModel, StateModel)>, id: ConnIdModel) -> bool {
    exists|i: int| 0 <= i < s.len() && s[i].0 == id
}

/// No identity owns two pipelines.
pub open spec fn recorder_wf(s: Seq<(ConnIdModel, StateModel)>) -> bool {
    forall|i: int, j: int| 0 <= i < j < s.len() ==> s[i].0 != s[j].0
}

/// The recorder: one multistream-select pipeline per live connection, and
/// the shared observation state.
pub struct P2pRecorder {
    cns: Vec<(ConnectionId, multistream_select::State)>,
    cx: Cx,
}

/// `P2pRecorder`, as the contracts speak of it: the pipeline table and the
/// randomness queue.
pub struct RecorderModel {
    pub cns: Seq<(ConnIdModel, StateModel)>,
    pub randomness: Seq<(Seq<u8>, [u8; 32])>,
}

impl View for P2pRecorder {
    type V = RecorderModel;

    closed spec fn view(&self) -> RecorderModel {
        RecorderModel {
            cns: self.cns@.map_values(|e: (ConnectionId, multistream_select::State)| (e.0@, e.1@)),
            randomness: self.cx@,
        }
    }
}

/// Whether two addresses are the same.
fn addr_eq(a: &SocketAddress, b: &SocketAddress) -> (r: bool)
    ensures
        r == (a == b),
{
    match (a, b) {
        (
            SocketAddress::V4 { ip: ia, port: pa },
            SocketAddress::V4 { ip: ib, port: pb },
        ) => *ia == *ib && *pa == *pb,
        (
            SocketAddress::V6 { ip: ia, port: pa },
            SocketAddress::V6 { ip: ib, port: pb },
        ) => *ia == *ib && *pa == *pb,
        _ => false,
    }
}

/// Whether two byte strings are equal.
fn bytes_eq(a: &[u8], b: &[u8]) -> (r: bool)
    ensures
        r == (a@ == b@),
{
    if a.len() != b.len() {
        return false;
    }
    let mut i: usize = 0;
    while i < a.len()
        invariant
            a@.len() == b@.len(),
            i <= a@.len(),
            forall|j: int| 0 <= j < i ==> a@[j] == b@[j],
        decreases a@.len() - i,
    {
        if a[i] != b[i] {
            return false;
        }
        i += 1;
    }
    proof {
        assert(a@ =~= b@);
    }
    true
}

/// Whether two identities are the same.
fn id_eq(a: &ConnectionId, b: &ConnectionId) -> (r: bool)
    ensures
        r == (a@ == b@),
{
    a.pid == b.pid && a.fd == b.fd && addr_eq(&a.addr, &b.addr) && bytes_eq(
        a.alias.as_slice(),
        b.alias.as_slice(),
    )
}

impl Default for P2pRecorder {
    /// No connections, no randomness.
    fn default() -> (r: P2pRecorder)
        ensures
            r@.cns == Seq::<(ConnIdModel, StateModel)>::empty(),
            r@.randomness == Seq::<(Seq<u8>, [u8; 32])>::empty(),
            recorder_wf(r@.cns),
    {
        P2pRecorder::new()
    }
}

impl P2pRecorder {
    /// No connections, no randomness.
    pub fn new() -> (r: P2pRecorder)
        ensures
            r@.cns == Seq::<(ConnIdModel, StateModel)>::empty(),
            r@.randomness == Seq::<(Seq<u8>, [u8; 32])>::empty(),
            recorder_wf(r@.cns),
    {
        let r = P2pRecorder { cns: Vec::new(), cx: Cx::new() };
        proof {
            assert(r@.cns =~= Seq::<(ConnIdModel, StateModel)>::empty());
        }
        r
    }

    /// The index of this identity's pipeline, if one is live.
    fn find(&self, id: &ConnectionId) -> (r: Option<usize>)
        ensures
            match r {
                Some(i) => i < self@.cns.len() && self@.cns[i as int].0 == id@,
                None => !has_key(self@.cns, id@),
            },
    {
        let mut i: usize = 0;
        while i < self.cns.len()
            invariant
                i <= self@.cns.len(),
                forall|j: int| 0 <= j < i ==> self@.cns[j].0 != id@,
            decreases self@.cns.len() - i,
        {
            if id_eq(&self.cns[i].0, id) {
                return Some(i);
            }
            i += 1;
        }
        None
    }

    /// A connection appeared: give its identity a fresh pipeline. An
    /// identity already live has its pipeline replaced by the fresh one.
    pub fn on_connect(&mut self, incoming: bool, alias: Vec<u8>, addr: SocketAddress, pid: u32, fd: u32)
        requires
            recorder_wf(old(self)@.cns),
        ensures
            recorder_wf(final(self)@.cns),
            final(self)@.randomness == old(self)@.randomness,
            ({
                let id = ConnIdModel { alias: alias@, addr, pid, fd };
                let entry = (id, fresh_state(0, true));
                if has_key(old(self)@.cns, id) {
                    exists|i: int|
                        0 <= i < old(self)@.cns.len() && old(self)@.cns[i].0 == id && final(self)@.cns == old(self)@.cns.update(i, entry)
                } else {
                    final(self)@.cns == old(self)@.cns.push(entry)
                }
            }),
    {
        let id = ConnectionId { alias, addr, pid, fd };
        let fresh = multistream_select::State::new(0, true);
        match self.find(&id) {
            Some(i) => {
                self.cns.remove(i);
                self.cns.insert(i, (id, fresh));
                proof {
                    assert(self@.cns =~= old(self)@.cns.update(i as int, (id@, fresh_state(0, true))));
                }
            },
            None => {
                self.cns.push((id, fresh));
                proof {
                    assert(self@.cns =~= old(self)@.cns.push((id@, fresh_state(0, true))));
                }
            },
        }
    }

    /// A connection went away: drop its pipeline.
    pub fn on_disconnect(&mut self, alias: Vec<u8>, addr: SocketAddress, pid: u32, fd: u32)
        requires
            recorder_wf(old(self)@.cns),
        ensures
            recorder_wf(final(self)@.cns),
            final(self)@.randomness == old(self)@.randomness,
            ({
                let id = ConnIdModel { alias: alias@, addr, pid, fd };
                if has_key(old(self)@.cns, id) {
                    exists|i: int|
                        0 <= i < old(self)@.cns.len() && old(self)@.cns[i].0 == id && final(self)@.cns == old(self)@.cns.remove(i)
                } else {
                    final(self)@.cns == old(self)@.cns
                }
            }),
    {
        let id = ConnectionId { alias, addr, pid, fd };
        match self.find(&id) {
            Some(i) => {
                self.cns.remove(i);
                proof {
                    assert(self@.cns =~= old(self)@.cns.remove(i as int));
                }
            },
            None => {},
        }
    }

    /// A connection's bytes arrived: feed them to its pipeline and hand
    /// back what the pipeline made of them. Bytes of an identity that is
    /// not live are dropped.
    pub fn on_data(
        &mut self,
        incoming: bool,
        alias: Vec<u8>,
        addr: SocketAddress,
        pid: u32,
        fd: u32,
        bytes: &[u8],
    ) -> (r: Option<multistream_select::Output>)
        requires
            recorder_wf(old(self)@.cns),
        ensures
            recorder_wf(final(self)@.cns),
            final(self)@.randomness == old(self)@.randomness,
            ({
                let id = ConnIdModel { alias: alias@, addr, pid, fd };
                if has_key(old(self)@.cns, id) {
                    exists|i: int|
                        {
                            &&& 0 <= i < old(self)@.cns.len()
                            &&& old(self)@.cns[i].0 == id
                            &&& final(self)@.cns == old(self)@.cns.update(
                                i,
                                (id, on_data_model(old(self)@.cns[i].1, incoming, bytes@).0),
                            )
                            &&& r matches Some(out) && out@ == on_data_model(
                                old(self)@.cns[i].1,
                                incoming,
                                bytes@,
                            ).1
                        }
                } else {
                    r is None && final(self)@.cns == old(self)@.cns
                }
            }),
    {
        let id = ConnectionId { alias, addr, pid, fd };
        match self.find(&id) {
            Some(i) => {
                let (cid, mut pipe) = self.cns.remove(i);
                let out = pipe.on_data(incoming, bytes);
                let ghost pipe1 = pipe@;
                self.cns.insert(i, (cid, pipe));
                proof {
                    assert(self@.cns =~= old(self)@.cns.update(i as int, (id@, pipe1)));
                }
                Some(out)
            },
            None => None,
        }
    }

    /// An observed randomness sample arrived from the process with this
    /// alias: it joins that alias's queue for the decryption layers.
    pub fn on_randomness(&mut self, alias: Vec<u8>, bytes: [u8; 32])
        ensures
            final(self)@.cns == old(self)@.cns,
            final(self)@.randomness == old(self)@.randomness.push((alias@, bytes)),
    {
        self.cx.push_randomness(alias, bytes);
    }

    /// The samples drawn under one alias, newest first.
    pub fn iter_rand_for(&self, alias: &[u8]) -> (r: Vec<[u8; 32]>)
        ensures
            r@ == samples_for(self@.randomness, alias@),
    {
        self.cx.iter_rand_for(alias)
    }
}

} // verus!
