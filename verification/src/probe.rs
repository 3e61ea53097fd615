//! The kernel-side syscall tap, as the decisions it makes: which processes
//! are tracked, which syscall each thread has in flight, which sockets are
//! live, and which record each syscall exit emits into the ring. The
//! tracepoint plumbing and the reads of user memory live with the caller,
//! who hands in the values those reads produced; everything decided from
//! them is here.

use vstd::prelude::*;
use vstd::slice::{slice_subrange, slice_to_vec};
use std::collections::{HashMap, HashSet};
use crate::event::{event_bytes, le16, read_le16, DataTag, Event};

verus! {

broadcast use vstd::std_specs::hash::group_hash_axioms;

/// Tracked processes at most.
pub const PID_CAPACITY: usize = 0x1000;

/// In-flight syscalls at most.
pub const CONTEXT_CAPACITY: usize = 0x100;

/// Live sockets at most.
pub const CONNECTION_CAPACITY: usize = 0x4000;

/// Environment entries examined at most during one `execve`.
pub const ENV_ENTRY_LIMIT: usize = 0x100;

/// Bytes of one environment entry examined at most, terminator included.
pub const ENV_ENTRY_BYTES: usize = 0x200;

/// The arguments an enter handler stored for a thread's in-flight syscall.
#[derive(Clone, Copy, Debug, PartialEq, Eq, Structural)]
pub enum ContextVariant {
    Empty { ptr: u64, len: u64 },
    Bind { fd: u32, addr_ptr: u64, addr_len: u64 },
    Connect { fd: u32, addr_ptr: u64, addr_len: u64 },
    Accept { listen_on_fd: u32, addr_ptr: u64, addr_len: u64 },
    Write { fd: u32, data_ptr: u64 },
    Read { fd: u32, data_ptr: u64 },
    Send { fd: u32, data_ptr: u64 },
    Recv { fd: u32, data_ptr: u64 },
    GetRandom { data_ptr: u64, data_len: u64 },
}

/// A stored in-flight syscall: its arguments and its enter timestamp.
#[derive(Clone, Copy, Debug, PartialEq, Eq, Structural)]
pub struct Parameters {
    pub data: ContextVariant,
    pub ts: u64,
}

/// Lengths that fit the record's signed size field.
pub open spec fn variant_wf(v: ContextVariant) -> bool {
    match v {
        ContextVariant::Empty { len, .. } => len <= 0x7fffffff,
        ContextVariant::Bind { addr_len, .. } => addr_len <= 0x7fffffff,
        ContextVariant::Connect { addr_len, .. } => addr_len <= 0x7fffffff,
        ContextVariant::Accept { addr_len, .. } => addr_len <= 0x7fffffff,
        ContextVariant::Write { .. } => true,
        ContextVariant::Read { .. } => true,
        ContextVariant::Send { .. } => true,
        ContextVariant::Recv { .. } => true,
        ContextVariant::GetRandom { data_len, .. } => data_len <= 0x7fffffff,
    }
}

/// A record the probe reserves in the ring: the header and the payload
/// copied from user memory.
#[derive(Debug, Clone, PartialEq, Eq)]
pub struct EmittedRecord {
    pub header: Event,
    pub payload: Vec<u8>,
}

/// `EmittedRecord`, as the contracts speak of it.
pub struct RecordModel {
    pub header: Event,
    pub payload: Seq<u8>,
}

impl View for EmittedRecord {
    type V = RecordModel;

    open spec fn view(&self) -> RecordModel {
        RecordModel { header: self.header, payload: self.payload@ }
    }
}

impl EmittedRecord {
    /// The record as its ring bytes: the 32-byte header, then the payload.
    pub fn to_bytes(&self) -> (r: Vec<u8>)
        ensures
            r@ == event_bytes(self.header) + self.payload@,
    {
        let mut out = self.header.to_bytes();
        let mut i: usize = 0;
        while i < self.payload.len()
            invariant
                i <= self.payload@.len(),
                out@ == event_bytes(self.header) + self.payload@.subrange(0, i as int),
            decreases self.payload@.len() - i,
        {
            out.push(self.payload[i]);
            proof {
                assert(event_bytes(self.header) + self.payload@.subrange(0, i as int) + seq![
                    self.payload@[i as int],
                ] =~= event_bytes(self.header) + self.payload@.subrange(0, i + 1));
            }
            i += 1;
        }
        proof {
            assert(self.payload@.subrange(0, self.payload@.len() as int) =~= self.payload@);
        }
        out
    }
}

/// The probe's tables, as the contracts speak of them.
pub struct ProbeModel {
    pub tracked_pids: Set<u32>,
    pub pending: Map<u32, Parameters>,
    pub connections: Set<u64>,
}

/// Every stored in-flight syscall has lengths that fit the record format.
pub open spec fn probe_wf(m: ProbeModel) -> bool {
    forall|t: u32| #[trigger] m.pending.dom().contains(t) ==> variant_wf(m.pending[t].data)
}

/// The probe's tables: the tracked process set, the per-thread in-flight
/// syscall, and the live socket set.
pub struct ProbeState {
    tracked_pids: HashSet<u32>,
    pending: HashMap<u32, Parameters>,
    connections: HashSet<u64>,
}

impl View for ProbeState {
    type V = ProbeModel;

    closed spec fn view(&self) -> ProbeModel {
        ProbeModel {
            tracked_pids: self.tracked_pids@,
            pending: self.pending@,
            connections: self.connections@,
        }
    }
}

/// The socket id of a descriptor in a process: the descriptor in the upper
/// half, the process in the lower.
pub open spec fn spec_socket_id(fd: u32, pid: u32) -> u64 {
    (((fd as u64) << 32) + pid as u64) as u64
}

/// The socket id of a descriptor in a process.
pub fn socket_id(fd: u32, pid: u32) -> (r: u64)
    ensures
        r == spec_socket_id(fd, pid),
{
    proof {
        let f = fd as u64;
        let p = pid as u64;
        assert(f < 0x100000000 && p < 0x100000000 ==> (f << 32) + p <= u64::MAX) by (bit_vector);
    }
    ((fd as u64) << 32) + pid as u64
}

/// Socket ids are one to one: two descriptor-process pairs with the same id
/// are the same pair.
pub proof fn lemma_socket_id_injective(fd1: u32, pid1: u32, fd2: u32, pid2: u32)
    requires
        spec_socket_id(fd1, pid1) == spec_socket_id(fd2, pid2),
    ensures
        fd1 == fd2 && pid1 == pid2,
{
    let f1 = fd1 as u64;
    let p1 = pid1 as u64;
    let f2 = fd2 as u64;
    let p2 = pid2 as u64;
    assert(f1 < 0x100000000 && p1 < 0x100000000 ==> (f1 << 32) + p1 <= u64::MAX) by (bit_vector);
    assert(f2 < 0x100000000 && p2 < 0x100000000 ==> (f2 << 32) + p2 <= u64::MAX) by (bit_vector);
    assert((f1 < 0x100000000 && p1 < 0x100000000 && f2 < 0x100000000 && p2 < 0x100000000 && (f1
        << 32) + p1 == (f2 << 32) + p2) ==> (f1 == f2 && p1 == p2)) by (bit_vector);
}

/// The nine bytes of `"BPF_ALIAS"`.
pub open spec fn alias_prefix() -> Seq<u8> {
    seq![66u8, 80u8, 70u8, 95u8, 65u8, 76u8, 73u8, 65u8, 83u8]
}

/// The alias one environment entry carries: for an entry that starts with
/// `BPF_ALIAS`, the suffix after the `=`, else nothing. Only the first 511
/// bytes of an entry are examined, as only that many fit the probe's copy
/// buffer beside the terminator.
pub open spec fn spec_env_alias(entry: Seq<u8>) -> Option<Seq<u8>> {
    let e = if entry.len() > 511 {
        entry.subrange(0, 511)
    } else {
        entry
    };
    if e.len() >= 9 && e.subrange(0, 9) == alias_prefix() {
        if e.len() >= 10 {
            Some(e.subrange(10, e.len() as int))
        } else {
            Some(Seq::empty())
        }
    } else {
        None
    }
}

/// The first alias among the first 256 environment entries, starting at
/// entry `i`.
pub open spec fn spec_scan_env(envp: Seq<Seq<u8>>, i: nat) -> Option<Seq<u8>>
    decreases envp.len() - i,
{
    if i >= envp.len() || i >= 256 {
        None
    } else {
        match spec_env_alias(envp[i as int]) {
            Some(a) => Some(a),
            None => spec_scan_env(envp, i + 1),
        }
    }
}

/// Read the alias out of one environment entry, if it carries one.
pub fn check_env_entry(entry: &[u8]) -> (r: Option<Vec<u8>>)
    ensures
        match r {
            Some(a) => spec_env_alias(entry@) == Some(a@) && a@.len() <= 501,
            None => spec_env_alias(entry@) is None,
        },
{
    let n = if entry.len() > 511 {
        511
    } else {
        entry.len()
    };
    let ghost e = if entry@.len() > 511 {
        entry@.subrange(0, 511)
    } else {
        entry@
    };
    proof {
        assert(e.len() == n);
        assert(forall|j: int| 0 <= j < n ==> e[j] == entry@[j]);
    }
    if n < 9 {
        return None;
    }
    let prefix_ok = entry[0] == 66 && entry[1] == 80 && entry[2] == 70 && entry[3] == 95
        && entry[4] == 65 && entry[5] == 76 && entry[6] == 73 && entry[7] == 65 && entry[8] == 83;
    proof {
        assert(forall|j: int| 0 <= j < 9 ==> e.subrange(0, 9)[j] == e[j]);
        if prefix_ok {
            assert(e.subrange(0, 9) =~= alias_prefix());
        } else {
            if e.subrange(0, 9) == alias_prefix() {
                assert(false);
            }
        }
    }
    if !prefix_ok {
        return None;
    }
    if n < 10 {
        let a: Vec<u8> = Vec::new();
        proof {
            assert(a@ =~= Seq::<u8>::empty());
        }
        return Some(a);
    }
    let a = slice_to_vec(slice_subrange(entry, 10, n));
    proof {
        assert(a@ =~= e.subrange(10, e.len() as int));
    }
    Some(a)
}

impl ProbeState {
    /// Empty tables.
    pub fn new() -> (r: ProbeState)
        ensures
            r@.tracked_pids == Set::<u32>::empty(),
            r@.pending == Map::<u32, Parameters>::empty(),
            r@.connections == Set::<u64>::empty(),
            probe_wf(r@),
    {
        ProbeState {
            tracked_pids: HashSet::new(),
            pending: HashMap::new(),
            connections: HashSet::new(),
        }
    }

    /// Whether this process is tracked.
    pub fn check_pid(&self, pid: u32) -> (r: bool)
        ensures
            r == self@.tracked_pids.contains(pid),
    {
        self.tracked_pids.contains(&pid)
    }

    /// Whether this socket id is live.
    pub fn check_connection(&self, sid: u64) -> (r: bool)
        ensures
            r == self@.connections.contains(sid),
    {
        self.connections.contains(&sid)
    }

    /// Scan the environment of a process being exec'ed. The first
    /// `BPF_ALIAS` entry yields an alias record for the ring, and the
    /// process joins the tracked set (unless the set is full, in which case
    /// the record still goes out).
    pub fn check_env_flag(&mut self, pid: u32, ts: u64, envp: &Vec<Vec<u8>>) -> (r: Option<
        EmittedRecord,
    >)
        requires
            probe_wf(old(self)@),
        ensures
            probe_wf(final(self)@),
            scan_outcome(
                old(self)@,
                final(self)@,
                pid,
                ts,
                envp@.map_values(|v: Vec<u8>| v@),
                r,
            ),
    {
        let ghost env = envp@.map_values(|v: Vec<u8>| v@);
        let mut i: usize = 0;
        while i < envp.len() && i < ENV_ENTRY_LIMIT
            invariant
                i <= envp@.len(),
                i <= 256,
                self@ == old(self)@,
                probe_wf(old(self)@),
                env == envp@.map_values(|v: Vec<u8>| v@),
                spec_scan_env(env, 0) == spec_scan_env(env, i as nat),
            decreases envp@.len() - i,
        {
            match check_env_entry(envp[i].as_slice()) {
                Some(alias) => {
                    proof {
                        assert(env[i as int] == envp@[i as int]@);
                        assert(spec_scan_env(env, i as nat) == Some(alias@));
                    }
                    let header = Event::new(pid, ts, ts).set_tag_fd(DataTag::Alias, 0).set_ok(
                        alias.len() as u64,
                    );
                    if self.tracked_pids.contains(&pid) || self.tracked_pids.len() < PID_CAPACITY {
                        self.tracked_pids.insert(pid);
                    }
                    return Some(EmittedRecord { header, payload: alias });
                },
                None => {
                    proof {
                        assert(env[i as int] == envp@[i as int]@);
                        assert(spec_scan_env(env, i as nat) == spec_scan_env(env, i as nat + 1));
                    }
                    i += 1;
                },
            }
        }
        proof {
            assert(spec_scan_env(env, i as nat) is None);
        }
        None
    }

    /// The `execve` enter handler: scan the new environment for a
    /// `BPF_ALIAS` entry, emit its alias record and track the process.
    pub fn execve(&mut self, pid: u32, ts: u64, envp: &Vec<Vec<u8>>) -> (r: Option<EmittedRecord>)
        requires
            probe_wf(old(self)@),
        ensures
            probe_wf(final(self)@),
            scan_outcome(
                old(self)@,
                final(self)@,
                pid,
                ts,
                envp@.map_values(|v: Vec<u8>| v@),
                r,
            ),
    {
        self.check_env_flag(pid, ts, envp)
    }

    /// The `execveat` enter handler: scan the new environment for a
    /// `BPF_ALIAS` entry, emit its alias record and track the process.
    pub fn execveat(&mut self, pid: u32, ts: u64, envp: &Vec<Vec<u8>>) -> (r: Option<
        EmittedRecord,
    >)
        requires
            probe_wf(old(self)@),
        ensures
            probe_wf(final(self)@),
            scan_outcome(
                old(self)@,
                final(self)@,
                pid,
                ts,
                envp@.map_values(|v: Vec<u8>| v@),
                r,
            ),
    {
        self.check_env_flag(pid, ts, envp)
    }

    /// An enter handler: store the syscall's arguments under the thread
    /// until its exit arrives. An untracked process is ignored; a full
    /// table refuses a new thread.
    pub fn enter(&mut self, thread_id: u32, pid: u32, data: ContextVariant, ts: u64) -> (r: Result<
        (),
        i32,
    >)
        requires
            probe_wf(old(self)@),
            variant_wf(data),
        ensures
            probe_wf(final(self)@),
            final(self)@ == spec_enter(old(self)@, thread_id, pid, data, ts).0,
            r == spec_enter(old(self)@, thread_id, pid, data, ts).1,
    {
        if !self.tracked_pids.contains(&pid) {
            return Err(0);
        }
        if self.pending.contains_key(&thread_id) || self.pending.len() < CONTEXT_CAPACITY {
            self.pending.insert(thread_id, Parameters { data, ts });
            Ok(())
        } else {
            Err(-1)
        }
    }

    /// The exit handler shared by all instrumented syscalls: pick up the
    /// stored arguments of this thread's in-flight syscall and judge the
    /// return value. `mem` holds what the syscall's user-memory argument
    /// held at exit.
    pub fn exit(&mut self, thread_id: u32, pid: u32, ret: i64, ts1: u64, mem: &[u8]) -> (r: Result<
        Option<EmittedRecord>,
        i32,
    >)
        requires
            probe_wf(old(self)@),
            -0x80000000 <= ret <= 0x7fffffff,
        ensures
            probe_wf(final(self)@),
            ({
                if !old(self)@.tracked_pids.contains(pid) {
                    r == Err::<Option<EmittedRecord>, i32>(0) && final(self)@ == old(self)@
                } else if !old(self)@.pending.dom().contains(thread_id) {
                    r == Err::<Option<EmittedRecord>, i32>(-1i32) && final(self)@ == old(self)@
                } else {
                    let params = old(self)@.pending[thread_id];
                    let m1 = ProbeModel {
                        pending: old(self)@.pending.remove(thread_id),
                        ..old(self)@
                    };
                    let out = spec_on_ret(m1, pid, ret, params.data, params.ts, ts1, mem@);
                    &&& final(self)@ == out.model
                    &&& result_matches(r, out.result)
                }
            }),
    {
        if !self.tracked_pids.contains(&pid) {
            return Err(0);
        }
        match self.pending.remove(&thread_id) {
            None => {
                proof {
                    assert(self@.pending =~= old(self)@.pending);
                    assert(self@ == old(self)@);
                }
                Err(-1)
            },
            Some(params) => self.on_ret(pid, ret, params.data, params.ts, ts1, mem),
        }
    }

    /// Judge one syscall return. `EAGAIN` is no event; transfers on sockets
    /// that are not live are dropped; a successful `connect` or `accept4`
    /// makes its socket live — `EINPROGRESS` counts as success there.
    pub fn on_ret(
        &mut self,
        pid: u32,
        ret: i64,
        data: ContextVariant,
        ts0: u64,
        ts1: u64,
        mem: &[u8],
    ) -> (r: Result<Option<EmittedRecord>, i32>)
        requires
            variant_wf(data),
            -0x80000000 <= ret <= 0x7fffffff,
        ensures
            final(self)@ == spec_on_ret(old(self)@, pid, ret, data, ts0, ts1, mem@).model,
            final(self)@.tracked_pids == old(self)@.tracked_pids,
            final(self)@.pending == old(self)@.pending,
            result_matches(r, spec_on_ret(old(self)@, pid, ret, data, ts0, ts1, mem@).result),
            // A connect judged successful — `EINPROGRESS` included — makes
            // its socket live, as long as the set can take it.
            (match data {
                ContextVariant::Connect { fd, .. } => ((ret >= 0 || ret == -115) && spec_addr_ok(
                    mem@,
                ) && (old(self)@.connections.contains(spec_socket_id(fd, pid)) || old(
                    self,
                )@.connections.len() < CONNECTION_CAPACITY)) ==> final(self)@.connections.contains(
                    spec_socket_id(fd, pid),
                ),
                ContextVariant::Accept { .. } => (ret >= 0 && spec_addr_ok(mem@) && (old(
                    self,
                )@.connections.contains(spec_socket_id(ret as u32, pid)) || old(
                    self,
                )@.connections.len() < CONNECTION_CAPACITY)) ==> final(self)@.connections.contains(
                    spec_socket_id(ret as u32, pid),
                ),
                _ => true,
            }),
    {
        if ret == -11 {
            return Ok(None);
        }
        let event = Event::new(pid, ts0, ts1);
        match data {
            ContextVariant::Empty { ptr: _, len } => {
                let e = event.set_tag_fd(DataTag::Debug, 0);
                let e = if ret < 0 {
                    e.set_err(ret)
                } else {
                    e.set_ok(len)
                };
                emit_record(e, mem)
            },
            ContextVariant::Bind { fd, addr_len, .. } => {
                let e = event.set_tag_fd(DataTag::Bind, fd);
                let e = if ret < 0 {
                    e.set_err(ret)
                } else {
                    e.set_ok(addr_len)
                };
                emit_record(e, mem)
            },
            ContextVariant::Connect { fd, addr_len, .. } => {
                if !addr_ok(mem) {
                    return Err(0);
                }
                let e = event.set_tag_fd(DataTag::Connect, fd);
                if ret < 0 && ret != -115 {
                    emit_record(e.set_err(ret), mem)
                } else {
                    let sid = socket_id(fd, pid);
                    if self.connections.contains(&sid) || self.connections.len()
                        < CONNECTION_CAPACITY {
                        self.connections.insert(sid);
                        emit_record(e.set_ok(addr_len), mem)
                    } else {
                        Err(-1)
                    }
                }
            },
            ContextVariant::Accept { listen_on_fd: _, addr_len, .. } => {
                let fd = ret as u32;
                let e = event.set_tag_fd(DataTag::Accept, fd);
                if ret < 0 {
                    emit_record(e.set_err(ret), mem)
                } else if !addr_ok(mem) {
                    Err(0)
                } else {
                    let sid = socket_id(fd, pid);
                    if self.connections.contains(&sid) || self.connections.len()
                        < CONNECTION_CAPACITY {
                        self.connections.insert(sid);
                        emit_record(e.set_ok(addr_len), mem)
                    } else {
                        Err(-1)
                    }
                }
            },
            ContextVariant::Write { fd, .. } => self.on_transfer(pid, ret, fd, ts0, ts1, mem, true),
            ContextVariant::Send { fd, .. } => self.on_transfer(pid, ret, fd, ts0, ts1, mem, true),
            ContextVariant::Read { fd, .. } => self.on_transfer(pid, ret, fd, ts0, ts1, mem, false),
            ContextVariant::Recv { fd, .. } => self.on_transfer(pid, ret, fd, ts0, ts1, mem, false),
            ContextVariant::GetRandom { data_len, .. } => {
                emit_record(event.set_tag_fd(DataTag::Random, 0).set_ok(data_len), mem)
            },
        }
    }

    /// Judge the return of a byte-transfer syscall on a descriptor.
    fn on_transfer(
        &mut self,
        pid: u32,
        ret: i64,
        fd: u32,
        ts0: u64,
        ts1: u64,
        mem: &[u8],
        write: bool,
    ) -> (r: Result<Option<EmittedRecord>, i32>)
        requires
            -0x80000000 <= ret <= 0x7fffffff,
            ret != -11,
        ensures
            final(self)@ == old(self)@,
            result_matches(r, spec_transfer(old(self)@, pid, ret, fd, ts0, ts1, mem@, write)),
    {
        let e = Event::new(pid, ts0, ts1).set_tag_fd(
            if write {
                DataTag::Write
            } else {
                DataTag::Read
            },
            fd,
        );
        let sid = socket_id(fd, pid);
        if !self.connections.contains(&sid) {
            return Ok(None);
        }
        if ret < 0 {
            emit_record(e.set_err(ret), mem)
        } else {
            emit_record(e.set_ok(ret as u64), mem)
        }
    }

    /// The `close` enter handler: a live socket leaves the set and a close
    /// record goes out; any other descriptor is ignored.
    pub fn enter_close(&mut self, pid: u32, fd: u32, ts: u64) -> (r: Result<
        Option<EmittedRecord>,
        i32,
    >)
        requires
            probe_wf(old(self)@),
        ensures
            probe_wf(final(self)@),
            final(self)@.tracked_pids == old(self)@.tracked_pids,
            final(self)@.pending == old(self)@.pending,
            ({
                let sid = spec_socket_id(fd, pid);
                if !old(self)@.tracked_pids.contains(pid) {
                    r == Err::<Option<EmittedRecord>, i32>(0) && final(self)@ == old(self)@
                } else if !old(self)@.connections.contains(sid) {
                    r == Ok::<Option<EmittedRecord>, i32>(None) && final(self)@ == old(self)@
                } else {
                    &&& final(self)@.connections == old(self)@.connections.remove(sid)
                    &&& r matches Ok(Some(rec)) && rec@.header == (Event {
                        fd,
                        pid,
                        ts0: ts,
                        ts1: ts,
                        tag: DataTag::Close,
                        size: 0,
                    }) && rec@.payload == Seq::<u8>::empty()
                }
            }),
    {
        if !self.tracked_pids.contains(&pid) {
            return Err(0);
        }
        let sid = socket_id(fd, pid);
        if !self.connections.remove(&sid) {
            proof {
                assert(self@.connections =~= old(self)@.connections);
                assert(self@ == old(self)@);
            }
            return Ok(None);
        }
        let header = Event::new(pid, ts, ts).set_tag_fd(DataTag::Close, fd);
        Ok(Some(EmittedRecord { header, payload: Vec::new() }))
    }

    /// The `bind` enter handler.
    pub fn enter_bind(
        &mut self,
        thread_id: u32,
        pid: u32,
        fd: u32,
        addr_ptr: u64,
        addr_len: u64,
        ts: u64,
    ) -> (r: Result<(), i32>)
        requires
            probe_wf(old(self)@),
            addr_len <= 0x7fffffff,
        ensures
            probe_wf(final(self)@),
            final(self)@ == spec_enter(
                old(self)@,
                thread_id,
                pid,
                (ContextVariant::Bind { fd, addr_ptr, addr_len }),
                ts,
            ).0,
            r == spec_enter(
                old(self)@,
                thread_id,
                pid,
                (ContextVariant::Bind { fd, addr_ptr, addr_len }),
                ts,
            ).1,
    {
        self.enter(thread_id, pid, ContextVariant::Bind { fd, addr_ptr, addr_len }, ts)
    }

    /// The `connect` enter handler.
    pub fn enter_connect(
        &mut self,
        thread_id: u32,
        pid: u32,
        fd: u32,
        addr_ptr: u64,
        addr_len: u64,
        ts: u64,
    ) -> (r: Result<(), i32>)
        requires
            probe_wf(old(self)@),
            addr_len <= 0x7fffffff,
        ensures
            probe_wf(final(self)@),
            final(self)@ == spec_enter(
                old(self)@,
                thread_id,
                pid,
                (ContextVariant::Connect { fd, addr_ptr, addr_len }),
                ts,
            ).0,
            r == spec_enter(
                old(self)@,
                thread_id,
                pid,
                (ContextVariant::Connect { fd, addr_ptr, addr_len }),
                ts,
            ).1,
    {
        self.enter(thread_id, pid, ContextVariant::Connect { fd, addr_ptr, addr_len }, ts)
    }

    /// The `accept4` enter handler.
    pub fn enter_accept4(
        &mut self,
        thread_id: u32,
        pid: u32,
        listen_on_fd: u32,
        addr_ptr: u64,
        addr_len: u64,
        ts: u64,
    ) -> (r: Result<(), i32>)
        requires
            probe_wf(old(self)@),
            addr_len <= 0x7fffffff,
        ensures
            probe_wf(final(self)@),
            final(self)@ == spec_enter(
                old(self)@,
                thread_id,
                pid,
                (ContextVariant::Accept { listen_on_fd, addr_ptr, addr_len }),
                ts,
            ).0,
            r == spec_enter(
                old(self)@,
                thread_id,
                pid,
                (ContextVariant::Accept { listen_on_fd, addr_ptr, addr_len }),
                ts,
            ).1,
    {
        self.enter(thread_id, pid, ContextVariant::Accept { listen_on_fd, addr_ptr, addr_len }, ts)
    }

    /// The `write` enter handler.
    pub fn enter_write(&mut self, thread_id: u32, pid: u32, fd: u32, data_ptr: u64, ts: u64) -> (r:
        Result<(), i32>)
        requires
            probe_wf(old(self)@),
        ensures
            probe_wf(final(self)@),
            final(self)@ == spec_enter(
                old(self)@,
                thread_id,
                pid,
                (ContextVariant::Write { fd, data_ptr }),
                ts,
            ).0,
            r == spec_enter(old(self)@, thread_id, pid, (ContextVariant::Write { fd, data_ptr }), ts).1,
    {
        self.enter(thread_id, pid, ContextVariant::Write { fd, data_ptr }, ts)
    }

    /// The `read` enter handler.
    pub fn enter_read(&mut self, thread_id: u32, pid: u32, fd: u32, data_ptr: u64, ts: u64) -> (r:
        Result<(), i32>)
        requires
            probe_wf(old(self)@),
        ensures
            probe_wf(final(self)@),
            final(self)@ == spec_enter(
                old(self)@,
                thread_id,
                pid,
                (ContextVariant::Read { fd, data_ptr }),
                ts,
            ).0,
            r == spec_enter(old(self)@, thread_id, pid, (ContextVariant::Read { fd, data_ptr }), ts).1,
    {
        self.enter(thread_id, pid, ContextVariant::Read { fd, data_ptr }, ts)
    }

    /// The `sendto` enter handler.
    pub fn enter_sendto(&mut self, thread_id: u32, pid: u32, fd: u32, data_ptr: u64, ts: u64) -> (r:
        Result<(), i32>)
        requires
            probe_wf(old(self)@),
        ensures
            probe_wf(final(self)@),
            final(self)@ == spec_enter(
                old(self)@,
                thread_id,
                pid,
                (ContextVariant::Send { fd, data_ptr }),
                ts,
            ).0,
            r == spec_enter(old(self)@, thread_id, pid, (ContextVariant::Send { fd, data_ptr }), ts).1,
    {
        self.enter(thread_id, pid, ContextVariant::Send { fd, data_ptr }, ts)
    }

    /// The `recvfrom` enter handler.
    pub fn enter_recvfrom(
        &mut self,
        thread_id: u32,
        pid: u32,
        fd: u32,
        data_ptr: u64,
        ts: u64,
    ) -> (r: Result<(), i32>)
        requires
            probe_wf(old(self)@),
        ensures
            probe_wf(final(self)@),
            final(self)@ == spec_enter(
                old(self)@,
                thread_id,
                pid,
                (ContextVariant::Recv { fd, data_ptr }),
                ts,
            ).0,
            r == spec_enter(old(self)@, thread_id, pid, (ContextVariant::Recv { fd, data_ptr }), ts).1,
    {
        self.enter(thread_id, pid, ContextVariant::Recv { fd, data_ptr }, ts)
    }

    /// The `getrandom` enter handler: only reads of exactly 32 bytes are
    /// instrumented.
    pub fn enter_getrandom(
        &mut self,
        thread_id: u32,
        pid: u32,
        data_ptr: u64,
        data_len: u64,
        ts: u64,
    ) -> (r: Result<(), i32>)
        requires
            probe_wf(old(self)@),
        ensures
            probe_wf(final(self)@),
            if data_len == 32 {
                final(self)@ == spec_enter(
                    old(self)@,
                    thread_id,
                    pid,
                    (ContextVariant::GetRandom { data_ptr, data_len }),
                    ts,
                ).0 && r == spec_enter(
                    old(self)@,
                    thread_id,
                    pid,
                    (ContextVariant::GetRandom { data_ptr, data_len }),
                    ts,
                ).1
            } else {
                final(self)@ == old(self)@ && r is Ok
            },
    {
        if data_len == 32 {
            self.enter(thread_id, pid, ContextVariant::GetRandom { data_ptr, data_len }, ts)
        } else {
            Ok(())
        }
    }
}

/// What scanning a new environment does: nothing when no entry among the
/// first 256 carries an alias; otherwise the alias record goes out — its
/// header names the process, carries the scan's timestamp twice, the alias
/// tag, and the alias length; its payload is the alias — and the process
/// joins the tracked set, unless the set is full and did not already hold
/// it. Nothing else changes.
pub open spec fn scan_outcome(
    m0: ProbeModel,
    m1: ProbeModel,
    pid: u32,
    ts: u64,
    env: Seq<Seq<u8>>,
    r: Option<EmittedRecord>,
) -> bool {
    match spec_scan_env(env, 0) {
        None => r is None && m1 == m0,
        Some(alias) => {
            &&& r matches Some(rec) && rec@.header == (Event {
                fd: 0,
                pid,
                ts0: ts,
                ts1: ts,
                tag: DataTag::Alias,
                size: alias.len() as i32,
            }) && rec@.payload == alias
            &&& m1.tracked_pids == if m0.tracked_pids.contains(pid) || m0.tracked_pids.len()
                < PID_CAPACITY {
                m0.tracked_pids.insert(pid)
            } else {
                m0.tracked_pids
            }
            &&& (m0.tracked_pids.contains(pid) || m0.tracked_pids.len() < PID_CAPACITY)
                ==> m1.tracked_pids.contains(pid)
            &&& m1.pending == m0.pending
            &&& m1.connections == m0.connections
        },
    }
}

/// What an enter handler does: an untracked process is refused; otherwise
/// the syscall's arguments are stored under the thread, unless the thread
/// is new and the table is full.
pub open spec fn spec_enter(
    m: ProbeModel,
    thread_id: u32,
    pid: u32,
    data: ContextVariant,
    ts: u64,
) -> (ProbeModel, Result<(), i32>) {
    if !m.tracked_pids.contains(pid) {
        (m, Err(0i32))
    } else if m.pending.dom().contains(thread_id) || m.pending.len() < CONTEXT_CAPACITY {
        (
            ProbeModel { pending: m.pending.insert(thread_id, Parameters { data, ts }), ..m },
            Ok(()),
        )
    } else {
        (m, Err(-1i32))
    }
}

/// Whether the exec result `r` carries the outcome `want`.
pub open spec fn result_matches(
    r: Result<Option<EmittedRecord>, i32>,
    want: Result<Option<RecordModel>, i32>,
) -> bool {
    match r {
        Err(c) => want == Err::<Option<RecordModel>, i32>(c),
        Ok(None) => want == Ok::<Option<RecordModel>, i32>(None),
        Ok(Some(rec)) => want == Ok::<Option<RecordModel>, i32>(Some(rec@)),
    }
}

/// What reserving and filling a record does: a successful record carries
/// `size` bytes of the user memory — memory too short to read discards the
/// reservation — and a failure record carries none.
pub open spec fn spec_emit(e: Event, mem: Seq<u8>) -> Result<Option<RecordModel>, i32> {
    if e.size >= 0 {
        if mem.len() >= e.size {
            Ok(Some(RecordModel { header: e, payload: mem.subrange(0, e.size as int) }))
        } else {
            Err(0)
        }
    } else {
        Ok(Some(RecordModel { header: e, payload: Seq::empty() }))
    }
}

/// Whether the two leading address bytes read as a supported family:
/// IPv4 or IPv6.
pub open spec fn spec_addr_ok(mem: Seq<u8>) -> bool {
    mem.len() >= 2 && (le16(mem.subrange(0, 2)) == 2 || le16(mem.subrange(0, 2)) == 10)
}

/// What the transfer syscalls' exits do: nothing for a socket that is not
/// live, else a read or write record with the transferred bytes, or the
/// failure code.
pub open spec fn spec_transfer(
    m: ProbeModel,
    pid: u32,
    ret: i64,
    fd: u32,
    ts0: u64,
    ts1: u64,
    mem: Seq<u8>,
    write: bool,
) -> Result<Option<RecordModel>, i32> {
    let tag = if write {
        DataTag::Write
    } else {
        DataTag::Read
    };
    if !m.connections.contains(spec_socket_id(fd, pid)) {
        Ok(None)
    } else {
        spec_emit(Event { fd, pid, ts0, ts1, tag, size: ret as i32 }, mem)
    }
}

/// What one syscall exit does to the tables and the ring.
pub open spec fn spec_on_ret(
    m: ProbeModel,
    pid: u32,
    ret: i64,
    data: ContextVariant,
    ts0: u64,
    ts1: u64,
    mem: Seq<u8>,
) -> RetOutcome {
    if ret == -11 {
        RetOutcome { model: m, result: Ok(None) }
    } else {
        match data {
            ContextVariant::Empty { ptr: _, len } => {
                let size = if ret < 0 {
                    ret as i32
                } else {
                    len as i32
                };
                RetOutcome {
                    model: m,
                    result: spec_emit(
                        Event { fd: 0, pid, ts0, ts1, tag: DataTag::Debug, size },
                        mem,
                    ),
                }
            },
            ContextVariant::Bind { fd, addr_len, .. } => {
                let size = if ret < 0 {
                    ret as i32
                } else {
                    addr_len as i32
                };
                RetOutcome {
                    model: m,
                    result: spec_emit(Event { fd, pid, ts0, ts1, tag: DataTag::Bind, size }, mem),
                }
            },
            ContextVariant::Connect { fd, addr_len, .. } => {
                if !spec_addr_ok(mem) {
                    RetOutcome { model: m, result: Err(0i32) }
                } else if ret < 0 && ret != -115 {
                    RetOutcome {
                        model: m,
                        result: spec_emit(
                            Event { fd, pid, ts0, ts1, tag: DataTag::Connect, size: ret as i32 },
                            mem,
                        ),
                    }
                } else {
                    let sid = spec_socket_id(fd, pid);
                    if m.connections.contains(sid) || m.connections.len() < CONNECTION_CAPACITY {
                        RetOutcome {
                            model: ProbeModel { connections: m.connections.insert(sid), ..m },
                            result: spec_emit(
                                Event {
                                    fd,
                                    pid,
                                    ts0,
                                    ts1,
                                    tag: DataTag::Connect,
                                    size: addr_len as i32,
                                },
                                mem,
                            ),
                        }
                    } else {
                        RetOutcome { model: m, result: Err(-1i32) }
                    }
                }
            },
            ContextVariant::Accept { addr_len, .. } => {
                let fd = ret as u32;
                if ret < 0 {
                    RetOutcome {
                        model: m,
                        result: spec_emit(
                            Event { fd, pid, ts0, ts1, tag: DataTag::Accept, size: ret as i32 },
                            mem,
                        ),
                    }
                } else if !spec_addr_ok(mem) {
                    RetOutcome { model: m, result: Err(0i32) }
                } else {
                    let sid = spec_socket_id(fd, pid);
                    if m.connections.contains(sid) || m.connections.len() < CONNECTION_CAPACITY {
                        RetOutcome {
                            model: ProbeModel { connections: m.connections.insert(sid), ..m },
                            result: spec_emit(
                                Event {
                                    fd,
                                    pid,
                                    ts0,
                                    ts1,
                                    tag: DataTag::Accept,
                                    size: addr_len as i32,
                                },
                                mem,
                            ),
                        }
                    } else {
                        RetOutcome { model: m, result: Err(-1i32) }
                    }
                }
            },
            ContextVariant::Write { fd, .. } => RetOutcome {
                model: m,
                result: spec_transfer(m, pid, ret, fd, ts0, ts1, mem, true),
            },
            ContextVariant::Send { fd, .. } => RetOutcome {
                model: m,
                result: spec_transfer(m, pid, ret, fd, ts0, ts1, mem, true),
            },
            ContextVariant::Read { fd, .. } => RetOutcome {
                model: m,
                result: spec_transfer(m, pid, ret, fd, ts0, ts1, mem, false),
            },
            ContextVariant::Recv { fd, .. } => RetOutcome {
                model: m,
                result: spec_transfer(m, pid, ret, fd, ts0, ts1, mem, false),
            },
            ContextVariant::GetRandom { data_len, .. } => RetOutcome {
                model: m,
                result: spec_emit(
                    Event { fd: 0, pid, ts0, ts1, tag: DataTag::Random, size: data_len as i32 },
                    mem,
                ),
            },
        }
    }
}

/// The outcome of one syscall exit: the tables after it and what it put in
/// the ring.
pub struct RetOutcome {
    pub model: ProbeModel,
    pub result: Result<Option<RecordModel>, i32>,
}

/// Reserve and fill one record.
fn emit_record(e: Event, mem: &[u8]) -> (r: Result<Option<EmittedRecord>, i32>)
    ensures
        result_matches(r, spec_emit(e, mem@)),
{
    if e.size >= 0 {
        let n = e.size as usize;
        if mem.len() < n {
            return Err(0);
        }
        Ok(Some(EmittedRecord { header: e, payload: slice_to_vec(slice_subrange(mem, 0, n)) }))
    } else {
        Ok(Some(EmittedRecord { header: e, payload: Vec::new() }))
    }
}

/// Whether the two leading address bytes read as a supported family.
fn addr_ok(mem: &[u8]) -> (r: bool)
    ensures
        r == spec_addr_ok(mem@),
{
    if mem.len() < 2 {
        return false;
    }
    let family = read_le16(mem, 0);
    family == 2 || family == 10
}

} // verus!
