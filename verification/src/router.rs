//! The event router: it turns the stream of decoded events into recorder
//! actions. It remembers which processes carry an alias, which sockets are
//! recorded and which are deliberately ignored, synthesizes a disconnect
//! when a connection lands on a descriptor already in use, and drops
//! everything that belongs to no tracked connection.

use vstd::prelude::*;
use std::collections::HashMap;
use vstd::slice::slice_to_vec;
use crate::probe::spec_socket_id;
use crate::probe::socket_id;
use crate::sniffer_event::{EventModel, SnifferEvent, SnifferEventVariant, SocketAddress, VariantModel};

verus! {

broadcast use vstd::std_specs::hash::group_hash_axioms;

/// The remote p2p port whose connections are recorded.
pub const P2P_PORT: u16 = 8302;

/// The first ephemeral port: an incoming connection from one is recorded
/// too.
pub const EPHEMERAL_PORT_MIN: u16 = 49152;

/// The identity a recorder action speaks of, with the event's times: the
/// enter timestamp and how long the syscall took.
#[derive(Debug, Clone, PartialEq, Eq)]
pub struct EventMetadata {
    pub alias: Vec<u8>,
    pub addr: SocketAddress,
    pub pid: u32,
    pub fd: u32,
    pub ts0: u64,
    pub duration: u64,
}

/// `EventMetadata`, as the contracts speak of it.
pub struct MetadataModel {
    pub alias: Seq<u8>,
    pub addr: SocketAddress,
    pub pid: u32,
    pub fd: u32,
    pub ts0: u64,
    pub duration: u64,
}

impl View for EventMetadata {
    type V = MetadataModel;

    open spec fn view(&self) -> MetadataModel {
        MetadataModel {
            alias: self.alias@,
            addr: self.addr,
            pid: self.pid,
            fd: self.fd,
            ts0: self.ts0,
            duration: self.duration,
        }
    }
}

/// What the router asks the recorder to do with one event.
#[derive(Debug, Clone, PartialEq, Eq)]
pub enum Action {
    Connect { incoming: bool, metadata: EventMetadata },
    Disconnect { metadata: EventMetadata },
    Data { incoming: bool, metadata: EventMetadata, bytes: Vec<u8> },
    Randomness { alias: Vec<u8>, bytes: Vec<u8> },
}

/// `Action`, as the contracts speak of it.
pub enum ActionModel {
    Connect { incoming: bool, metadata: MetadataModel },
    Disconnect { metadata: MetadataModel },
    Data { incoming: bool, metadata: MetadataModel, bytes: Seq<u8> },
    Randomness { alias: Seq<u8>, bytes: Seq<u8> },
}

impl View for Action {
    type V = ActionModel;

    open spec fn view(&self) -> ActionModel {
        match self {
            Action::Connect { incoming, metadata } => ActionModel::Connect {
                incoming: *incoming,
                metadata: metadata@,
            },
            Action::Disconnect { metadata } => ActionModel::Disconnect { metadata: metadata@ },
            Action::Data { incoming, metadata, bytes } => ActionModel::Data {
                incoming: *incoming,
                metadata: metadata@,
                bytes: bytes@,
            },
            Action::Randomness { alias, bytes } => ActionModel::Randomness {
                alias: alias@,
                bytes: bytes@,
            },
        }
    }
}

/// The router's state, as the contracts speak of it: alias by process,
/// recorded and ignored sockets by socket id, and the last enter timestamp
/// seen.
pub struct RouterModel {
    pub apps: Map<u32, Seq<u8>>,
    pub p2p_cns: Map<u64, SocketAddress>,
    pub ignored_cns: Map<u64, SocketAddress>,
    pub last_ts: u64,
}

/// A router that has seen nothing.
pub open spec fn initial_router() -> RouterModel {
    RouterModel {
        apps: Map::empty(),
        p2p_cns: Map::empty(),
        ignored_cns: Map::empty(),
        last_ts: 0,
    }
}

/// The port of an address.
pub open spec fn addr_port(a: SocketAddress) -> u16 {
    match a {
        SocketAddress::V4 { port, .. } => port,
        SocketAddress::V6 { port, .. } => port,
    }
}

/// Whether a connection to this address is recorded: the p2p port always,
/// and for incoming connections any ephemeral port.
pub open spec fn spec_recorded_port(addr: SocketAddress, incoming: bool) -> bool {
    addr_port(addr) == P2P_PORT || (incoming && addr_port(addr) >= EPHEMERAL_PORT_MIN)
}

/// The metadata of an action on this event: the syscall duration is the
/// distance of the two timestamps (zero if the record carries them out of
/// order).
pub open spec fn spec_metadata(alias: Seq<u8>, addr: SocketAddress, e: EventModel) -> MetadataModel {
    MetadataModel {
        alias,
        addr,
        pid: e.pid,
        fd: e.fd,
        ts0: e.ts0,
        duration: if e.ts1 >= e.ts0 {
            (e.ts1 - e.ts0) as u64
        } else {
            0
        },
    }
}

/// What a connection event does: nothing for a process without an alias; a
/// recorded port registers the socket and connects — first disconnecting
/// the address that still occupied the descriptor, if one did; any other
/// port is remembered as ignored.
pub open spec fn spec_connection(m: RouterModel, e: EventModel, addr: SocketAddress, incoming: bool) -> (
    RouterModel,
    Seq<ActionModel>,
) {
    let sid = spec_socket_id(e.fd, e.pid);
    if !m.apps.dom().contains(e.pid) {
        (m, Seq::empty())
    } else if spec_recorded_port(addr, incoming) {
        let md = spec_metadata(m.apps[e.pid], addr, e);
        let m1 = RouterModel { p2p_cns: m.p2p_cns.insert(sid, addr), ..m };
        if m.p2p_cns.dom().contains(sid) {
            let old_md = spec_metadata(m.apps[e.pid], m.p2p_cns[sid], e);
            (
                m1,
                seq![
                    ActionModel::Disconnect { metadata: old_md },
                    ActionModel::Connect { incoming, metadata: md },
                ],
            )
        } else {
            (m1, seq![ActionModel::Connect { incoming, metadata: md }])
        }
    } else {
        (RouterModel { ignored_cns: m.ignored_cns.insert(sid, addr), ..m }, Seq::empty())
    }
}

/// What a data event does: bytes of a recorded socket go to its pipeline
/// with the right direction; everything else is dropped.
pub open spec fn spec_data_event(m: RouterModel, e: EventModel, d: Seq<u8>, incoming: bool) -> (
    RouterModel,
    Seq<ActionModel>,
) {
    let sid = spec_socket_id(e.fd, e.pid);
    if m.apps.dom().contains(e.pid) && m.p2p_cns.dom().contains(sid) {
        (
            m,
            seq![
                ActionModel::Data {
                    incoming,
                    metadata: spec_metadata(m.apps[e.pid], m.p2p_cns[sid], e),
                    bytes: d,
                },
            ],
        )
    } else {
        (m, Seq::empty())
    }
}

/// What one decoded event does to the router and the recorder.
pub open spec fn spec_handle(m: RouterModel, e: EventModel) -> (RouterModel, Seq<ActionModel>) {
    let sid = spec_socket_id(e.fd, e.pid);
    match e.variant {
        VariantModel::NewApp(alias) => (
            RouterModel { apps: m.apps.insert(e.pid, alias), ..m },
            Seq::empty(),
        ),
        VariantModel::Error(_, _) => (m, Seq::empty()),
        VariantModel::OutgoingConnection(addr) => spec_connection(m, e, addr, false),
        VariantModel::IncomingConnection(addr) => spec_connection(m, e, addr, true),
        VariantModel::Disconnected => {
            if m.apps.dom().contains(e.pid) && m.p2p_cns.dom().contains(sid) {
                (
                    RouterModel { p2p_cns: m.p2p_cns.remove(sid), ..m },
                    seq![
                        ActionModel::Disconnect {
                            metadata: spec_metadata(m.apps[e.pid], m.p2p_cns[sid], e),
                        },
                    ],
                )
            } else {
                (m, Seq::empty())
            }
        },
        VariantModel::IncomingData(d) => spec_data_event(m, e, d, true),
        VariantModel::OutgoingData(d) => spec_data_event(m, e, d, false),
        VariantModel::Random(d) => {
            if m.apps.dom().contains(e.pid) {
                (m, seq![ActionModel::Randomness { alias: m.apps[e.pid], bytes: d }])
            } else {
                (m, Seq::empty())
            }
        },
    }
}

// --- at most one connection open per socket ---

/// The socket id a connect action opens, if it is one.
pub open spec fn connect_sid(a: ActionModel) -> Option<u64> {
    match a {
        ActionModel::Connect { metadata, .. } => Some(spec_socket_id(metadata.fd, metadata.pid)),
        _ => None,
    }
}

/// The socket id a disconnect action closes, if it is one.
pub open spec fn disconnect_sid(a: ActionModel) -> Option<u64> {
    match a {
        ActionModel::Disconnect { metadata } => Some(spec_socket_id(metadata.fd, metadata.pid)),
        _ => None,
    }
}

/// How many actions of `s` connect socket `sid`.
pub open spec fn count_connects(s: Seq<ActionModel>, sid: u64) -> int
    decreases s.len(),
{
    if s.len() == 0 {
        0
    } else {
        count_connects(s.drop_last(), sid) + if connect_sid(s.last()) == Some(sid) {
            1int
        } else {
            0int
        }
    }
}

/// How many actions of `s` disconnect socket `sid`.
pub open spec fn count_disconnects(s: Seq<ActionModel>, sid: u64) -> int
    decreases s.len(),
{
    if s.len() == 0 {
        0
    } else {
        count_disconnects(s.drop_last(), sid) + if disconnect_sid(s.last()) == Some(sid) {
            1int
        } else {
            0int
        }
    }
}

/// A socket's connects so far, less its disconnects: how many of its
/// connections stand open.
pub open spec fn open_diff(s: Seq<ActionModel>, sid: u64) -> int {
    count_connects(s, sid) - count_disconnects(s, sid)
}

proof fn lemma_count_concat(a: Seq<ActionModel>, b: Seq<ActionModel>, sid: u64)
    ensures
        count_connects(a + b, sid) == count_connects(a, sid) + count_connects(b, sid),
        count_disconnects(a + b, sid) == count_disconnects(a, sid) + count_disconnects(b, sid),
    decreases b.len(),
{
    if b.len() == 0 {
        assert(a + b =~= a);
    } else {
        lemma_count_concat(a, b.drop_last(), sid);
        assert((a + b).drop_last() =~= a + b.drop_last());
        assert((a + b).last() == b.last());
    }
}

proof fn lemma_counts_single(x: ActionModel, sid: u64)
    ensures
        count_connects(seq![x], sid) == if connect_sid(x) == Some(sid) {
            1int
        } else {
            0int
        },
        count_disconnects(seq![x], sid) == if disconnect_sid(x) == Some(sid) {
            1int
        } else {
            0int
        },
{
    assert(seq![x].drop_last() =~= Seq::<ActionModel>::empty());
    assert(seq![x].last() == x);
    assert(count_connects(Seq::<ActionModel>::empty(), sid) == 0);
    assert(count_disconnects(Seq::<ActionModel>::empty(), sid) == 0);
}

proof fn lemma_counts_pair(x: ActionModel, y: ActionModel, sid: u64)
    ensures
        count_connects(seq![x, y], sid) == (if connect_sid(x) == Some(sid) {
            1int
        } else {
            0int
        }) + (if connect_sid(y) == Some(sid) {
            1int
        } else {
            0int
        }),
        count_disconnects(seq![x, y], sid) == (if disconnect_sid(x) == Some(sid) {
            1int
        } else {
            0int
        }) + (if disconnect_sid(y) == Some(sid) {
            1int
        } else {
            0int
        }),
{
    assert(seq![x, y].drop_last() =~= seq![x]);
    assert(seq![x, y].last() == y);
    lemma_counts_single(x, sid);
}

/// The action trace matches the socket table: a socket's connects exceed
/// its disconnects by one exactly while the table holds it, and no prefix
/// of the trace ever has two of its connections open.
pub open spec fn trace_balanced(m: RouterModel, trace: Seq<ActionModel>, sid: u64) -> bool {
    &&& open_diff(trace, sid) == if m.p2p_cns.dom().contains(sid) {
        1int
    } else {
        0int
    }
    &&& forall|k: int| 0 <= k <= trace.len() ==> 0 <= open_diff(#[trigger] trace.take(k), sid) <= 1
}

/// One routed event keeps the trace balanced for every socket.
proof fn lemma_handle_balanced(m: RouterModel, trace: Seq<ActionModel>, e: EventModel, sid: u64)
    requires
        trace_balanced(m, trace, sid),
    ensures
        trace_balanced(spec_handle(m, e).0, trace + spec_handle(m, e).1, sid),
{
    let m1 = spec_handle(m, e).0;
    let acts = spec_handle(m, e).1;
    let joined = trace + acts;
    lemma_count_concat(trace, acts, sid);
    assert(trace.take(trace.len() as int) =~= trace);
    // The counts of the short action lists each event can emit.
    if acts.len() == 1 {
        lemma_counts_single(acts[0], sid);
        assert(acts.take(1) =~= acts);
        assert(acts.take(0) =~= Seq::<ActionModel>::empty());
    } else if acts.len() == 2 {
        lemma_counts_pair(acts[0], acts[1], sid);
        assert(acts.take(2) =~= acts);
        assert(acts.take(1) =~= seq![acts[0]]);
        assert(acts.take(0) =~= Seq::<ActionModel>::empty());
        lemma_counts_single(acts[0], sid);
    } else {
        assert(acts.take(0) =~= Seq::<ActionModel>::empty());
    }
    assert forall|k: int| 0 <= k <= joined.len() implies 0 <= open_diff(
        #[trigger] joined.take(k),
        sid,
    ) <= 1 by {
        if k <= trace.len() {
            assert(joined.take(k) =~= trace.take(k));
        } else {
            let j = k - trace.len();
            assert(joined.take(k) =~= trace + acts.take(j));
            lemma_count_concat(trace, acts.take(j), sid);
            if j == 1 {
                assert(acts.take(1) =~= seq![acts[0]]);
                lemma_counts_single(acts[0], sid);
            }
        }
    }
}

/// The router's whole run over a sequence of events: the final state and
/// the concatenation of everything it asked the recorder to do.
pub open spec fn run_router(m: RouterModel, events: Seq<EventModel>) -> (
    RouterModel,
    Seq<ActionModel>,
)
    decreases events.len(),
{
    if events.len() == 0 {
        (m, Seq::empty())
    } else {
        let s = spec_handle(m, events[0]);
        let rest = run_router(s.0, events.skip(1));
        (rest.0, s.1 + rest.1)
    }
}

proof fn lemma_run_balanced(m: RouterModel, trace: Seq<ActionModel>, events: Seq<EventModel>, sid: u64)
    requires
        trace_balanced(m, trace, sid),
    ensures
        trace_balanced(run_router(m, events).0, trace + run_router(m, events).1, sid),
    decreases events.len(),
{
    if events.len() == 0 {
        assert(trace + run_router(m, events).1 =~= trace);
    } else {
        lemma_handle_balanced(m, trace, events[0], sid);
        let s = spec_handle(m, events[0]);
        lemma_run_balanced(s.0, trace + s.1, events.skip(1), sid);
        assert(trace + (s.1 + run_router(s.0, events.skip(1)).1) =~= (trace + s.1) + run_router(
            s.0,
            events.skip(1),
        ).1);
    }
}

/// For any sequence of events, each socket has at most one connection open
/// at a time: in every prefix of the actions the router emits, the
/// socket's connects exceed its disconnects by at most one — a second
/// connect only ever follows a disconnect of the first.
pub proof fn lemma_single_active_connection(events: Seq<EventModel>, sid: u64, k: int)
    requires
        0 <= k <= run_router(initial_router(), events).1.len(),
    ensures
        0 <= open_diff(run_router(initial_router(), events).1.take(k), sid) <= 1,
{
    let nothing = Seq::<ActionModel>::empty();
    assert(trace_balanced(initial_router(), nothing, sid)) by {
        assert(forall|j: int| 0 <= j <= 0 ==> nothing.take(j) =~= nothing);
    }
    lemma_run_balanced(initial_router(), nothing, events, sid);
    assert(nothing + run_router(initial_router(), events).1 =~= run_router(
        initial_router(),
        events,
    ).1);
}

/// The router's state.
pub struct Router {
    apps: HashMap<u32, Vec<u8>>,
    p2p_cns: HashMap<u64, SocketAddress>,
    ignored_cns: HashMap<u64, SocketAddress>,
    last_ts: u64,
}

/// The aliases, each as its bytes.
pub open spec fn view_apps(m: Map<u32, Vec<u8>>) -> Map<u32, Seq<u8>> {
    Map::new(|k: u32| m.dom().contains(k), |k: u32| m[k]@)
}

impl View for Router {
    type V = RouterModel;

    closed spec fn view(&self) -> RouterModel {
        RouterModel {
            apps: view_apps(self.apps@),
            p2p_cns: self.p2p_cns@,
            ignored_cns: self.ignored_cns@,
            last_ts: self.last_ts,
        }
    }
}

/// A copy of a byte vector.
fn copy_bytes(v: &Vec<u8>) -> (r: Vec<u8>)
    ensures
        r@ == v@,
{
    slice_to_vec(v.as_slice())
}

/// The port of an address.
fn port_of(a: &SocketAddress) -> (r: u16)
    ensures
        r == addr_port(*a),
{
    match a {
        SocketAddress::V4 { port, .. } => *port,
        SocketAddress::V6 { port, .. } => *port,
    }
}

impl Router {
    /// A router that has seen nothing.
    pub fn new() -> (r: Router)
        ensures
            r@ == initial_router(),
    {
        let r = Router {
            apps: HashMap::new(),
            p2p_cns: HashMap::new(),
            ignored_cns: HashMap::new(),
            last_ts: 0,
        };
        proof {
            assert(view_apps(r.apps@) =~= Map::<u32, Seq<u8>>::empty());
        }
        r
    }

    /// Note one event's enter timestamp. True means the event stands more
    /// than a second before the previous one — reordering beyond what
    /// cross-processor delivery explains.
    pub fn check_order(&mut self, ts0: u64) -> (r: bool)
        ensures
            r == (ts0 + 1000000000 < old(self)@.last_ts),
            final(self)@ == (RouterModel { last_ts: ts0, ..old(self)@ }),
    {
        let unordered = (ts0 as u128) + 1000000000 < (self.last_ts as u128);
        self.last_ts = ts0;
        unordered
    }

    /// The metadata of an action on this event.
    fn metadata(alias: &Vec<u8>, addr: &SocketAddress, e: &SnifferEvent) -> (r: EventMetadata)
        ensures
            r@ == spec_metadata(alias@, *addr, e@),
    {
        EventMetadata {
            alias: copy_bytes(alias),
            addr: *addr,
            pid: e.pid,
            fd: e.fd,
            ts0: e.ts0,
            duration: if e.ts1 >= e.ts0 {
                e.ts1 - e.ts0
            } else {
                0
            },
        }
    }

    /// Route one decoded event, handing back the recorder actions it asks
    /// for.
    pub fn handle(&mut self, e: &SnifferEvent) -> (r: Vec<Action>)
        ensures
            final(self)@ == spec_handle(old(self)@, e@).0,
            r@.map_values(|a: Action| a@) == spec_handle(old(self)@, e@).1,
    {
        let mut out: Vec<Action> = Vec::new();
        proof {
            assert(out@.map_values(|a: Action| a@) =~= Seq::<ActionModel>::empty());
        }
        match &e.variant {
            SnifferEventVariant::NewApp(alias) => {
                self.apps.insert(e.pid, copy_bytes(alias));
                proof {
                    assert(view_apps(self.apps@) =~= old(self)@.apps.insert(e.pid, alias@));
                }
            },
            SnifferEventVariant::Error(_, _) => {},
            SnifferEventVariant::OutgoingConnection(addr) => {
                self.connection(e, addr, false, &mut out);
            },
            SnifferEventVariant::IncomingConnection(addr) => {
                self.connection(e, addr, true, &mut out);
            },
            SnifferEventVariant::Disconnected => {
                let sid = socket_id(e.fd, e.pid);
                let has_alias = self.apps.contains_key(&e.pid);
                if has_alias && self.p2p_cns.contains_key(&sid) {
                    let alias = copy_bytes(self.apps.get(&e.pid).unwrap());
                    let addr = *self.p2p_cns.get(&sid).unwrap();
                    self.p2p_cns.remove(&sid);
                    out.push(
                        Action::Disconnect { metadata: Self::metadata(&alias, &addr, e) },
                    );
                    proof {
                        assert(out@.map_values(|a: Action| a@) =~= spec_handle(
                            old(self)@,
                            e@,
                        ).1);
                    }
                }
            },
            SnifferEventVariant::IncomingData(d) => {
                self.data_event(e, d, true, &mut out);
            },
            SnifferEventVariant::OutgoingData(d) => {
                self.data_event(e, d, false, &mut out);
            },
            SnifferEventVariant::Random(d) => {
                if self.apps.contains_key(&e.pid) {
                    let alias = copy_bytes(self.apps.get(&e.pid).unwrap());
                    out.push(Action::Randomness { alias, bytes: copy_bytes(d) });
                    proof {
                        assert(out@.map_values(|a: Action| a@) =~= spec_handle(
                            old(self)@,
                            e@,
                        ).1);
                    }
                }
            },
        }
        out
    }

    /// Route one connection event.
    fn connection(&mut self, e: &SnifferEvent, addr: &SocketAddress, incoming: bool, out: &mut Vec<Action>)
        requires
            old(out)@.len() == 0,
        ensures
            final(self)@ == spec_connection(old(self)@, e@, *addr, incoming).0,
            final(out)@.map_values(|a: Action| a@) == spec_connection(
                old(self)@,
                e@,
                *addr,
                incoming,
            ).1,
    {
        let sid = socket_id(e.fd, e.pid);
        if !self.apps.contains_key(&e.pid) {
            proof {
                assert(out@.map_values(|a: Action| a@) =~= Seq::<ActionModel>::empty());
            }
            return;
        }
        let port = port_of(addr);
        if port == P2P_PORT || (incoming && port >= EPHEMERAL_PORT_MIN) {
            let alias = copy_bytes(self.apps.get(&e.pid).unwrap());
            let md = Self::metadata(&alias, addr, e);
            if self.p2p_cns.contains_key(&sid) {
                let old_addr = *self.p2p_cns.get(&sid).unwrap();
                out.push(Action::Disconnect { metadata: Self::metadata(&alias, &old_addr, e) });
                out.push(Action::Connect { incoming, metadata: md });
            } else {
                out.push(Action::Connect { incoming, metadata: md });
            }
            self.p2p_cns.insert(sid, *addr);
            proof {
                assert(final(out)@.map_values(|a: Action| a@) =~= spec_connection(
                    old(self)@,
                    e@,
                    *addr,
                    incoming,
                ).1);
            }
        } else {
            self.ignored_cns.insert(sid, *addr);
            proof {
                assert(out@.map_values(|a: Action| a@) =~= Seq::<ActionModel>::empty());
            }
        }
    }

    /// Route one data event.
    fn data_event(&mut self, e: &SnifferEvent, d: &Vec<u8>, incoming: bool, out: &mut Vec<Action>)
        requires
            old(out)@.len() == 0,
        ensures
            final(self)@ == old(self)@,
            final(out)@.map_values(|a: Action| a@) == spec_data_event(
                old(self)@,
                e@,
                d@,
                incoming,
            ).1,
    {
        let sid = socket_id(e.fd, e.pid);
        if self.apps.contains_key(&e.pid) && self.p2p_cns.contains_key(&sid) {
            let alias = copy_bytes(self.apps.get(&e.pid).unwrap());
            let addr = *self.p2p_cns.get(&sid).unwrap();
            out.push(
                Action::Data {
                    incoming,
                    metadata: Self::metadata(&alias, &addr, e),
                    bytes: copy_bytes(d),
                },
            );
            proof {
                assert(final(out)@.map_values(|a: Action| a@) =~= spec_data_event(
                    old(self)@,
                    e@,
                    d@,
                    incoming,
                ).1);
            }
        } else {
            proof {
                assert(out@.map_values(|a: Action| a@) =~= Seq::<ActionModel>::empty());
            }
        }
    }
}

} // verus!
