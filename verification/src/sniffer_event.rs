//! Typed events decoded from ring-buffer records: what the consumer hands to
//! the recorder. A record is the 32-byte header followed by `size` payload
//! bytes; the payload's meaning depends on the tag.

use vstd::prelude::*;
use vstd::slice::slice_subrange;
use crate::tokenizer::{utf8_check, valid_utf8};
use crate::event::{
    be128, be128_bytes, be16, be16_bytes, be32, be32_bytes, event_bytes, le16, le16_bytes,
    lemma_be128_roundtrip, lemma_be16_roundtrip, lemma_be32_roundtrip, lemma_le16_roundtrip,
    lemma_event_header_roundtrip, read_be128, read_be16, read_be32, read_le16,
    spec_event_from_bytes, DataTag, Event,
};

verus! {

/// A remote socket address, as read from a `sockaddr` payload: the address
/// as the integer its network-order bytes spell, and the port.
#[derive(Clone, Copy, Debug, PartialEq, Eq, Structural)]
#[allow(inconsistent_fields)]
pub enum SocketAddress {
    V4 { ip: u32, port: u16 },
    V6 { ip: u128, port: u16 },
}

/// What a record means to the recorder.
#[derive(Debug, Clone, PartialEq, Eq)]
pub enum SnifferEventVariant {
    /// A tracked process appeared, with its alias (the payload bytes).
    NewApp(Vec<u8>),
    IncomingConnection(SocketAddress),
    OutgoingConnection(SocketAddress),
    Disconnected,
    IncomingData(Vec<u8>),
    OutgoingData(Vec<u8>),
    /// Exactly 32 observed random bytes.
    Random(Vec<u8>),
    /// A failed syscall: its tag and the errno-style code.
    Error(DataTag, i32),
}

/// A decoded event: who, when, and what.
#[derive(Debug, Clone, PartialEq, Eq)]
pub struct SnifferEvent {
    pub pid: u32,
    pub fd: u32,
    pub ts0: u64,
    pub ts1: u64,
    pub variant: SnifferEventVariant,
}

/// `SnifferEventVariant`, as the contracts speak of it.
pub enum VariantModel {
    NewApp(Seq<u8>),
    IncomingConnection(SocketAddress),
    OutgoingConnection(SocketAddress),
    Disconnected,
    IncomingData(Seq<u8>),
    OutgoingData(Seq<u8>),
    Random(Seq<u8>),
    Error(DataTag, i32),
}

/// `SnifferEvent`, as the contracts speak of it.
pub struct EventModel {
    pub pid: u32,
    pub fd: u32,
    pub ts0: u64,
    pub ts1: u64,
    pub variant: VariantModel,
}

impl View for SnifferEventVariant {
    type V = VariantModel;

    open spec fn view(&self) -> VariantModel {
        match self {
            SnifferEventVariant::NewApp(a) => VariantModel::NewApp(a@),
            SnifferEventVariant::IncomingConnection(a) => VariantModel::IncomingConnection(*a),
            SnifferEventVariant::OutgoingConnection(a) => VariantModel::OutgoingConnection(*a),
            SnifferEventVariant::Disconnected => VariantModel::Disconnected,
            SnifferEventVariant::IncomingData(d) => VariantModel::IncomingData(d@),
            SnifferEventVariant::OutgoingData(d) => VariantModel::OutgoingData(d@),
            SnifferEventVariant::Random(d) => VariantModel::Random(d@),
            SnifferEventVariant::Error(t, c) => VariantModel::Error(*t, *c),
        }
    }
}

impl View for SnifferEvent {
    type V = EventModel;

    open spec fn view(&self) -> EventModel {
        EventModel {
            pid: self.pid,
            fd: self.fd,
            ts0: self.ts0,
            ts1: self.ts1,
            variant: self.variant@,
        }
    }
}

/// The record decoder asks for more bytes: the slice ends before the record
/// does.
#[derive(Debug, Clone, Copy, PartialEq, Eq, Structural)]
pub struct ErrorSliceTooShort;

/// A type decodable from a ring-buffer record slice.
pub trait RingBufferData where Self: Sized {
    type Error;

    fn from_rb_slice(slice: &[u8]) -> Result<Option<Self>, Self::Error>;
}

/// What a `sockaddr` payload means: two bytes of address family in host
/// order, two bytes of port in network order, then the address — four bytes
/// at offset 4 for IPv4, sixteen at offset 8 for IPv6 (a four-byte hole
/// mirrors the kernel struct). Any other family, or a payload too short for
/// its family, is no address.
pub open spec fn parse_sockaddr(data: Seq<u8>) -> Option<SocketAddress> {
    if data.len() < 4 {
        None
    } else {
        let family = le16(data.subrange(0, 2));
        let port = be16(data.subrange(2, 4));
        if family == 2 {
            if data.len() >= 8 {
                Some(SocketAddress::V4 { ip: be32(data.subrange(4, 8)), port })
            } else {
                None
            }
        } else if family == 10 {
            if data.len() >= 24 {
                Some(SocketAddress::V6 { ip: be128(data.subrange(8, 24)), port })
            } else {
                None
            }
        } else {
            None
        }
    }
}

/// What decoding a record slice yields: more bytes needed (`Err`), a record
/// the consumer drops (`Ok(None)`: an unknown tag code, a reserved tag, an
/// unsupported address family, an alias that is not UTF-8, or a malformed
/// payload), or an event.
pub open spec fn spec_from_rb_slice(s: Seq<u8>) -> Result<Option<EventModel>, ()> {
    if s.len() < 32 {
        Err(())
    } else {
        match spec_event_from_bytes(s.subrange(0, 32)) {
            None => Ok(None),
            Some(e) => if e.size < 0 {
                Ok(
                    Some(
                        EventModel {
                            pid: e.pid,
                            fd: e.fd,
                            ts0: e.ts0,
                            ts1: e.ts1,
                            variant: VariantModel::Error(e.tag, e.size),
                        },
                    ),
                )
            } else if s.len() < 32 + e.size {
                Err(())
            } else {
                let data = s.subrange(32, 32 + e.size);
                let v = match e.tag {
                    DataTag::Accept => match parse_sockaddr(data) {
                        Some(a) => Some(VariantModel::IncomingConnection(a)),
                        None => None,
                    },
                    DataTag::Connect => match parse_sockaddr(data) {
                        Some(a) => Some(VariantModel::OutgoingConnection(a)),
                        None => None,
                    },
                    DataTag::Read => Some(VariantModel::IncomingData(data)),
                    DataTag::Write => Some(VariantModel::OutgoingData(data)),
                    DataTag::Close => Some(VariantModel::Disconnected),
                    DataTag::Alias => if valid_utf8(data) {
                        Some(VariantModel::NewApp(data))
                    } else {
                        None
                    },
                    DataTag::Random => if data.len() == 32 {
                        Some(VariantModel::Random(data))
                    } else {
                        None
                    },
                    _ => None,
                };
                match v {
                    Some(v) => Ok(
                        Some(
                            EventModel { pid: e.pid, fd: e.fd, ts0: e.ts0, ts1: e.ts1, variant: v },
                        ),
                    ),
                    None => Ok(None),
                }
            },
        }
    }
}

/// An event with the header's identity fields and the given variant.
fn with_header(e: &Event, v: SnifferEventVariant) -> (r: SnifferEvent)
    ensures
        r == (SnifferEvent { pid: e.pid, fd: e.fd, ts0: e.ts0, ts1: e.ts1, variant: v }),
{
    SnifferEvent { pid: e.pid, fd: e.fd, ts0: e.ts0, ts1: e.ts1, variant: v }
}

/// Decode a `sockaddr` payload.
fn parse_sockaddr_exec(data: &[u8]) -> (r: Option<SocketAddress>)
    ensures
        r == parse_sockaddr(data@),
{
    if data.len() < 4 {
        return None;
    }
    let family = read_le16(data, 0);
    let port = read_be16(data, 2);
    if family == 2 {
        if data.len() >= 8 {
            Some(SocketAddress::V4 { ip: read_be32(data, 4), port })
        } else {
            None
        }
    } else if family == 10 {
        if data.len() >= 24 {
            Some(SocketAddress::V6 { ip: read_be128(data, 8), port })
        } else {
            None
        }
    } else {
        None
    }
}

impl SnifferEvent {
    /// Decode one ring-buffer record slice.
    pub fn from_rb_slice(slice: &[u8]) -> (r: Result<Option<SnifferEvent>, ErrorSliceTooShort>)
        ensures
            match r {
                Err(_) => spec_from_rb_slice(slice@) is Err,
                Ok(None) => spec_from_rb_slice(slice@) == Ok::<Option<EventModel>, ()>(None),
                Ok(Some(ev)) => spec_from_rb_slice(slice@) == Ok::<Option<EventModel>, ()>(
                    Some(ev@),
                ),
            },
    {
        if slice.len() < 32 {
            return Err(ErrorSliceTooShort);
        }
        let header = slice_subrange(slice, 0, 32);
        proof {
            assert(header@.subrange(24, 28) =~= slice@.subrange(0, 32).subrange(24, 28));
        }
        if DataTag::from_u32(crate::event::read_le32(header, 24)).is_none() {
            return Ok(None);
        }
        let e = Event::from_bytes(header);
        if e.size < 0 {
            return Ok(
                Some(
                    SnifferEvent {
                        pid: e.pid,
                        fd: e.fd,
                        ts0: e.ts0,
                        ts1: e.ts1,
                        variant: SnifferEventVariant::Error(e.tag, e.size),
                    },
                ),
            );
        }
        let size = e.size as usize;
        if slice.len() < 32 + size {
            return Err(ErrorSliceTooShort);
        }
        let data = slice_subrange(slice, 32, 32 + size);
        match e.tag {
            DataTag::Accept => match parse_sockaddr_exec(data) {
                Some(a) => Ok(Some(with_header(&e, SnifferEventVariant::IncomingConnection(a)))),
                None => Ok(None),
            },
            DataTag::Connect => match parse_sockaddr_exec(data) {
                Some(a) => Ok(Some(with_header(&e, SnifferEventVariant::OutgoingConnection(a)))),
                None => Ok(None),
            },
            DataTag::Read => Ok(
                Some(
                    with_header(
                        &e,
                        SnifferEventVariant::IncomingData(vstd::slice::slice_to_vec(data)),
                    ),
                ),
            ),
            DataTag::Write => Ok(
                Some(
                    with_header(
                        &e,
                        SnifferEventVariant::OutgoingData(vstd::slice::slice_to_vec(data)),
                    ),
                ),
            ),
            DataTag::Close => Ok(Some(with_header(&e, SnifferEventVariant::Disconnected))),
            DataTag::Alias => if utf8_check(data) {
                Ok(
                    Some(
                        with_header(
                            &e,
                            SnifferEventVariant::NewApp(vstd::slice::slice_to_vec(data)),
                        ),
                    ),
                )
            } else {
                Ok(None)
            },
            DataTag::Random => if data.len() == 32 {
                Ok(
                    Some(
                        with_header(
                            &e,
                            SnifferEventVariant::Random(vstd::slice::slice_to_vec(data)),
                        ),
                    ),
                )
            } else {
                Ok(None)
            },
            _ => Ok(None),
        }
    }
}

impl RingBufferData for SnifferEvent {
    type Error = ErrorSliceTooShort;

    fn from_rb_slice(slice: &[u8]) -> Result<Option<Self>, ErrorSliceTooShort> {
        SnifferEvent::from_rb_slice(slice)
    }
}

// --- the inverse direction: what record an event came from ---

/// The `sockaddr` payload bytes of an address.
pub open spec fn sockaddr_bytes(a: SocketAddress) -> Seq<u8> {
    match a {
        SocketAddress::V4 { ip, port } => le16_bytes(2) + be16_bytes(port) + be32_bytes(ip),
        SocketAddress::V6 { ip, port } => le16_bytes(10) + be16_bytes(port) + seq![
            0u8, 0u8, 0u8, 0u8,
        ] + be128_bytes(ip),
    }
}

/// The payload bytes a variant is carried as.
pub open spec fn payload_bytes(v: VariantModel) -> Seq<u8> {
    match v {
        VariantModel::NewApp(a) => a,
        VariantModel::IncomingConnection(a) => sockaddr_bytes(a),
        VariantModel::OutgoingConnection(a) => sockaddr_bytes(a),
        VariantModel::Disconnected => Seq::empty(),
        VariantModel::IncomingData(d) => d,
        VariantModel::OutgoingData(d) => d,
        VariantModel::Random(d) => d,
        VariantModel::Error(_, _) => Seq::empty(),
    }
}

/// The tag a variant is carried under.
pub open spec fn wire_tag(v: VariantModel) -> DataTag {
    match v {
        VariantModel::NewApp(_) => DataTag::Alias,
        VariantModel::IncomingConnection(_) => DataTag::Accept,
        VariantModel::OutgoingConnection(_) => DataTag::Connect,
        VariantModel::Disconnected => DataTag::Close,
        VariantModel::IncomingData(_) => DataTag::Read,
        VariantModel::OutgoingData(_) => DataTag::Write,
        VariantModel::Random(_) => DataTag::Random,
        VariantModel::Error(t, _) => t,
    }
}

/// The size field a variant is carried with: its payload length, or the
/// failure code.
pub open spec fn wire_size(v: VariantModel) -> int {
    match v {
        VariantModel::Error(_, c) => c as int,
        _ => payload_bytes(v).len() as int,
    }
}

/// The record header an event is carried under.
pub open spec fn wire_header(m: EventModel) -> Event {
    Event {
        fd: m.fd,
        pid: m.pid,
        ts0: m.ts0,
        ts1: m.ts1,
        tag: wire_tag(m.variant),
        size: wire_size(m.variant) as i32,
    }
}

/// The full record bytes an event is carried as.
pub open spec fn spec_encode(m: EventModel) -> Seq<u8> {
    event_bytes(wire_header(m)) + payload_bytes(m.variant)
}

/// An event the record format can hold: payloads of at most 0x200 bytes,
/// exactly 32 random bytes, and a strictly negative failure code.
pub open spec fn encodable(m: EventModel) -> bool {
    &&& payload_bytes(m.variant).len() <= 0x200
    &&& match m.variant {
        VariantModel::Error(_, c) => c < 0,
        VariantModel::Random(d) => d.len() == 32,
        _ => true,
    }
}

/// An event the wire carries faithfully: it fits the record format, and an
/// alias is well-formed UTF-8, as the decoder demands of one.
pub open spec fn wf_event(m: EventModel) -> bool {
    &&& encodable(m)
    &&& match m.variant {
        VariantModel::NewApp(a) => valid_utf8(a),
        _ => true,
    }
}

/// Encoding a well-formed event and decoding the record yields the event
/// back.
#[verifier::rlimit(60)]
pub proof fn lemma_codec_roundtrip(m: EventModel)
    ensures
        wf_event(m) ==> spec_from_rb_slice(spec_encode(m)) == Ok::<Option<EventModel>, ()>(
            Some(m),
        ),
{
    if !wf_event(m) {
        return;
    }
    let s = spec_encode(m);
    let h = wire_header(m);
    let pl = payload_bytes(m.variant);
    lemma_event_header_roundtrip(h);
    assert(s.subrange(0, 32) =~= event_bytes(h));
    assert(spec_event_from_bytes(s.subrange(0, 32)) == Some(h));
    match m.variant {
        VariantModel::Error(t, c) => {
            assert(h.size == c);
        },
        _ => {
            assert(h.size == pl.len());
            assert(s.len() == 32 + h.size);
            let data = s.subrange(32, 32 + h.size as int);
            assert(data =~= pl);
            match m.variant {
                VariantModel::IncomingConnection(a) | VariantModel::OutgoingConnection(a) => {
                    lemma_sockaddr_roundtrip(a);
                },
                _ => {},
            }
        },
    }
}

/// Reading back an address payload yields the address.
pub proof fn lemma_sockaddr_roundtrip(a: SocketAddress)
    ensures
        parse_sockaddr(sockaddr_bytes(a)) == Some(a),
{
    let s = sockaddr_bytes(a);
    match a {
        SocketAddress::V4 { ip, port } => {
            assert(s.subrange(0, 2) =~= le16_bytes(2));
            assert(s.subrange(2, 4) =~= be16_bytes(port));
            assert(s.subrange(4, 8) =~= be32_bytes(ip));
            lemma_le16_roundtrip(2);
            lemma_be16_roundtrip(port);
            lemma_be32_roundtrip(ip);
        },
        SocketAddress::V6 { ip, port } => {
            assert(s.subrange(0, 2) =~= le16_bytes(10));
            assert(s.subrange(2, 4) =~= be16_bytes(port));
            assert(s.subrange(8, 24) =~= be128_bytes(ip));
            lemma_le16_roundtrip(10);
            lemma_be16_roundtrip(port);
            lemma_be128_roundtrip(ip);
        },
    }
}

impl SnifferEvent {
    /// Encode the event back into the ring-buffer record it is carried as.
    #[verifier::rlimit(100)]
    pub fn to_rb_bytes(&self) -> (r: Vec<u8>)
        requires
            encodable(self@),
        ensures
            r@ == spec_encode(self@),
    {
        let header = Event {
            fd: self.fd,
            pid: self.pid,
            ts0: self.ts0,
            ts1: self.ts1,
            tag: match &self.variant {
                SnifferEventVariant::NewApp(_) => DataTag::Alias,
                SnifferEventVariant::IncomingConnection(_) => DataTag::Accept,
                SnifferEventVariant::OutgoingConnection(_) => DataTag::Connect,
                SnifferEventVariant::Disconnected => DataTag::Close,
                SnifferEventVariant::IncomingData(_) => DataTag::Read,
                SnifferEventVariant::OutgoingData(_) => DataTag::Write,
                SnifferEventVariant::Random(_) => DataTag::Random,
                SnifferEventVariant::Error(t, _) => *t,
            },
            size: match &self.variant {
                SnifferEventVariant::NewApp(a) => a.len() as i32,
                SnifferEventVariant::IncomingConnection(a) => match a {
                    SocketAddress::V4 { .. } => 8,
                    SocketAddress::V6 { .. } => 24,
                },
                SnifferEventVariant::OutgoingConnection(a) => match a {
                    SocketAddress::V4 { .. } => 8,
                    SocketAddress::V6 { .. } => 24,
                },
                SnifferEventVariant::Disconnected => 0,
                SnifferEventVariant::IncomingData(d) => d.len() as i32,
                SnifferEventVariant::OutgoingData(d) => d.len() as i32,
                SnifferEventVariant::Random(d) => d.len() as i32,
                SnifferEventVariant::Error(_, c) => *c,
            },
        };
        let mut out = header.to_bytes();
        match &self.variant {
            SnifferEventVariant::NewApp(a) => {
                push_payload(&mut out, a.as_slice());
            },
            SnifferEventVariant::IncomingConnection(a) => {
                push_sockaddr(&mut out, a);
            },
            SnifferEventVariant::OutgoingConnection(a) => {
                push_sockaddr(&mut out, a);
            },
            SnifferEventVariant::Disconnected => {},
            SnifferEventVariant::IncomingData(d) => {
                push_payload(&mut out, d.as_slice());
            },
            SnifferEventVariant::OutgoingData(d) => {
                push_payload(&mut out, d.as_slice());
            },
            SnifferEventVariant::Random(d) => {
                push_payload(&mut out, d.as_slice());
            },
            SnifferEventVariant::Error(_, _) => {},
        }
        proof {
            assert(out@ =~= spec_encode(self@));
        }
        out
    }
}

/// Append payload bytes to a record.
fn push_payload(out: &mut Vec<u8>, b: &[u8])
    ensures
        final(out)@ == old(out)@ + b@,
{
    let mut i: usize = 0;
    while i < b.len()
        invariant
            i <= b@.len(),
            out@ == old(out)@ + b@.subrange(0, i as int),
        decreases b@.len() - i,
    {
        out.push(b[i]);
        proof {
            assert(old(out)@ + b@.subrange(0, i as int) + seq![b@[i as int]] =~= old(out)@
                + b@.subrange(0, i + 1));
        }
        i += 1;
    }
    proof {
        assert(b@.subrange(0, b@.len() as int) =~= b@);
    }
}

/// Append a `sockaddr` payload to a record.
fn push_sockaddr(out: &mut Vec<u8>, a: &SocketAddress)
    ensures
        final(out)@ == old(out)@ + sockaddr_bytes(*a),
{
    match a {
        SocketAddress::V4 { ip, port } => {
            crate::event::push_le16(out, 2);
            crate::event::push_be16(out, *port);
            crate::event::push_be32(out, *ip);
            proof {
                assert(final(out)@ =~= old(out)@ + sockaddr_bytes(*a));
            }
        },
        SocketAddress::V6 { ip, port } => {
            crate::event::push_le16(out, 10);
            crate::event::push_be16(out, *port);
            out.push(0);
            out.push(0);
            out.push(0);
            out.push(0);
            crate::event::push_be128(out, *ip);
            proof {
                assert(final(out)@ =~= old(out)@ + sockaddr_bytes(*a));
            }
        },
    }
}

} // verus!
