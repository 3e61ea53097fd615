//! Wire-level observation of a p2p node process: the record codec shared
//! between the kernel-side syscall tap and the user-space consumer, the
//! probe's decision logic, the ring-buffer consumer's position arithmetic,
//! the event router, and the per-connection multistream-select pipeline.

pub mod event;
pub mod multistream_select;
pub mod negotiation;
pub mod probe;
pub mod recorder;
pub mod ring;
pub mod router;
pub mod sniffer_event;
pub mod tokenizer;
pub mod varint;

pub use event::{DataTag, Event};
pub use probe::ProbeState;
pub use recorder::{ConnectionId, Cx, P2pRecorder};
pub use ring::RingBuffer;
pub use router::Router;
pub use sniffer_event::{
    ErrorSliceTooShort, RingBufferData, SnifferEvent, SnifferEventVariant, SocketAddress,
};
