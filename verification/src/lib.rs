//! Client-side engine for the line-oriented JSON admin protocol spoken by a
//! mesh-routing daemon over a persistent duplex stream.
//!
//! The crate is organised around three verified cores: the incremental frame
//! reader that cuts a byte stream into single JSON values, the wire codec
//! that encodes request envelopes and decodes reply envelopes, and the
//! per-dialect schema normalizer that reshapes historical wire formats into
//! one stable entity model.  The caller supplies the byte stream and drives
//! the I/O; everything the engine decides is a function from bytes and
//! values to bytes and values.

pub mod codec;
pub mod dialect;
pub mod endpoint;
pub mod entities;
pub mod frame;
pub mod json;
pub mod normalize;
pub mod parse;
pub mod ser;

pub use codec::Request;
pub use codec::Response;
pub use dialect::RouterVersion;
pub use endpoint::Endpoint;
pub use entities::DHTEntry;
pub use entities::DurationValue;
pub use entities::Empty;
pub use entities::ListEntry;
pub use entities::PathEntry;
pub use entities::PeerEntry;
pub use entities::SelfEntry;
pub use entities::SessionEntry;
pub use entities::TreeEntry;
pub use entities::TunEntry;
pub use frame::FrameReader;
pub use frame::FrameStep;
pub use json::Json;
