//! Elementary stream identifiers.

pub mod stream_id;

pub use stream_id::StreamId;
