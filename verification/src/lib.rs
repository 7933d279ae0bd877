//! MPEG-2 Transport Stream demultiplexing and Packetized Elementary Stream
//! reassembly.
//!
//! The crate decodes 188-byte TS packets from an in-memory byte stream,
//! classifies each packet by its PID using the in-band program tables
//! (PAT and PMT), and reassembles runs of TS payloads that belong to the
//! same elementary stream into whole PES packets.

pub mod error;
pub mod es;
pub mod pes;
pub mod pid_map;
pub mod ts;
