//! Transport stream packets: types, byte codec, reader and writer.

pub mod codec;
pub mod packet;
pub mod payload;
pub mod reader;
pub mod types;
pub mod writer;

pub use packet::{AdaptationField, TsHeader, TsPacket, TsPayload};
pub use reader::TsPacketReader;
pub use types::{ClockReference, ContinuityCounter, Pid, PidKind, TransportScramblingControl};
pub use writer::TsPacketWriter;
