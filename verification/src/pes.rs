//! Packetized elementary stream: packet types, decoder and reader.

pub mod decoder;
pub mod packet;
pub mod reader;

pub use decoder::PesPacketDecoder;
pub use packet::{PesHeader, PesPacket};
pub use reader::PesPacketReader;
