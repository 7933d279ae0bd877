//! Serializing TS packets into a byte sink.

use vstd::prelude::*;

use crate::ts::codec::{serialize_packet, spec_serialize_packet};
use crate::ts::packet::{TsPacket, PACKET_SIZE};

verus! {

/// Writes TS packets into an owned byte buffer, 188 bytes per packet.
#[derive(Debug)]
pub struct TsPacketWriter {
    sink: Vec<u8>,
}

impl TsPacketWriter {
    /// The bytes written so far.
    pub closed spec fn spec_sink(&self) -> Seq<u8> {
        self.sink@
    }

    /// Makes a new `TsPacketWriter` with an empty sink.
    pub fn new() -> (r: Self)
        ensures
            r.spec_sink() == Seq::<u8>::empty(),
    {
        TsPacketWriter { sink: Vec::new() }
    }

    /// Serializes one packet and appends its 188 bytes to the sink.
    /// Stuffing bytes of `0xFF` pad the payload area when the payload is
    /// shorter than the space after the adaptation field.
    pub fn write_ts_packet(&mut self, packet: &TsPacket)
        requires
            packet@.wf(),
        ensures
            final(self).spec_sink() == old(self).spec_sink() + spec_serialize_packet(packet@),
            final(self).spec_sink().len() == old(self).spec_sink().len() + PACKET_SIZE,
    {
        let mut bytes = serialize_packet(packet);
        self.sink.append(&mut bytes);
    }

    /// Returns the bytes written so far.
    pub fn sink(&self) -> (r: &Vec<u8>)
        ensures
            r@ == self.spec_sink(),
    {
        &self.sink
    }

    /// Consumes the writer, returning the bytes written.
    pub fn into_sink(self) -> (r: Vec<u8>)
        ensures
            r@ == self.spec_sink(),
    {
        self.sink
    }
}

} // verus!
