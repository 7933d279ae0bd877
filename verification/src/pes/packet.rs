//! PES packet header and reassembled PES packets.

use vstd::prelude::*;

use crate::es::stream_id::StreamId;
use crate::ts::types::{ClockReference, CLOCK_BASE_MAX};

verus! {

/// Whether a PES packet with this stream identifier carries the optional
/// PES header (flag bytes, header length and timestamp fields) between the
/// packet length field and the payload.  The program stream map, padding
/// and private-2 streams, ECM, EMM, DSM-CC, H.222.1 type E and the program
/// stream directory carry none.
pub open spec fn spec_has_optional_header(stream_id: StreamId) -> bool {
    stream_id.0 != 0xBC && stream_id.0 != 0xBE && stream_id.0 != 0xBF && stream_id.0 != 0xF0
        && stream_id.0 != 0xF1 && stream_id.0 != 0xF2 && stream_id.0 != 0xF8 && stream_id.0 != 0xFF
}

/// PES packet header.
#[derive(Debug, Clone, Copy, PartialEq, Eq, Structural)]
pub struct PesHeader {
    pub stream_id: StreamId,
    pub priority: bool,
    pub data_alignment_indicator: bool,
    pub copyright: bool,
    pub original_or_copy: bool,
    /// Presentation timestamp: a 33-bit counter at 90 kHz.
    pub pts: Option<u64>,
    /// Decoding timestamp: a 33-bit counter at 90 kHz.  Only ever present
    /// together with a presentation timestamp.
    pub dts: Option<u64>,
    /// Elementary stream clock reference: 42 bits at 27 MHz.
    pub escr: Option<ClockReference>,
}

impl PesHeader {
    /// A header is well formed when its timestamps fit their bit widths, a
    /// decoding timestamp only comes with a presentation timestamp, and a
    /// stream without an optional header carries no optional fields.
    pub open spec fn wf(self) -> bool {
        &&& (self.pts matches Some(t) ==> t <= CLOCK_BASE_MAX)
        &&& (self.dts matches Some(t) ==> t <= CLOCK_BASE_MAX)
        &&& (self.dts is Some ==> self.pts is Some)
        &&& (self.escr matches Some(c) ==> c.wf())
        &&& (!spec_has_optional_header(self.stream_id) ==> !self.priority
            && !self.data_alignment_indicator && !self.copyright && !self.original_or_copy
            && self.pts is None && self.dts is None && self.escr is None)
    }

    /// The byte length of the optional PES header region: the two flag
    /// bytes and the header length byte, plus five bytes per timestamp and
    /// six for an ESCR; zero when the stream carries no optional header.
    pub open spec fn spec_optional_header_len(self) -> int {
        if spec_has_optional_header(self.stream_id) {
            3 + (if self.pts is Some {
                5int
            } else {
                0int
            }) + (if self.dts is Some {
                5int
            } else {
                0int
            }) + (if self.escr is Some {
                6int
            } else {
                0int
            })
        } else {
            0
        }
    }

    /// Returns the byte length of the optional PES header region.
    pub fn optional_header_len(&self) -> (r: u16)
        ensures
            r == self.spec_optional_header_len(),
    {
        if has_optional_header(self.stream_id) {
            let mut n: u16 = 3;
            if self.pts.is_some() {
                n += 5;
            }
            if self.dts.is_some() {
                n += 5;
            }
            if self.escr.is_some() {
                n += 6;
            }
            n
        } else {
            0
        }
    }
}

/// Returns whether a PES packet with this stream identifier carries the
/// optional PES header.
pub fn has_optional_header(stream_id: StreamId) -> (r: bool)
    ensures
        r == spec_has_optional_header(stream_id),
{
    stream_id.0 != 0xBC && stream_id.0 != 0xBE && stream_id.0 != 0xBF && stream_id.0 != 0xF0
        && stream_id.0 != 0xF1 && stream_id.0 != 0xF2 && stream_id.0 != 0xF8 && stream_id.0 != 0xFF
}

/// The mathematical value of a reassembled PES packet: its header and the
/// concatenated payload body.
#[verifier::ext_equal]
pub struct PesPacketView {
    pub header: PesHeader,
    pub data: Seq<u8>,
}

/// A reassembled PES packet: the header of its first fragment and the
/// concatenated payload body.
#[derive(Debug, PartialEq, Eq)]
pub struct PesPacket {
    pub header: PesHeader,
    pub data: Vec<u8>,
}

impl View for PesPacket {
    type V = PesPacketView;

    open spec fn view(&self) -> PesPacketView {
        PesPacketView { header: self.header, data: self.data@ }
    }
}

impl Clone for PesPacket {
    fn clone(&self) -> (r: Self)
        ensures
            r@ == self@,
    {
        let data = self.data.clone();
        proof {
            assert(data@ =~= self.data@);
        }
        PesPacket { header: self.header, data }
    }
}

} // verus!
