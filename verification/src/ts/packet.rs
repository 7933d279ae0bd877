//! TS packets: fixed header, adaptation field and payload dispatch.

use vstd::prelude::*;

use crate::ts::payload::{Bytes, Null, Pat, PatView, Pes, PesView, Pmt, PmtView, MAX_PAYLOAD_LEN};
use crate::ts::types::{ClockReference, ContinuityCounter, Pid, TransportScramblingControl};

verus! {

/// Size in bytes of a TS packet.
pub const PACKET_SIZE: usize = 188;

/// The sync byte that opens every TS packet.
pub const SYNC_BYTE: u8 = 0x47;

/// The mathematical value of an adaptation field.
#[verifier::ext_equal]
pub struct AdaptationFieldView {
    pub discontinuity_indicator: bool,
    pub random_access_indicator: bool,
    pub es_priority_indicator: bool,
    pub pcr: Option<ClockReference>,
    pub opcr: Option<ClockReference>,
    pub splice_countdown: Option<u8>,
    pub transport_private_data: Seq<u8>,
    pub extension: Option<Seq<u8>>,
}

/// Adaptation field of a TS packet.
///
/// Private data travels behind a one-byte length and is present on the
/// wire exactly when non-empty; the extension is kept as its raw bytes.
#[derive(Debug, Clone, PartialEq, Eq)]
pub struct AdaptationField {
    pub discontinuity_indicator: bool,
    pub random_access_indicator: bool,
    pub es_priority_indicator: bool,
    pub pcr: Option<ClockReference>,
    pub opcr: Option<ClockReference>,
    pub splice_countdown: Option<u8>,
    pub transport_private_data: Vec<u8>,
    pub extension: Option<Vec<u8>>,
}

impl View for AdaptationField {
    type V = AdaptationFieldView;

    open spec fn view(&self) -> AdaptationFieldView {
        AdaptationFieldView {
            discontinuity_indicator: self.discontinuity_indicator,
            random_access_indicator: self.random_access_indicator,
            es_priority_indicator: self.es_priority_indicator,
            pcr: self.pcr,
            opcr: self.opcr,
            splice_countdown: self.splice_countdown,
            transport_private_data: self.transport_private_data@,
            extension: match self.extension {
                Some(ref e) => Some(e@),
                None => None,
            },
        }
    }
}

impl AdaptationFieldView {
    /// The value of the adaptation field length byte: the number of bytes
    /// that follow it, with no stuffing.
    pub open spec fn spec_field_len(self) -> int {
        1 + (if self.pcr is Some {
            6int
        } else {
            0int
        }) + (if self.opcr is Some {
            6int
        } else {
            0int
        }) + (if self.splice_countdown is Some {
            1int
        } else {
            0int
        }) + (if self.transport_private_data.len() > 0 {
            1 + self.transport_private_data.len()
        } else {
            0
        }) + (match self.extension {
            Some(e) => 1 + e.len(),
            None => 0,
        })
    }

    /// An adaptation field is well formed when its clock references fit
    /// their bit widths and the whole field fits in a TS packet beside the
    /// header.
    pub open spec fn wf(self) -> bool {
        &&& (self.pcr matches Some(c) ==> c.wf())
        &&& (self.opcr matches Some(c) ==> c.wf())
        &&& self.spec_field_len() <= 183
    }
}

/// TS packet header.
///
/// The adaptation field control bits and the payload unit start indicator
/// are consumed while parsing to steer payload handling; they are not
/// stored here.
#[derive(Debug, Clone, Copy, PartialEq, Eq, Structural)]
pub struct TsHeader {
    pub transport_error_indicator: bool,
    pub transport_priority: bool,
    pub pid: Pid,
    pub transport_scrambling_control: TransportScramblingControl,
    pub continuity_counter: ContinuityCounter,
}

impl TsHeader {
    /// A header is well formed when its PID and continuity counter fit
    /// their bit widths.
    pub open spec fn wf(self) -> bool {
        self.pid.wf() && self.continuity_counter.wf()
    }
}

/// The mathematical value of a TS packet payload.
#[verifier::ext_equal]
pub enum TsPayloadView {
    Pat(PatView),
    Pmt(PmtView),
    Pes(PesView),
    Raw(Seq<u8>),
    Null,
}

/// Payload of a TS packet.
#[derive(Debug, Clone, PartialEq, Eq)]
pub enum TsPayload {
    Pat(Pat),
    Pmt(Pmt),
    Pes(Pes),
    Raw(Bytes),
    Null(Null),
}

impl View for TsPayload {
    type V = TsPayloadView;

    open spec fn view(&self) -> TsPayloadView {
        match self {
            TsPayload::Pat(p) => TsPayloadView::Pat(p@),
            TsPayload::Pmt(p) => TsPayloadView::Pmt(p@),
            TsPayload::Pes(p) => TsPayloadView::Pes(p@),
            TsPayload::Raw(b) => TsPayloadView::Raw(b@),
            TsPayload::Null(_) => TsPayloadView::Null,
        }
    }
}

impl TsPayloadView {
    /// Serialized length of the payload in bytes, before any stuffing.
    pub open spec fn spec_len(self) -> int {
        match self {
            TsPayloadView::Pat(p) => p.spec_len(),
            TsPayloadView::Pmt(p) => p.spec_len(),
            TsPayloadView::Pes(p) => p.spec_len(),
            TsPayloadView::Raw(b) => b.len() as int,
            TsPayloadView::Null => 0,
        }
    }

    /// Whether each variant is well formed.
    pub open spec fn wf(self) -> bool {
        match self {
            TsPayloadView::Pat(p) => p.wf(),
            TsPayloadView::Pmt(p) => p.wf(),
            TsPayloadView::Pes(p) => p.wf(),
            TsPayloadView::Raw(b) => b.len() <= MAX_PAYLOAD_LEN,
            TsPayloadView::Null => true,
        }
    }
}

/// The mathematical value of a TS packet.
#[verifier::ext_equal]
pub struct TsPacketView {
    pub header: TsHeader,
    pub adaptation_field: Option<AdaptationFieldView>,
    pub payload: Option<TsPayloadView>,
}

/// One 188-byte TS packet.
#[derive(Debug, Clone, PartialEq, Eq)]
pub struct TsPacket {
    pub header: TsHeader,
    pub adaptation_field: Option<AdaptationField>,
    pub payload: Option<TsPayload>,
}

impl View for TsPacket {
    type V = TsPacketView;

    open spec fn view(&self) -> TsPacketView {
        TsPacketView {
            header: self.header,
            adaptation_field: match self.adaptation_field {
                Some(ref a) => Some(a@),
                None => None,
            },
            payload: match self.payload {
                Some(ref p) => Some(p@),
                None => None,
            },
        }
    }
}

impl TsPacketView {
    /// Bytes taken by the adaptation field, length byte included.
    pub open spec fn spec_af_len(self) -> int {
        match self.adaptation_field {
            Some(a) => 1 + a.spec_field_len(),
            None => 0,
        }
    }

    /// A packet is well formed when its parts are, it carries an
    /// adaptation field or a payload, and everything fits in 188 bytes.
    /// A raw or PES payload must fill the packet exactly: those payloads
    /// extend to the packet boundary, so nothing may stand after them.
    pub open spec fn wf(self) -> bool {
        &&& self.header.wf()
        &&& (self.adaptation_field matches Some(a) ==> a.wf())
        &&& (self.payload matches Some(p) ==> p.wf())
        &&& match self.payload {
            Some(p) => {
                &&& 4 + self.spec_af_len() + p.spec_len() <= PACKET_SIZE
                &&& (p matches TsPayloadView::Raw(_) ==> 4 + self.spec_af_len() + p.spec_len()
                    == PACKET_SIZE)
                &&& (p matches TsPayloadView::Pes(_) ==> 4 + self.spec_af_len() + p.spec_len()
                    == PACKET_SIZE)
            },
            None => self.adaptation_field is Some && 4 + self.spec_af_len() == PACKET_SIZE,
        }
    }
}

impl TsPacket {
    /// A packet is well formed when its value is.
    pub open spec fn wf(self) -> bool {
        self@.wf()
    }
}

} // verus!
