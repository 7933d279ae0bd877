//! The payload variants a TS packet can carry.

use vstd::prelude::*;

use crate::error::ErrorKind;
use crate::pes::packet::PesHeader;
use crate::ts::types::Pid;

verus! {

/// Largest number of payload bytes a single TS packet can carry.
pub const MAX_PAYLOAD_LEN: usize = 184;

/// An owned payload buffer of at most `MAX_PAYLOAD_LEN` bytes.
#[derive(Debug, Clone, PartialEq, Eq)]
pub struct Bytes {
    pub buf: Vec<u8>,
}

impl View for Bytes {
    type V = Seq<u8>;

    open spec fn view(&self) -> Seq<u8> {
        self.buf@
    }
}

impl Bytes {
    /// A buffer is well formed when it holds at most `MAX_PAYLOAD_LEN`
    /// bytes.
    pub open spec fn wf(self) -> bool {
        self.buf@.len() <= MAX_PAYLOAD_LEN
    }

    /// Makes a new `Bytes` instance holding a copy of `data`.
    ///
    /// Returns `ErrorKind::InvalidInput` if `data` is longer than
    /// `MAX_PAYLOAD_LEN`.
    pub fn new(data: &[u8]) -> (r: Result<Self, ErrorKind>)
        ensures
            data@.len() <= MAX_PAYLOAD_LEN ==> (r matches Ok(b) && b@ == data@ && b.wf()),
            data@.len() > MAX_PAYLOAD_LEN ==> r == Err::<Self, ErrorKind>(ErrorKind::InvalidInput),
    {
        if data.len() <= MAX_PAYLOAD_LEN {
            let mut buf: Vec<u8> = Vec::new();
            buf.extend_from_slice(data);
            proof {
                assert(buf@ =~= data@);
            }
            Ok(Bytes { buf })
        } else {
            Err(ErrorKind::InvalidInput)
        }
    }

    /// Returns the number of bytes held.
    pub fn len(&self) -> (r: usize)
        ensures
            r == self@.len(),
    {
        self.buf.len()
    }

    /// Returns the bytes held.
    pub fn as_slice(&self) -> (r: &[u8])
        ensures
            r@ == self@,
    {
        self.buf.as_slice()
    }
}

/// Payload of a null packet.  Its content carries no information and is
/// discarded on read.
#[derive(Debug, Clone, Copy, PartialEq, Eq, Structural)]
pub struct Null;

/// One entry of a program association table: a program number and the PID
/// on which that program's map table travels.
#[derive(Debug, Clone, Copy, PartialEq, Eq, Structural)]
pub struct ProgramAssociation {
    pub program_num: u16,
    pub program_map_pid: Pid,
}

/// The mathematical value of a program association table.
#[verifier::ext_equal]
pub struct PatView {
    pub table: Seq<ProgramAssociation>,
}

/// Program association table: the list of programs in the stream.
#[derive(Debug, Clone, PartialEq, Eq)]
pub struct Pat {
    pub table: Vec<ProgramAssociation>,
}

impl View for Pat {
    type V = PatView;

    open spec fn view(&self) -> PatView {
        PatView { table: self.table@ }
    }
}

impl PatView {
    /// Serialized length of the table section: table id, section length
    /// field, five fixed bytes, four bytes per entry and the CRC.
    pub open spec fn spec_len(self) -> int {
        12 + 4 * (self.table.len() as int)
    }

    /// A table is well formed when every entry's PID fits in 13 bits and
    /// the section fits in one TS packet payload.
    pub open spec fn wf(self) -> bool {
        &&& forall|i: int| 0 <= i < self.table.len() ==> (#[trigger] self.table[i]).program_map_pid.wf()
        &&& self.spec_len() <= MAX_PAYLOAD_LEN
    }
}

/// One entry of a program map table: an elementary stream.
#[verifier::ext_equal]
pub struct EsInfoView {
    pub stream_type: u8,
    pub elementary_pid: Pid,
    pub es_info: Seq<u8>,
}

/// One elementary stream announced by a program map table, with its raw
/// descriptor bytes.
#[derive(Debug, Clone, PartialEq, Eq)]
pub struct EsInfo {
    pub stream_type: u8,
    pub elementary_pid: Pid,
    pub es_info: Vec<u8>,
}

impl View for EsInfo {
    type V = EsInfoView;

    open spec fn view(&self) -> EsInfoView {
        EsInfoView {
            stream_type: self.stream_type,
            elementary_pid: self.elementary_pid,
            es_info: self.es_info@,
        }
    }
}

/// The mathematical value of a program map table.
#[verifier::ext_equal]
pub struct PmtView {
    pub program_num: u16,
    pub pcr_pid: Pid,
    pub program_info: Seq<u8>,
    pub table: Seq<EsInfoView>,
}

/// Program map table: the elementary streams of one program.
#[derive(Debug, Clone, PartialEq, Eq)]
pub struct Pmt {
    pub program_num: u16,
    pub pcr_pid: Pid,
    pub program_info: Vec<u8>,
    pub table: Vec<EsInfo>,
}

impl View for Pmt {
    type V = PmtView;

    open spec fn view(&self) -> PmtView {
        PmtView {
            program_num: self.program_num,
            pcr_pid: self.pcr_pid,
            program_info: self.program_info@,
            table: self.table@.map_values(|e: EsInfo| e@),
        }
    }
}

/// Serialized length of a sequence of elementary stream entries: five
/// fixed bytes plus the descriptor bytes for each.
pub open spec fn es_table_len(table: Seq<EsInfoView>) -> int
    decreases table.len(),
{
    if table.len() == 0 {
        0
    } else {
        5 + table.first().es_info.len() + es_table_len(table.drop_first())
    }
}

impl PmtView {
    /// Serialized length of the table section: table id, section length
    /// field, nine fixed bytes, the program descriptors, the elementary
    /// stream loop and the CRC.
    pub open spec fn spec_len(self) -> int {
        16 + self.program_info.len() + es_table_len(self.table)
    }

    /// A table is well formed when its PIDs fit in 13 bits and the section
    /// fits in one TS packet payload.
    pub open spec fn wf(self) -> bool {
        &&& self.pcr_pid.wf()
        &&& forall|i: int| 0 <= i < self.table.len() ==> (#[trigger] self.table[i]).elementary_pid.wf()
        &&& self.spec_len() <= MAX_PAYLOAD_LEN
    }
}

/// The mathematical value of the first fragment of a PES packet.
#[verifier::ext_equal]
pub struct PesView {
    pub header: PesHeader,
    pub pes_packet_len: u16,
    pub data: Seq<u8>,
}

/// The first fragment of a PES packet as carried by one TS packet: the
/// PES header, the on-wire 16-bit packet length (zero means unbounded),
/// and the payload prefix carried by this TS packet.
#[derive(Debug, Clone, PartialEq, Eq)]
pub struct Pes {
    pub header: PesHeader,
    pub pes_packet_len: u16,
    pub data: Bytes,
}

impl View for Pes {
    type V = PesView;

    open spec fn view(&self) -> PesView {
        PesView { header: self.header, pes_packet_len: self.pes_packet_len, data: self.data@ }
    }
}

impl PesView {
    /// Serialized length: start code, stream id and length field, the
    /// optional header, and the payload prefix.
    pub open spec fn spec_len(self) -> int {
        6 + self.header.spec_optional_header_len() + self.data.len()
    }

    /// A fragment is well formed when its header is and the whole fragment
    /// fits in one TS packet payload.
    pub open spec fn wf(self) -> bool {
        &&& self.header.wf()
        &&& self.spec_len() <= MAX_PAYLOAD_LEN
    }
}

} // verus!
