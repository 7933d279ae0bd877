//! Byte-exact serialization and parsing of TS packets.
//!
//! The serializers and parsers are specified against spec-level functions
//! on the packet values; the `lemma_..._roundtrip` proofs state that
//! parsing inverts serialization.

use vstd::prelude::*;
use vstd::seq_lib::lemma_concat_associative;

use crate::error::ErrorKind;
use crate::ts::packet::{AdaptationField, AdaptationFieldView, TsHeader, SYNC_BYTE};
use crate::ts::payload::{EsInfo, EsInfoView, Pat, PatView, Pes, PesView, Pmt, PmtView, ProgramAssociation, es_table_len};
use crate::es::stream_id::StreamId;
use crate::pes::packet::{has_optional_header, spec_has_optional_header, PesHeader};
use crate::ts::payload::Bytes;
use crate::pid_map::PidMap;
use crate::ts::packet::{TsPacket, TsPacketView, TsPayload, TsPayloadView, PACKET_SIZE};
use crate::ts::payload::Null;
use crate::ts::types::{
    ClockReference, ContinuityCounter, Pid, PidKind, TransportScramblingControl, CLOCK_BASE_MAX,
    PID_NULL, PID_PAT,
};

verus! {

/// Copies `win[from..to]` into a fresh vector.
pub fn copy_range(win: &Vec<u8>, from: usize, to: usize) -> (r: Vec<u8>)
    requires
        from <= to <= win@.len(),
    ensures
        r@ == win@.subrange(from as int, to as int),
{
    let mut out: Vec<u8> = Vec::new();
    let mut i = from;
    while i < to
        invariant
            from <= i <= to <= win@.len(),
            out@ == win@.subrange(from as int, i as int),
        decreases to - i,
    {
        out.push(win[i]);
        i += 1;
        proof {
            assert(out@ =~= win@.subrange(from as int, i as int));
        }
    }
    out
}

/// Reads the byte `off` places past `pos`.  Binding the vector's length
/// is what shows the verifier that the index addition fits in `usize`.
fn byte_at(win: &Vec<u8>, pos: usize, off: usize) -> (r: u8)
    requires
        pos + off < win@.len(),
    ensures
        r == win@[pos as int + off as int],
{
    let n = win.len();
    win[pos + off]
}

// --- TS header ------------------------------------------------------------

/// The four header bytes of a TS packet: the sync byte; the error,
/// payload-unit-start and priority flags packed with the PID; and the
/// scrambling control, adaptation field control and continuity counter.
pub open spec fn spec_serialize_header(h: TsHeader, afc: u8, pusi: bool) -> Seq<u8> {
    seq![
        SYNC_BYTE,
        (if h.transport_error_indicator {
            0x80u8
        } else {
            0u8
        }) | (if pusi {
            0x40u8
        } else {
            0u8
        }) | (if h.transport_priority {
            0x20u8
        } else {
            0u8
        }) | ((h.pid.0 >> 8) as u8),
        (h.pid.0 & 0xFF) as u8,
        ((h.transport_scrambling_control.spec_as_u8() << 6) | (afc << 4)
            | h.continuity_counter.0),
    ]
}

/// Reads the four header bytes.  Yields the header together with the
/// adaptation field control bits and the payload unit start indicator,
/// which steer the rest of the packet.  Fails on a bad sync byte and on
/// the reserved adaptation field control value zero.
pub open spec fn spec_parse_header(win: Seq<u8>) -> Option<(TsHeader, u8, bool)> {
    if win.len() < 4 {
        None
    } else if win[0] != SYNC_BYTE {
        None
    } else {
        let b1 = win[1];
        let b2 = win[2];
        let b3 = win[3];
        let afc = (b3 >> 4) & 3;
        if afc == 0 {
            None
        } else {
            Some(
                (
                    TsHeader {
                        transport_error_indicator: b1 & 0x80 == 0x80,
                        transport_priority: b1 & 0x20 == 0x20,
                        pid: Pid((((b1 & 0x1F) as u16) << 8) | (b2 as u16)),
                        transport_scrambling_control: TransportScramblingControl::spec_from_u8(
                            b3 >> 6,
                        ),
                        continuity_counter: ContinuityCounter(b3 & 0x0F),
                    },
                    afc,
                    b1 & 0x40 == 0x40,
                ),
            )
        }
    }
}

/// Parsing the serialized header gives the header fields back, whatever
/// bytes follow them in the window.
pub proof fn lemma_header_roundtrip(h: TsHeader, afc: u8, pusi: bool, win: Seq<u8>)
    requires
        h.wf(),
        1 <= afc <= 3,
        win.len() >= 4,
        win.subrange(0, 4) == spec_serialize_header(h, afc, pusi),
    ensures
        spec_parse_header(win) == Some((h, afc, pusi)),
{
    let s = spec_serialize_header(h, afc, pusi);
    assert(win[0] == s[0] && win[1] == s[1] && win[2] == s[2] && win[3] == s[3]) by {
        assert(win.subrange(0, 4)[0] == win[0]);
        assert(win.subrange(0, 4)[1] == win[1]);
        assert(win.subrange(0, 4)[2] == win[2]);
        assert(win.subrange(0, 4)[3] == win[3]);
    }
    let e: u8 = if h.transport_error_indicator { 0x80 } else { 0 };
    let u: u8 = if pusi { 0x40 } else { 0 };
    let t: u8 = if h.transport_priority { 0x20 } else { 0 };
    let pid = h.pid.0;
    let b1 = s[1];
    let b2 = s[2];
    assert((b1 & 0x80 == 0x80) == (e == 0x80) && (b1 & 0x40 == 0x40) == (u == 0x40) && (b1 & 0x20
        == 0x20) == (t == 0x20) && (((b1 & 0x1F) as u16) << 8) | (b2 as u16) == pid)
        by (bit_vector)
        requires
            (e == 0x80 || e == 0) && (u == 0x40 || u == 0) && (t == 0x20 || t == 0) && pid
                <= 0x1FFF && b1 == e | u | t | ((pid >> 8) as u8) && b2 == (pid & 0xFF) as u8,
    ;
    let sc = h.transport_scrambling_control.spec_as_u8();
    let cc = h.continuity_counter.0;
    let b3 = s[3];
    assert(b3 >> 6 == sc && (b3 >> 4) & 3 == afc && b3 & 0x0F == cc) by (bit_vector)
        requires
            sc < 4 && 1 <= afc <= 3 && cc < 16 && b3 == (sc << 6) | (afc << 4) | cc,
    ;
    assert(TransportScramblingControl::spec_from_u8(sc) == h.transport_scrambling_control);
}

// --- Program clock references ---------------------------------------------

/// The six bytes of a PCR or OPCR: the 33-bit base, six reserved bits set
/// to one, and the 9-bit extension.
pub open spec fn spec_serialize_clock(c: ClockReference) -> Seq<u8> {
    seq![
        (c.base >> 25) as u8,
        (c.base >> 17) as u8,
        (c.base >> 9) as u8,
        (c.base >> 1) as u8,
        ((((c.base & 1) as u8) << 7) | 0x7Eu8 | ((c.extension >> 8) as u8)),
        (c.extension & 0xFF) as u8,
    ]
}

/// Reads six PCR bytes; the reserved bits are ignored.
pub open spec fn spec_parse_clock(win: Seq<u8>, pos: int) -> ClockReference {
    ClockReference {
        base: ((win[pos] as u64) << 25) | ((win[pos + 1] as u64) << 17) | ((win[pos
            + 2] as u64) << 9) | ((win[pos + 3] as u64) << 1) | ((win[pos + 4] >> 7) as u64),
        extension: (((win[pos + 4] & 1) as u16) << 8) | (win[pos + 5] as u16),
    }
}

/// Parsing six serialized PCR bytes gives the clock reference back.
pub proof fn lemma_clock_roundtrip(c: ClockReference, win: Seq<u8>, pos: int)
    requires
        c.wf(),
        0 <= pos,
        pos + 6 <= win.len(),
        win.subrange(pos, pos + 6) == spec_serialize_clock(c),
    ensures
        spec_parse_clock(win, pos) == c,
{
    let s = spec_serialize_clock(c);
    assert(win[pos] == s[0] && win[pos + 1] == s[1] && win[pos + 2] == s[2] && win[pos + 3] == s[3]
        && win[pos + 4] == s[4] && win[pos + 5] == s[5]) by {
        assert(forall|i: int| 0 <= i < 6 ==> #[trigger] win.subrange(pos, pos + 6)[i] == win[pos + i]);
    }
    let base = c.base;
    let ext = c.extension;
    let b0 = s[0];
    let b1 = s[1];
    let b2 = s[2];
    let b3 = s[3];
    let b4 = s[4];
    let b5 = s[5];
    assert(((b0 as u64) << 25) | ((b1 as u64) << 17) | ((b2 as u64) << 9) | ((b3 as u64) << 1) | ((
    b4 >> 7) as u64) == base && (((b4 & 1) as u16) << 8) | (b5 as u16) == ext) by (bit_vector)
        requires
            base <= 0x1_FFFF_FFFFu64 && ext <= 0x1FFu16 && b0 == (base >> 25) as u8 && b1 == (base
                >> 17) as u8 && b2 == (base >> 9) as u8 && b3 == (base >> 1) as u8 && b4 == ((((
            base & 1) as u8) << 7) | 0x7Eu8 | ((ext >> 8) as u8)) && b5 == (ext & 0xFF) as u8,
    ;
}

/// Appends the six bytes of a PCR to `out`.
pub fn write_clock(out: &mut Vec<u8>, c: &ClockReference)
    ensures
        final(out)@ == old(out)@ + spec_serialize_clock(*c),
{
    out.push((c.base >> 25) as u8);
    out.push((c.base >> 17) as u8);
    out.push((c.base >> 9) as u8);
    out.push((c.base >> 1) as u8);
    out.push((((c.base & 1) as u8) << 7) | 0x7Eu8 | ((c.extension >> 8) as u8));
    out.push((c.extension & 0xFF) as u8);
    proof {
        assert(final(out)@ =~= old(out)@ + spec_serialize_clock(*c));
    }
}

/// Reads six PCR bytes at `pos`.
pub fn parse_clock(win: &Vec<u8>, pos: usize) -> (r: ClockReference)
    requires
        pos + 6 <= win@.len(),
    ensures
        r == spec_parse_clock(win@, pos as int),
        r.wf(),
{
    let n = win.len();
    proof {
        assert(pos + 6 <= n || pos + 5 <= n);
    }
    let n = win.len();
    proof {
        assert(pos + 6 <= n || pos + 5 <= n);
    }
    let b0 = byte_at(win, pos, 0);
    let b1 = byte_at(win, pos, 1);
    let b2 = byte_at(win, pos, 2);
    let b3 = byte_at(win, pos, 3);
    let b4 = byte_at(win, pos, 4);
    let b5 = byte_at(win, pos, 5);
    let base: u64 = ((b0 as u64) << 25) | ((b1 as u64) << 17) | ((b2 as u64) << 9) | ((
    b3 as u64) << 1) | ((b4 >> 7) as u64);
    let extension: u16 = (((b4 & 1) as u16) << 8) | (b5 as u16);
    proof {
        assert(((b0 as u64) << 25) | ((b1 as u64) << 17) | ((b2 as u64) << 9) | ((b3 as u64) << 1)
            | ((b4 >> 7) as u64) <= 0x1_FFFF_FFFFu64 && (((b4 & 1) as u16) << 8) | (b5 as u16)
            <= 0x1FFu16) by (bit_vector);
    }
    ClockReference { base, extension }
}

// --- Timestamps (PTS and DTS) ---------------------------------------------

/// The five bytes of a 33-bit timestamp: a four-bit prefix, then the
/// timestamp bits interleaved with marker bits.
pub open spec fn spec_serialize_timestamp(prefix: u8, t: u64) -> Seq<u8> {
    seq![
        ((prefix << 4) | ((((t >> 30) & 7) as u8) << 1) | 1u8),
        (t >> 22) as u8,
        (((((t >> 15) & 0x7F) as u8) << 1) | 1u8),
        (t >> 7) as u8,
        ((((t & 0x7F) as u8) << 1) | 1u8),
    ]
}

/// Reads five timestamp bytes; fails when the four-bit prefix does not
/// match.  Marker bits are ignored.
pub open spec fn spec_parse_timestamp(win: Seq<u8>, pos: int, prefix: u8) -> Option<u64> {
    if win[pos] >> 4 != prefix {
        None
    } else {
        Some(
            ((((win[pos] >> 1) & 7) as u64) << 30) | ((win[pos + 1] as u64) << 22) | ((((win[pos
                + 2] >> 1) & 0x7F) as u64) << 15) | ((win[pos + 3] as u64) << 7) | ((win[pos
                + 4] >> 1) as u64),
        )
    }
}

/// Parsing five serialized timestamp bytes gives the timestamp back.
pub proof fn lemma_timestamp_roundtrip(prefix: u8, t: u64, win: Seq<u8>, pos: int)
    requires
        prefix <= 15,
        t <= CLOCK_BASE_MAX,
        0 <= pos,
        pos + 5 <= win.len(),
        win.subrange(pos, pos + 5) == spec_serialize_timestamp(prefix, t),
    ensures
        spec_parse_timestamp(win, pos, prefix) == Some(t),
{
    let s = spec_serialize_timestamp(prefix, t);
    assert(win[pos] == s[0] && win[pos + 1] == s[1] && win[pos + 2] == s[2] && win[pos + 3] == s[3]
        && win[pos + 4] == s[4]) by {
        assert(forall|i: int| 0 <= i < 5 ==> #[trigger] win.subrange(pos, pos + 5)[i] == win[pos + i]);
    }
    let b0 = s[0];
    let b1 = s[1];
    let b2 = s[2];
    let b3 = s[3];
    let b4 = s[4];
    assert(b0 >> 4 == prefix && ((((b0 >> 1) & 7) as u64) << 30) | ((b1 as u64) << 22) | ((((b2
        >> 1) & 0x7F) as u64) << 15) | ((b3 as u64) << 7) | ((b4 >> 1) as u64) == t)
        by (bit_vector)
        requires
            prefix <= 15u8 && t <= 0x1_FFFF_FFFFu64 && b0 == ((prefix << 4) | ((((t >> 30)
                & 7) as u8) << 1) | 1u8) && b1 == (t >> 22) as u8 && b2 == (((((t >> 15)
                & 0x7F) as u8) << 1) | 1u8) && b3 == (t >> 7) as u8 && b4 == ((((t
                & 0x7F) as u8) << 1) | 1u8),
    ;
}

/// Appends five timestamp bytes to `out`.
pub fn write_timestamp(out: &mut Vec<u8>, prefix: u8, t: u64)
    ensures
        final(out)@ == old(out)@ + spec_serialize_timestamp(prefix, t),
{
    out.push((prefix << 4) | ((((t >> 30) & 7) as u8) << 1) | 1u8);
    out.push((t >> 22) as u8);
    out.push(((((t >> 15) & 0x7F) as u8) << 1) | 1u8);
    out.push((t >> 7) as u8);
    out.push((((t & 0x7F) as u8) << 1) | 1u8);
    proof {
        assert(final(out)@ =~= old(out)@ + spec_serialize_timestamp(prefix, t));
    }
}

/// Reads five timestamp bytes at `pos`, checking the prefix.
pub fn parse_timestamp(win: &Vec<u8>, pos: usize, prefix: u8) -> (r: Result<u64, ErrorKind>)
    requires
        pos + 5 <= win@.len(),
    ensures
        r matches Ok(t) ==> spec_parse_timestamp(win@, pos as int, prefix) == Some(t) && t
            <= CLOCK_BASE_MAX,
        r is Err ==> spec_parse_timestamp(win@, pos as int, prefix) is None && r == Err::<
            u64,
            ErrorKind,
        >(ErrorKind::InvalidInput),
{
    let n = win.len();
    proof {
        assert(pos + 6 <= n || pos + 5 <= n);
    }
    let n = win.len();
    proof {
        assert(pos + 6 <= n || pos + 5 <= n);
    }
    let b0 = byte_at(win, pos, 0);
    let b1 = byte_at(win, pos, 1);
    let b2 = byte_at(win, pos, 2);
    let b3 = byte_at(win, pos, 3);
    let b4 = byte_at(win, pos, 4);
    if b0 >> 4 != prefix {
        return Err(ErrorKind::InvalidInput);
    }
    let t: u64 = ((((b0 >> 1) & 7) as u64) << 30) | ((b1 as u64) << 22) | ((((b2 >> 1)
        & 0x7F) as u64) << 15) | ((b3 as u64) << 7) | ((b4 >> 1) as u64);
    proof {
        assert(((((b0 >> 1) & 7) as u64) << 30) | ((b1 as u64) << 22) | ((((b2 >> 1)
            & 0x7F) as u64) << 15) | ((b3 as u64) << 7) | ((b4 >> 1) as u64) <= 0x1_FFFF_FFFFu64)
            by (bit_vector);
    }
    Ok(t)
}

// --- Elementary stream clock references -----------------------------------

/// The six bytes of an ESCR: the 33-bit base and the 9-bit extension,
/// interleaved with marker bits.
pub open spec fn spec_serialize_escr(c: ClockReference) -> Seq<u8> {
    seq![
        (((((c.base >> 30) & 7) as u8) << 3) | 4u8 | (((c.base >> 28) & 3) as u8)),
        (c.base >> 20) as u8,
        (((((c.base >> 15) & 0x1F) as u8) << 3) | 4u8 | (((c.base >> 13) & 3) as u8)),
        (c.base >> 5) as u8,
        ((((c.base & 0x1F) as u8) << 3) | 4u8 | (((c.extension >> 7) & 3) as u8)),
        ((((c.extension & 0x7F) as u8) << 1) | 1u8),
    ]
}

/// Reads six ESCR bytes; reserved and marker bits are ignored.
pub open spec fn spec_parse_escr(win: Seq<u8>, pos: int) -> ClockReference {
    ClockReference {
        base: ((((win[pos] >> 3) & 7) as u64) << 30) | (((win[pos] & 3) as u64) << 28) | ((win[pos
            + 1] as u64) << 20) | ((((win[pos + 2] >> 3) & 0x1F) as u64) << 15) | (((win[pos + 2]
            & 3) as u64) << 13) | ((win[pos + 3] as u64) << 5) | (((win[pos + 4] >> 3)
            & 0x1F) as u64),
        extension: (((win[pos + 4] & 3) as u16) << 7) | ((win[pos + 5] >> 1) as u16),
    }
}

/// Parsing six serialized ESCR bytes gives the clock reference back.
pub proof fn lemma_escr_roundtrip(c: ClockReference, win: Seq<u8>, pos: int)
    requires
        c.wf(),
        0 <= pos,
        pos + 6 <= win.len(),
        win.subrange(pos, pos + 6) == spec_serialize_escr(c),
    ensures
        spec_parse_escr(win, pos) == c,
{
    let s = spec_serialize_escr(c);
    assert(win[pos] == s[0] && win[pos + 1] == s[1] && win[pos + 2] == s[2] && win[pos + 3] == s[3]
        && win[pos + 4] == s[4] && win[pos + 5] == s[5]) by {
        assert(forall|i: int| 0 <= i < 6 ==> #[trigger] win.subrange(pos, pos + 6)[i] == win[pos + i]);
    }
    let base = c.base;
    let ext = c.extension;
    let b0 = s[0];
    let b1 = s[1];
    let b2 = s[2];
    let b3 = s[3];
    let b4 = s[4];
    let b5 = s[5];
    assert(((((b0 >> 3) & 7) as u64) << 30) | (((b0 & 3) as u64) << 28) | ((b1 as u64) << 20) | ((((
    b2 >> 3) & 0x1F) as u64) << 15) | (((b2 & 3) as u64) << 13) | ((b3 as u64) << 5) | (((b4 >> 3)
        & 0x1F) as u64) == base && (((b4 & 3) as u16) << 7) | ((b5 >> 1) as u16) == ext)
        by (bit_vector)
        requires
            base <= 0x1_FFFF_FFFFu64 && ext <= 0x1FFu16 && b0 == (((((base >> 30) & 7) as u8) << 3)
                | 4u8 | (((base >> 28) & 3) as u8)) && b1 == (base >> 20) as u8 && b2 == (((((base
                >> 15) & 0x1F) as u8) << 3) | 4u8 | (((base >> 13) & 3) as u8)) && b3 == (base
                >> 5) as u8 && b4 == ((((base & 0x1F) as u8) << 3) | 4u8 | (((ext >> 7)
                & 3) as u8)) && b5 == ((((ext & 0x7F) as u8) << 1) | 1u8),
    ;
}

/// Appends six ESCR bytes to `out`.
pub fn write_escr(out: &mut Vec<u8>, c: &ClockReference)
    ensures
        final(out)@ == old(out)@ + spec_serialize_escr(*c),
{
    out.push(((((c.base >> 30) & 7) as u8) << 3) | 4u8 | (((c.base >> 28) & 3) as u8));
    out.push((c.base >> 20) as u8);
    out.push(((((c.base >> 15) & 0x1F) as u8) << 3) | 4u8 | (((c.base >> 13) & 3) as u8));
    out.push((c.base >> 5) as u8);
    out.push((((c.base & 0x1F) as u8) << 3) | 4u8 | (((c.extension >> 7) & 3) as u8));
    out.push((((c.extension & 0x7F) as u8) << 1) | 1u8);
    proof {
        assert(final(out)@ =~= old(out)@ + spec_serialize_escr(*c));
    }
}

/// Reads six ESCR bytes at `pos`.
pub fn parse_escr(win: &Vec<u8>, pos: usize) -> (r: ClockReference)
    requires
        pos + 6 <= win@.len(),
    ensures
        r == spec_parse_escr(win@, pos as int),
        r.wf(),
{
    let n = win.len();
    proof {
        assert(pos + 6 <= n || pos + 5 <= n);
    }
    let n = win.len();
    proof {
        assert(pos + 6 <= n || pos + 5 <= n);
    }
    let b0 = byte_at(win, pos, 0);
    let b1 = byte_at(win, pos, 1);
    let b2 = byte_at(win, pos, 2);
    let b3 = byte_at(win, pos, 3);
    let b4 = byte_at(win, pos, 4);
    let b5 = byte_at(win, pos, 5);
    let base: u64 = ((((b0 >> 3) & 7) as u64) << 30) | (((b0 & 3) as u64) << 28) | ((
    b1 as u64) << 20) | ((((b2 >> 3) & 0x1F) as u64) << 15) | (((b2 & 3) as u64) << 13) | ((
    b3 as u64) << 5) | (((b4 >> 3) & 0x1F) as u64);
    let extension: u16 = (((b4 & 3) as u16) << 7) | ((b5 >> 1) as u16);
    proof {
        assert(((((b0 >> 3) & 7) as u64) << 30) | (((b0 & 3) as u64) << 28) | ((b1 as u64) << 20)
            | ((((b2 >> 3) & 0x1F) as u64) << 15) | (((b2 & 3) as u64) << 13) | ((b3 as u64) << 5)
            | (((b4 >> 3) & 0x1F) as u64) <= 0x1_FFFF_FFFFu64 && (((b4 & 3) as u16) << 7) | ((b5
            >> 1) as u16) <= 0x1FFu16) by (bit_vector);
    }
    ClockReference { base, extension }
}

/// Appends the four header bytes of a TS packet to `out`.
pub fn write_header(out: &mut Vec<u8>, h: &TsHeader, afc: u8, pusi: bool)
    ensures
        final(out)@ == old(out)@ + spec_serialize_header(*h, afc, pusi),
{
    out.push(SYNC_BYTE);
    let b1: u8 = (if h.transport_error_indicator {
        0x80u8
    } else {
        0u8
    }) | (if pusi {
        0x40u8
    } else {
        0u8
    }) | (if h.transport_priority {
        0x20u8
    } else {
        0u8
    }) | ((h.pid.0 >> 8) as u8);
    out.push(b1);
    out.push((h.pid.0 & 0xFF) as u8);
    let b3: u8 = (h.transport_scrambling_control.as_u8() << 6) | (afc << 4)
        | h.continuity_counter.0;
    out.push(b3);
    proof {
        assert(final(out)@ =~= old(out)@ + spec_serialize_header(*h, afc, pusi));
    }
}

/// Reads the four header bytes at the start of `win`.
pub fn parse_header(win: &Vec<u8>) -> (r: Result<(TsHeader, u8, bool), ErrorKind>)
    requires
        win@.len() >= 4,
    ensures
        r matches Ok(v) ==> spec_parse_header(win@) == Some(v),
        r is Err ==> spec_parse_header(win@) is None && r == Err::<(TsHeader, u8, bool), ErrorKind>(
            ErrorKind::InvalidInput,
        ),
{
    if win[0] != SYNC_BYTE {
        return Err(ErrorKind::InvalidInput);
    }
    let b1 = win[1];
    let b2 = win[2];
    let b3 = win[3];
    let afc = (b3 >> 4) & 3;
    if afc == 0 {
        return Err(ErrorKind::InvalidInput);
    }
    let tsc = match TransportScramblingControl::from_u8(b3 >> 6) {
        Ok(v) => v,
        Err(_) => {
            proof {
                assert(b3 >> 6 < 4) by (bit_vector);
            }
            return Err(ErrorKind::InvalidInput);
        },
    };
    proof {
        assert(b3 >> 6 < 4) by (bit_vector);
    }
    Ok(
        (
            TsHeader {
                transport_error_indicator: b1 & 0x80 == 0x80,
                transport_priority: b1 & 0x20 == 0x20,
                pid: Pid((((b1 & 0x1F) as u16) << 8) | (b2 as u16)),
                transport_scrambling_control: tsc,
                continuity_counter: ContinuityCounter(b3 & 0x0F),
            },
            afc,
            b1 & 0x40 == 0x40,
        ),
    )
}

// --- Adaptation field -----------------------------------------------------

/// The flags byte of an adaptation field.  The private data flag is set
/// exactly when private data bytes are carried.
pub open spec fn spec_af_flags(a: AdaptationFieldView) -> u8 {
    (if a.discontinuity_indicator {
        0x80u8
    } else {
        0u8
    }) | (if a.random_access_indicator {
        0x40u8
    } else {
        0u8
    }) | (if a.es_priority_indicator {
        0x20u8
    } else {
        0u8
    }) | (if a.pcr is Some {
        0x10u8
    } else {
        0u8
    }) | (if a.opcr is Some {
        0x08u8
    } else {
        0u8
    }) | (if a.splice_countdown is Some {
        0x04u8
    } else {
        0u8
    }) | (if a.transport_private_data.len() > 0 {
        0x02u8
    } else {
        0u8
    }) | (if a.extension is Some {
        0x01u8
    } else {
        0u8
    })
}

/// The content bytes of an adaptation field, after the length byte: the
/// flags byte and the optional fields, with no stuffing.  Its length is
/// `spec_field_len`.
pub open spec fn spec_serialize_af(a: AdaptationFieldView) -> Seq<u8> {
    seq![spec_af_flags(a)] + (match a.pcr {
        Some(c) => spec_serialize_clock(c),
        None => Seq::empty(),
    }) + (match a.opcr {
        Some(c) => spec_serialize_clock(c),
        None => Seq::empty(),
    }) + (match a.splice_countdown {
        Some(v) => seq![v],
        None => Seq::empty(),
    }) + (if a.transport_private_data.len() > 0 {
        seq![a.transport_private_data.len() as u8] + a.transport_private_data
    } else {
        Seq::empty()
    }) + (match a.extension {
        Some(e) => seq![e.len() as u8] + e,
        None => Seq::empty(),
    })
}

/// Reads an adaptation field whose content (flags byte first) spans
/// `win[start..end]`.  Bytes past the announced fields are stuffing and
/// are ignored.
pub open spec fn spec_parse_af(win: Seq<u8>, start: int, end: int) -> Option<AdaptationFieldView> {
    let flags = win[start];
    let has_pcr = flags & 0x10 == 0x10;
    let has_opcr = flags & 0x08 == 0x08;
    let has_splice = flags & 0x04 == 0x04;
    let has_priv = flags & 0x02 == 0x02;
    let has_ext = flags & 0x01 == 0x01;
    let p_pcr = start + 1;
    let p_opcr = p_pcr + if has_pcr {
        6int
    } else {
        0int
    };
    let p_splice = p_opcr + if has_opcr {
        6int
    } else {
        0int
    };
    let p_priv = p_splice + if has_splice {
        1int
    } else {
        0int
    };
    if p_priv > end || (has_priv && p_priv + 1 > end) {
        None
    } else {
        let priv_len = if has_priv {
            win[p_priv] as int
        } else {
            0
        };
        let p_ext = p_priv + if has_priv {
            1 + priv_len
        } else {
            0
        };
        if p_ext > end || (has_ext && p_ext + 1 > end) {
            None
        } else {
            let ext_len = if has_ext {
                win[p_ext] as int
            } else {
                0
            };
            let p_end = p_ext + if has_ext {
                1 + ext_len
            } else {
                0
            };
            if p_end > end {
                None
            } else {
                Some(
                    AdaptationFieldView {
                        discontinuity_indicator: flags & 0x80 == 0x80,
                        random_access_indicator: flags & 0x40 == 0x40,
                        es_priority_indicator: flags & 0x20 == 0x20,
                        pcr: if has_pcr {
                            Some(spec_parse_clock(win, p_pcr))
                        } else {
                            None
                        },
                        opcr: if has_opcr {
                            Some(spec_parse_clock(win, p_opcr))
                        } else {
                            None
                        },
                        splice_countdown: if has_splice {
                            Some(win[p_splice])
                        } else {
                            None
                        },
                        transport_private_data: if has_priv {
                            win.subrange(p_priv + 1, p_priv + 1 + priv_len)
                        } else {
                            Seq::empty()
                        },
                        extension: if has_ext {
                            Some(win.subrange(p_ext + 1, p_ext + 1 + ext_len))
                        } else {
                            None
                        },
                    },
                )
            }
        }
    }
}

/// Parsing a serialized adaptation field gives the field back.
#[verifier::rlimit(100)]
#[verifier::spinoff_prover]
pub proof fn lemma_af_roundtrip(a: AdaptationFieldView, win: Seq<u8>, start: int)
    requires
        a.wf(),
        0 <= start,
        start + a.spec_field_len() <= win.len(),
        win.subrange(start, start + a.spec_field_len()) == spec_serialize_af(a),
    ensures
        spec_parse_af(win, start, start + a.spec_field_len()) == Some(a),
{
    let s = spec_serialize_af(a);
    let fl = a.spec_field_len();
    let end = start + fl;
    let flags = spec_af_flags(a);
    let s_pcr = match a.pcr {
        Some(c) => spec_serialize_clock(c),
        None => Seq::<u8>::empty(),
    };
    let s_opcr = match a.opcr {
        Some(c) => spec_serialize_clock(c),
        None => Seq::<u8>::empty(),
    };
    let s_spl = match a.splice_countdown {
        Some(v) => seq![v],
        None => Seq::<u8>::empty(),
    };
    let s_priv = if a.transport_private_data.len() > 0 {
        seq![a.transport_private_data.len() as u8] + a.transport_private_data
    } else {
        Seq::<u8>::empty()
    };
    let s_ext = match a.extension {
        Some(e) => seq![e.len() as u8] + e,
        None => Seq::<u8>::empty(),
    };
    let n_pcr = s_pcr.len() as int;
    let n_opcr = s_opcr.len() as int;
    let n_spl = s_spl.len() as int;
    let n_priv = s_priv.len() as int;
    let n_ext = s_ext.len() as int;
    assert(s == seq![flags] + s_pcr + s_opcr + s_spl + s_priv + s_ext);
    assert(n_pcr == if a.pcr is Some { 6int } else { 0int });
    assert(n_opcr == if a.opcr is Some { 6int } else { 0int });
    assert(n_spl == if a.splice_countdown is Some { 1int } else { 0int });
    assert(n_priv == if a.transport_private_data.len() > 0 {
        1 + a.transport_private_data.len() as int
    } else {
        0int
    });
    assert(n_ext == match a.extension {
        Some(e) => 1 + e.len() as int,
        None => 0int,
    });
    assert(fl == 1 + n_pcr + n_opcr + n_spl + n_priv + n_ext);
    assert(forall|i: int| 0 <= i < fl ==> win[start + i] == #[trigger] s[i]) by {
        assert(forall|i: int|
            0 <= i < fl ==> #[trigger] win.subrange(start, end)[i] == win[start + i]);
    }
    let d: u8 = if a.discontinuity_indicator { 0x80 } else { 0 };
    let r: u8 = if a.random_access_indicator { 0x40 } else { 0 };
    let e: u8 = if a.es_priority_indicator { 0x20 } else { 0 };
    let pc: u8 = if a.pcr is Some { 0x10 } else { 0 };
    let oc: u8 = if a.opcr is Some { 0x08 } else { 0 };
    let sp: u8 = if a.splice_countdown is Some { 0x04 } else { 0 };
    let pv: u8 = if a.transport_private_data.len() > 0 { 0x02 } else { 0 };
    let ex: u8 = if a.extension is Some { 0x01 } else { 0 };
    assert((flags & 0x80 == 0x80) == (d == 0x80) && (flags & 0x40 == 0x40) == (r == 0x40) && (flags
        & 0x20 == 0x20) == (e == 0x20) && (flags & 0x10 == 0x10) == (pc == 0x10) && (flags & 0x08
        == 0x08) == (oc == 0x08) && (flags & 0x04 == 0x04) == (sp == 0x04) && (flags & 0x02 == 0x02)
        == (pv == 0x02) && (flags & 0x01 == 0x01) == (ex == 0x01)) by (bit_vector)
        requires
            (d == 0x80 || d == 0) && (r == 0x40 || r == 0) && (e == 0x20 || e == 0) && (pc == 0x10
                || pc == 0) && (oc == 0x08 || oc == 0) && (sp == 0x04 || sp == 0) && (pv == 0x02
                || pv == 0) && (ex == 0x01 || ex == 0) && flags == d | r | e | pc | oc | sp | pv
                | ex,
    ;
    assert(win[start] == flags) by {
        assert(s[0] == flags);
        assert(win[start + 0] == s[0]);
    }
    let p_pcr = start + 1;
    let p_opcr = p_pcr + n_pcr;
    let p_spl = p_opcr + n_opcr;
    let p_priv = p_spl + n_spl;
    let p_ext = p_priv + n_priv;
    if a.pcr is Some {
        let c = a.pcr->Some_0;
        assert(win.subrange(p_pcr, p_pcr + 6) =~= s_pcr) by {
            assert(forall|i: int| 0 <= i < 6 ==> s[1 + i] == #[trigger] s_pcr[i]);
        }
        lemma_clock_roundtrip(c, win, p_pcr);
    }
    if a.opcr is Some {
        let c = a.opcr->Some_0;
        assert(win.subrange(p_opcr, p_opcr + 6) =~= s_opcr) by {
            assert(forall|i: int| 0 <= i < 6 ==> s[1 + n_pcr + i] == #[trigger] s_opcr[i]);
        }
        lemma_clock_roundtrip(c, win, p_opcr);
    }
    if a.splice_countdown is Some {
        assert(win[p_spl] == a.splice_countdown->Some_0) by {
            assert(s[p_spl - start] == s_spl[0]);
        }
    }
    if a.transport_private_data.len() > 0 {
        let pd = a.transport_private_data;
        assert(win[p_priv] == pd.len() as u8) by {
            assert(s[p_priv - start] == s_priv[0]);
        }
        assert(win[p_priv] as int == pd.len() as int);
        assert(win.subrange(p_priv + 1, p_priv + 1 + pd.len() as int) =~= pd) by {
            assert(forall|i: int| 0 <= i < pd.len() ==> s[p_priv - start + 1 + i] == #[trigger] pd[i]);
        }
    }
    if a.extension is Some {
        let eb = a.extension->Some_0;
        assert(win[p_ext] == eb.len() as u8) by {
            assert(s[p_ext - start] == s_ext[0]);
        }
        assert(win[p_ext] as int == eb.len() as int);
        assert(win.subrange(p_ext + 1, p_ext + 1 + eb.len() as int) =~= eb) by {
            assert(forall|i: int| 0 <= i < eb.len() ==> s[p_ext - start + 1 + i] == #[trigger] eb[i]);
        }
    }
    let parsed = spec_parse_af(win, start, end);
    assert(parsed is Some);
    assert(parsed->Some_0 =~= a);
}

/// Appends all of `data` to `out`.
pub fn write_bytes(out: &mut Vec<u8>, data: &Vec<u8>)
    ensures
        final(out)@ == old(out)@ + data@,
{
    let mut i: usize = 0;
    while i < data.len()
        invariant
            i <= data@.len(),
            out@ == old(out)@ + data@.subrange(0, i as int),
        decreases data@.len() - i,
    {
        out.push(data[i]);
        i += 1;
        proof {
            assert(out@ =~= old(out)@ + data@.subrange(0, i as int));
        }
    }
    proof {
        assert(old(out)@ + data@.subrange(0, data@.len() as int) =~= old(out)@ + data@);
    }
}

/// Appends the content bytes of an adaptation field (flags byte first,
/// no length byte and no stuffing) to `out`.
#[verifier::rlimit(100)]
#[verifier::spinoff_prover]
pub fn write_af(out: &mut Vec<u8>, a: &AdaptationField)
    requires
        a@.wf(),
    ensures
        final(out)@ == old(out)@ + spec_serialize_af(a@),
{
    let ghost s_pcr: Seq<u8> = match a@.pcr {
        Some(c) => spec_serialize_clock(c),
        None => Seq::<u8>::empty(),
    };
    let ghost s_opcr: Seq<u8> = match a@.opcr {
        Some(c) => spec_serialize_clock(c),
        None => Seq::<u8>::empty(),
    };
    let ghost s_spl: Seq<u8> = match a@.splice_countdown {
        Some(v) => seq![v],
        None => Seq::<u8>::empty(),
    };
    let ghost s_priv: Seq<u8> = if a@.transport_private_data.len() > 0 {
        seq![a@.transport_private_data.len() as u8] + a@.transport_private_data
    } else {
        Seq::<u8>::empty()
    };
    let ghost s_ext: Seq<u8> = match a@.extension {
        Some(e) => seq![e.len() as u8] + e,
        None => Seq::<u8>::empty(),
    };
    let flags: u8 = (if a.discontinuity_indicator {
        0x80u8
    } else {
        0u8
    }) | (if a.random_access_indicator {
        0x40u8
    } else {
        0u8
    }) | (if a.es_priority_indicator {
        0x20u8
    } else {
        0u8
    }) | (if a.pcr.is_some() {
        0x10u8
    } else {
        0u8
    }) | (if a.opcr.is_some() {
        0x08u8
    } else {
        0u8
    }) | (if a.splice_countdown.is_some() {
        0x04u8
    } else {
        0u8
    }) | (if a.transport_private_data.len() > 0 {
        0x02u8
    } else {
        0u8
    }) | (if a.extension.is_some() {
        0x01u8
    } else {
        0u8
    });
    proof {
        assert(flags == spec_af_flags(a@));
    }
    out.push(flags);
    if let Some(c) = &a.pcr {
        write_clock(out, c);
    }
    proof {
        lemma_concat_associative(old(out)@, seq![flags], s_pcr);
        assert(out@ == old(out)@ + (seq![flags] + s_pcr));
    }
    if let Some(c) = &a.opcr {
        write_clock(out, c);
    }
    proof {
        lemma_concat_associative(old(out)@, seq![flags] + s_pcr, s_opcr);
        assert(out@ == old(out)@ + (seq![flags] + s_pcr + s_opcr));
    }
    if let Some(v) = &a.splice_countdown {
        out.push(*v);
    }
    proof {
        if a.splice_countdown.is_some() {
            assert(out@ =~= old(out)@ + (seq![flags] + s_pcr + s_opcr) + s_spl);
        }
        lemma_concat_associative(old(out)@, seq![flags] + s_pcr + s_opcr, s_spl);
        assert(out@ == old(out)@ + (seq![flags] + s_pcr + s_opcr + s_spl));
    }
    if a.transport_private_data.len() > 0 {
        out.push(a.transport_private_data.len() as u8);
        let ghost mid = out@;
        write_bytes(out, &a.transport_private_data);
        proof {
            lemma_concat_associative(
                old(out)@ + (seq![flags] + s_pcr + s_opcr + s_spl),
                seq![a.transport_private_data@.len() as u8],
                a.transport_private_data@,
            );
            assert(mid =~= old(out)@ + (seq![flags] + s_pcr + s_opcr + s_spl) + seq![
                a.transport_private_data@.len() as u8,
            ]);
        }
    }
    proof {
        lemma_concat_associative(old(out)@, seq![flags] + s_pcr + s_opcr + s_spl, s_priv);
        assert(out@ == old(out)@ + (seq![flags] + s_pcr + s_opcr + s_spl + s_priv));
    }
    if let Some(ext_bytes) = &a.extension {
        out.push(ext_bytes.len() as u8);
        let ghost mid = out@;
        write_bytes(out, ext_bytes);
        proof {
            lemma_concat_associative(
                old(out)@ + (seq![flags] + s_pcr + s_opcr + s_spl + s_priv),
                seq![ext_bytes@.len() as u8],
                ext_bytes@,
            );
            assert(mid =~= old(out)@ + (seq![flags] + s_pcr + s_opcr + s_spl + s_priv) + seq![
                ext_bytes@.len() as u8,
            ]);
        }
    }
    proof {
        lemma_concat_associative(old(out)@, seq![flags] + s_pcr + s_opcr + s_spl + s_priv, s_ext);
        assert(out@ == old(out)@ + (seq![flags] + s_pcr + s_opcr + s_spl + s_priv + s_ext));
        assert(spec_serialize_af(a@) == seq![flags] + s_pcr + s_opcr + s_spl + s_priv + s_ext);
    }
}

/// Reads an adaptation field whose content spans `win[start..end]`.
#[verifier::rlimit(100)]
#[verifier::spinoff_prover]
pub fn parse_af(win: &Vec<u8>, start: usize, end: usize) -> (r: Result<AdaptationField, ErrorKind>)
    requires
        start < end <= win@.len(),
        end - start <= 183,
    ensures
        r matches Ok(a) ==> spec_parse_af(win@, start as int, end as int) == Some(a@) && a@.wf()
            && a@.spec_field_len() <= end - start,
        r is Err ==> spec_parse_af(win@, start as int, end as int) is None && r == Err::<
            AdaptationField,
            ErrorKind,
        >(ErrorKind::InvalidInput),
{
    let n = win.len();
    let flags = win[start];
    let has_pcr = flags & 0x10 == 0x10;
    let has_opcr = flags & 0x08 == 0x08;
    let has_splice = flags & 0x04 == 0x04;
    let has_priv = flags & 0x02 == 0x02;
    let has_ext = flags & 0x01 == 0x01;
    let n_fixed: usize = (if has_pcr {
        6usize
    } else {
        0usize
    }) + (if has_opcr {
        6usize
    } else {
        0usize
    }) + (if has_splice {
        1usize
    } else {
        0usize
    });
    if end - start - 1 < n_fixed || (has_priv && end - start - 1 - n_fixed < 1) {
        return Err(ErrorKind::InvalidInput);
    }
    let p_pcr: usize = start + 1;
    let p_opcr: usize = p_pcr + (if has_pcr {
        6usize
    } else {
        0usize
    });
    let p_spl: usize = p_opcr + (if has_opcr {
        6usize
    } else {
        0usize
    });
    let p_priv: usize = p_spl + (if has_splice {
        1usize
    } else {
        0usize
    });
    let priv_len: usize = if has_priv {
        win[p_priv] as usize
    } else {
        0
    };
    let n_priv: usize = if has_priv {
        1 + priv_len
    } else {
        0
    };
    if end - p_priv < n_priv || (has_ext && end - p_priv - n_priv < 1) {
        return Err(ErrorKind::InvalidInput);
    }
    let p_ext: usize = p_priv + n_priv;
    let ext_len: usize = if has_ext {
        win[p_ext] as usize
    } else {
        0
    };
    let n_ext: usize = if has_ext {
        1 + ext_len
    } else {
        0
    };
    if end - p_ext < n_ext {
        return Err(ErrorKind::InvalidInput);
    }
    let pcr: Option<ClockReference> = if has_pcr {
        Some(parse_clock(win, p_pcr))
    } else {
        None
    };
    let opcr: Option<ClockReference> = if has_opcr {
        Some(parse_clock(win, p_opcr))
    } else {
        None
    };
    let splice_countdown: Option<u8> = if has_splice {
        Some(win[p_spl])
    } else {
        None
    };
    let transport_private_data: Vec<u8> = if has_priv {
        copy_range(win, p_priv + 1, p_priv + 1 + priv_len)
    } else {
        Vec::new()
    };
    let extension: Option<Vec<u8>> = if has_ext {
        Some(copy_range(win, p_ext + 1, p_ext + 1 + ext_len))
    } else {
        None
    };
    let a = AdaptationField {
        discontinuity_indicator: flags & 0x80 == 0x80,
        random_access_indicator: flags & 0x40 == 0x40,
        es_priority_indicator: flags & 0x20 == 0x20,
        pcr,
        opcr,
        splice_countdown,
        transport_private_data,
        extension,
    };
    proof {
        let parsed = spec_parse_af(win@, start as int, end as int);
        assert(parsed is Some);
        assert(parsed->Some_0 =~= a@);
        assert(a@.spec_field_len() <= end - start);
    }
    Ok(a)
}

// --- Program association table --------------------------------------------

/// The four bytes of one PAT entry: the program number, then three
/// reserved bits and the 13-bit program map PID.
pub open spec fn spec_serialize_pat_entry(e: ProgramAssociation) -> Seq<u8> {
    seq![
        (e.program_num >> 8) as u8,
        (e.program_num & 0xFF) as u8,
        (0xE0u8 | ((e.program_map_pid.0 >> 8) as u8)),
        (e.program_map_pid.0 & 0xFF) as u8,
    ]
}

/// The entries of a PAT, four bytes each.
pub open spec fn spec_serialize_pat_entries(table: Seq<ProgramAssociation>) -> Seq<u8>
    decreases table.len(),
{
    if table.len() == 0 {
        Seq::empty()
    } else {
        spec_serialize_pat_entries(table.drop_last()) + spec_serialize_pat_entry(table.last())
    }
}

/// A whole PAT section: table id, section length, transport stream id
/// and version bytes, the entries, and a CRC that is written as zero and
/// never checked.
pub open spec fn spec_serialize_pat(p: PatView) -> Seq<u8> {
    let sl = (9 + 4 * p.table.len()) as u16;
    seq![0u8, (0xB0u8 | (((sl >> 8) as u8) & 0x0F)), (sl & 0xFF) as u8, 0u8, 0u8, 0xC1u8, 0u8, 0u8]
        + spec_serialize_pat_entries(p.table) + seq![0u8, 0u8, 0u8, 0u8]
}

/// Reads one PAT entry.
pub open spec fn spec_parse_pat_entry(win: Seq<u8>, pos: int) -> ProgramAssociation {
    ProgramAssociation {
        program_num: ((win[pos] as u16) << 8) | (win[pos + 1] as u16),
        program_map_pid: Pid((((win[pos + 2] & 0x1F) as u16) << 8) | (win[pos + 3] as u16)),
    }
}

/// Reads `n` PAT entries laid out four bytes apart from `pos`.
pub open spec fn spec_parse_pat_entries(win: Seq<u8>, pos: int, n: int) -> Seq<ProgramAssociation>
    decreases n,
{
    if n <= 0 {
        Seq::empty()
    } else {
        spec_parse_pat_entries(win, pos, n - 1).push(spec_parse_pat_entry(win, pos + 4 * (n - 1)))
    }
}

/// Reads a PAT section spanning `win[start..end]`; trailing stuffing is
/// ignored.  Fails on a wrong table id, a missing section syntax
/// indicator, or an inconsistent section length.
pub open spec fn spec_parse_pat(win: Seq<u8>, start: int, end: int) -> Option<PatView> {
    if end - start < 3 {
        None
    } else if win[start] != 0 {
        None
    } else if win[start + 1] & 0x80 != 0x80 {
        None
    } else {
        let sl = ((((win[start + 1] & 0x0F) as u16) << 8) | (win[start + 2] as u16)) as int;
        if start + 3 + sl > end || sl < 9 || (sl - 9) % 4 != 0 {
            None
        } else {
            Some(PatView { table: spec_parse_pat_entries(win, start + 8, (sl - 9) / 4) })
        }
    }
}

/// Parsing serialized PAT entries gives the entries back.
pub proof fn lemma_pat_entries_roundtrip(table: Seq<ProgramAssociation>, win: Seq<u8>, pos: int)
    requires
        forall|i: int| 0 <= i < table.len() ==> (#[trigger] table[i]).program_map_pid.wf(),
        0 <= pos,
        pos + 4 * table.len() <= win.len(),
        win.subrange(pos, pos + 4 * table.len()) == spec_serialize_pat_entries(table),
    ensures
        spec_parse_pat_entries(win, pos, table.len() as int) == table,
    decreases table.len(),
{
    let n = table.len() as int;
    let s = spec_serialize_pat_entries(table);
    assert(forall|i: int| 0 <= i < 4 * n ==> win[pos + i] == #[trigger] s[i]) by {
        assert(forall|i: int|
            0 <= i < 4 * n ==> #[trigger] win.subrange(pos, pos + 4 * n)[i] == win[pos + i]);
    }
    if n > 0 {
        let t = table.drop_last();
        let e = table.last();
        let se = spec_serialize_pat_entry(e);
        let st = spec_serialize_pat_entries(t);
        assert(st.len() == 4 * (n - 1)) by {
            lemma_pat_entries_len(t);
        }
        assert(win.subrange(pos, pos + 4 * (n - 1)) =~= st) by {
            assert(forall|i: int| 0 <= i < 4 * (n - 1) ==> s[i] == #[trigger] st[i]);
        }
        lemma_pat_entries_roundtrip(t, win, pos);
        let ep = pos + 4 * (n - 1);
        assert(win[ep] == se[0] && win[ep + 1] == se[1] && win[ep + 2] == se[2] && win[ep + 3]
            == se[3]) by {
            assert(forall|i: int| 0 <= i < 4 ==> s[4 * (n - 1) + i] == #[trigger] se[i]);
        }
        let pn = e.program_num;
        let pid = e.program_map_pid.0;
        let b0 = se[0];
        let b1 = se[1];
        let b2 = se[2];
        let b3 = se[3];
        assert(((b0 as u16) << 8) | (b1 as u16) == pn && (((b2 & 0x1F) as u16) << 8) | (b3 as u16)
            == pid) by (bit_vector)
            requires
                pid <= 0x1FFF && b0 == (pn >> 8) as u8 && b1 == (pn & 0xFF) as u8 && b2 == (0xE0u8
                    | ((pid >> 8) as u8)) && b3 == (pid & 0xFF) as u8,
        ;
        assert(spec_parse_pat_entry(win, ep) == e);
        assert(spec_parse_pat_entries(win, pos, n) =~= table);
    } else {
        assert(spec_parse_pat_entries(win, pos, 0) =~= table);
    }
}

/// Serialized PAT entries take four bytes each.
pub proof fn lemma_pat_entries_len(table: Seq<ProgramAssociation>)
    ensures
        spec_serialize_pat_entries(table).len() == 4 * table.len(),
    decreases table.len(),
{
    if table.len() > 0 {
        lemma_pat_entries_len(table.drop_last());
    }
}

/// Parsing a serialized PAT gives the table back, whatever stuffing
/// follows it.
#[verifier::rlimit(100)]
#[verifier::spinoff_prover]
pub proof fn lemma_pat_roundtrip(p: PatView, win: Seq<u8>, start: int, end: int)
    requires
        p.wf(),
        0 <= start,
        start + p.spec_len() <= end <= win.len(),
        win.subrange(start, start + p.spec_len()) == spec_serialize_pat(p),
    ensures
        spec_parse_pat(win, start, end) == Some(p),
{
    let s = spec_serialize_pat(p);
    let n = p.table.len() as int;
    let sl16 = (9 + 4 * p.table.len()) as u16;
    let sl = sl16 as int;
    lemma_pat_entries_len(p.table);
    assert(s.len() == 12 + 4 * n);
    assert(forall|i: int| 0 <= i < 12 + 4 * n ==> win[start + i] == #[trigger] s[i]) by {
        assert(forall|i: int|
            0 <= i < 12 + 4 * n ==> #[trigger] win.subrange(start, start + 12 + 4 * n)[i]
                == win[start + i]);
    }
    let b1 = s[1];
    let b2 = s[2];
    assert(b1 & 0x80 == 0x80 && ((((b1 & 0x0F) as u16) << 8) | (b2 as u16)) == sl16)
        by (bit_vector)
        requires
            sl16 <= 0x0FFF && b1 == (0xB0u8 | (((sl16 >> 8) as u8) & 0x0F)) && b2 == (sl16
                & 0xFF) as u8,
    ;
    assert((sl - 9) % 4 == 0);
    let st = spec_serialize_pat_entries(p.table);
    assert(win.subrange(start + 8, start + 8 + 4 * n) =~= st) by {
        assert(forall|i: int| 0 <= i < 4 * n ==> s[8 + i] == #[trigger] st[i]);
    }
    lemma_pat_entries_roundtrip(p.table, win, start + 8);
    assert(win[start] == s[0] && win[start + 1] == s[1] && win[start + 2] == s[2]) by {
        assert(win.subrange(start, start + 12 + 4 * n)[0] == win[start + 0]);
        assert(win.subrange(start, start + 12 + 4 * n)[1] == win[start + 1]);
        assert(win.subrange(start, start + 12 + 4 * n)[2] == win[start + 2]);
    }
    assert(s[0] == 0u8);
    assert(9 + 4 * p.table.len() <= 181);
    assert(sl == 9 + 4 * n);
    let psl = ((((win[start + 1] & 0x0F) as u16) << 8) | (win[start + 2] as u16)) as int;
    assert(psl == sl);
    assert(start + 3 + psl <= end);
    assert(psl >= 9 && (psl - 9) % 4 == 0);
    assert((psl - 9) / 4 == n);
    let parsed = spec_parse_pat(win, start, end);
    assert(parsed is Some);
    assert(parsed->Some_0 =~= p);
}

/// Appends a serialized PAT section to `out`.
pub fn write_pat(out: &mut Vec<u8>, p: &Pat)
    requires
        p@.wf(),
    ensures
        final(out)@ == old(out)@ + spec_serialize_pat(p@),
{
    let n = p.table.len();
    let sl: u16 = 9 + 4 * (n as u16);
    out.push(0);
    out.push(0xB0u8 | (((sl >> 8) as u8) & 0x0F));
    out.push((sl & 0xFF) as u8);
    out.push(0);
    out.push(0);
    out.push(0xC1);
    out.push(0);
    out.push(0);
    let ghost pre = out@;
    let mut i: usize = 0;
    while i < n
        invariant
            n == p.table@.len(),
            i <= n,
            out@ == pre + spec_serialize_pat_entries(p.table@.subrange(0, i as int)),
        decreases n - i,
    {
        let e = &p.table[i];
        out.push((e.program_num >> 8) as u8);
        out.push((e.program_num & 0xFF) as u8);
        out.push(0xE0u8 | ((e.program_map_pid.0 >> 8) as u8));
        out.push((e.program_map_pid.0 & 0xFF) as u8);
        i += 1;
        proof {
            let pref = p.table@.subrange(0, i as int);
            assert(pref.drop_last() =~= p.table@.subrange(0, i - 1));
            assert(out@ =~= pre + spec_serialize_pat_entries(pref));
        }
    }
    proof {
        assert(p.table@.subrange(0, n as int) =~= p.table@);
    }
    out.push(0);
    out.push(0);
    out.push(0);
    out.push(0);
    proof {
        assert(final(out)@ =~= old(out)@ + spec_serialize_pat(p@));
    }
}

/// Reads a PAT section spanning `win[start..end]`.
pub fn parse_pat(win: &Vec<u8>, start: usize, end: usize) -> (r: Result<Pat, ErrorKind>)
    requires
        start <= end <= win@.len(),
        end - start <= 184,
    ensures
        r matches Ok(p) ==> spec_parse_pat(win@, start as int, end as int) == Some(p@) && p@.wf(),
        r is Err ==> spec_parse_pat(win@, start as int, end as int) is None && r == Err::<
            Pat,
            ErrorKind,
        >(ErrorKind::InvalidInput),
{
    let n_win = win.len();
    if end - start < 3 {
        return Err(ErrorKind::InvalidInput);
    }
    if win[start] != 0 {
        return Err(ErrorKind::InvalidInput);
    }
    let b1 = win[start + 1];
    if b1 & 0x80 != 0x80 {
        return Err(ErrorKind::InvalidInput);
    }
    let sl: usize = (((b1 & 0x0F) as usize) << 8) | (win[start + 2] as usize);
    proof {
        let b2v = win@[start as int + 2];
        assert((((b1 & 0x0F) as usize) << 8) | (b2v as usize) == ((((b1 & 0x0F) as u16) << 8) | (
        b2v as u16)) as usize) by (bit_vector);
    }
    if end - start < 3 || end - start - 3 < sl || sl < 9 || (sl - 9) % 4 != 0 {
        return Err(ErrorKind::InvalidInput);
    }
    let n = (sl - 9) / 4;
    let ghost si = start as int;
    let ghost psl = ((((win@[si + 1] & 0x0F) as u16) << 8) | (win@[si + 2] as u16)) as int;
    proof {
        assert(psl == sl);
    }
    let mut table: Vec<ProgramAssociation> = Vec::new();
    let mut i: usize = 0;
    while i < n
        invariant
            4 * n + 12 <= end - start,
            start + 3 + sl <= end <= win@.len(),
            sl == 9 + 4 * n,
            i <= n,
            table@.len() == i,
            table@ == spec_parse_pat_entries(win@, start as int + 8, i as int),
            forall|j: int| 0 <= j < table@.len() ==> (#[trigger] table@[j]).program_map_pid.wf(),
        decreases n - i,
    {
        let pos = start + 8 + 4 * i;
        let e2 = win[pos + 2];
        let e3 = win[pos + 3];
        let program_num: u16 = ((win[pos] as u16) << 8) | (win[pos + 1] as u16);
        let pid_raw: u16 = (((e2 & 0x1F) as u16) << 8) | (e3 as u16);
        proof {
            assert((((e2 & 0x1F) as u16) << 8) | (e3 as u16) <= 0x1FFF) by (bit_vector);
        }
        table.push(ProgramAssociation { program_num, program_map_pid: Pid(pid_raw) });
        i += 1;
        proof {
            assert(table@ =~= spec_parse_pat_entries(win@, start as int + 8, i as int));
        }
    }
    proof {
        assert(spec_parse_pat(win@, start as int, end as int) == Some(Pat { table }@));
    }
    Ok(Pat { table })
}

// --- Program map table ----------------------------------------------------

/// The bytes of one PMT elementary stream entry: stream type, the 13-bit
/// elementary PID, the length-prefixed descriptor bytes.
pub open spec fn spec_serialize_es_entry(e: EsInfoView) -> Seq<u8> {
    let esl = e.es_info.len() as u16;
    seq![
        e.stream_type,
        (0xE0u8 | ((e.elementary_pid.0 >> 8) as u8)),
        (e.elementary_pid.0 & 0xFF) as u8,
        (0xF0u8 | (((esl >> 8) as u8) & 0x0F)),
        (esl & 0xFF) as u8,
    ] + e.es_info
}

/// The elementary stream loop of a PMT.
pub open spec fn spec_serialize_es_entries(table: Seq<EsInfoView>) -> Seq<u8>
    decreases table.len(),
{
    if table.len() == 0 {
        Seq::empty()
    } else {
        spec_serialize_es_entry(table.first()) + spec_serialize_es_entries(table.drop_first())
    }
}

/// Serialized elementary stream entries take `es_table_len` bytes.
pub proof fn lemma_es_entries_len(table: Seq<EsInfoView>)
    ensures
        spec_serialize_es_entries(table).len() == es_table_len(table),
    decreases table.len(),
{
    if table.len() > 0 {
        lemma_es_entries_len(table.drop_first());
    }
}

/// Appending one entry appends its bytes.
pub proof fn lemma_es_entries_push(table: Seq<EsInfoView>, e: EsInfoView)
    ensures
        spec_serialize_es_entries(table.push(e)) == spec_serialize_es_entries(table)
            + spec_serialize_es_entry(e),
    decreases table.len(),
{
    let t = table.push(e);
    if table.len() == 0 {
        assert(t.first() == e);
        assert(t.drop_first() =~= Seq::<EsInfoView>::empty());
        assert(spec_serialize_es_entries(t.drop_first()) =~= Seq::<u8>::empty());
        assert(spec_serialize_es_entries(t) =~= spec_serialize_es_entry(e));
        assert(spec_serialize_es_entries(table) + spec_serialize_es_entry(e)
            =~= spec_serialize_es_entry(e));
    } else {
        assert(t.first() == table.first());
        assert(t.drop_first() =~= table.drop_first().push(e));
        lemma_es_entries_push(table.drop_first(), e);
        lemma_concat_associative(
            spec_serialize_es_entry(table.first()),
            spec_serialize_es_entries(table.drop_first()),
            spec_serialize_es_entry(e),
        );
    }
}

/// A whole PMT section.
pub open spec fn spec_serialize_pmt(p: PmtView) -> Seq<u8> {
    let sl = (13 + p.program_info.len() + es_table_len(p.table)) as u16;
    let pil = p.program_info.len() as u16;
    seq![
        2u8,
        (0xB0u8 | (((sl >> 8) as u8) & 0x0F)),
        (sl & 0xFF) as u8,
        (p.program_num >> 8) as u8,
        (p.program_num & 0xFF) as u8,
        0xC1u8,
        0u8,
        0u8,
        (0xE0u8 | ((p.pcr_pid.0 >> 8) as u8)),
        (p.pcr_pid.0 & 0xFF) as u8,
        (0xF0u8 | (((pil >> 8) as u8) & 0x0F)),
        (pil & 0xFF) as u8,
    ] + p.program_info + spec_serialize_es_entries(p.table) + seq![0u8, 0u8, 0u8, 0u8]
}

/// Reads elementary stream entries from `pos` up to exactly `end`.
pub open spec fn spec_parse_es_entries(win: Seq<u8>, pos: int, end: int) -> Option<Seq<EsInfoView>>
    decreases end - pos,
{
    if pos == end {
        Some(Seq::empty())
    } else if pos > end || end - pos < 5 {
        None
    } else {
        let esl = ((((win[pos + 3] & 0x0F) as u16) << 8) | (win[pos + 4] as u16)) as int;
        if pos + 5 + esl > end {
            None
        } else {
            let e = EsInfoView {
                stream_type: win[pos],
                elementary_pid: Pid((((win[pos + 1] & 0x1F) as u16) << 8) | (win[pos + 2] as u16)),
                es_info: win.subrange(pos + 5, pos + 5 + esl),
            };
            match spec_parse_es_entries(win, pos + 5 + esl, end) {
                None => None,
                Some(rest) => Some(seq![e] + rest),
            }
        }
    }
}

/// Reads a PMT section spanning `win[start..end]`; trailing stuffing is
/// ignored.
pub open spec fn spec_parse_pmt(win: Seq<u8>, start: int, end: int) -> Option<PmtView> {
    if end - start < 3 {
        None
    } else if win[start] != 2 {
        None
    } else if win[start + 1] & 0x80 != 0x80 {
        None
    } else {
        let sl = ((((win[start + 1] & 0x0F) as u16) << 8) | (win[start + 2] as u16)) as int;
        if start + 3 + sl > end || sl < 13 {
            None
        } else {
            let pil = ((((win[start + 10] & 0x0F) as u16) << 8) | (win[start + 11] as u16)) as int;
            if 13 + pil > sl {
                None
            } else {
                let es_end = start + 3 + sl - 4;
                match spec_parse_es_entries(win, start + 12 + pil, es_end) {
                    None => None,
                    Some(t) => Some(
                        PmtView {
                            program_num: ((win[start + 3] as u16) << 8) | (win[start + 4] as u16),
                            pcr_pid: Pid(
                                (((win[start + 8] & 0x1F) as u16) << 8) | (win[start + 9] as u16),
                            ),
                            program_info: win.subrange(start + 12, start + 12 + pil),
                            table: t,
                        },
                    ),
                }
            }
        }
    }
}

/// Parsing serialized elementary stream entries that exactly fill their
/// region gives the entries back.
#[verifier::rlimit(100)]
#[verifier::spinoff_prover]
pub proof fn lemma_es_entries_roundtrip(table: Seq<EsInfoView>, win: Seq<u8>, pos: int)
    requires
        forall|i: int| 0 <= i < table.len() ==> (#[trigger] table[i]).elementary_pid.wf(),
        es_table_len(table) <= 184,
        0 <= pos,
        pos + es_table_len(table) <= win.len(),
        win.subrange(pos, pos + es_table_len(table)) == spec_serialize_es_entries(table),
    ensures
        spec_parse_es_entries(win, pos, pos + es_table_len(table)) == Some(table),
    decreases table.len(),
{
    let s = spec_serialize_es_entries(table);
    let tl = es_table_len(table);
    let end = pos + tl;
    lemma_es_entries_len(table);
    assert(forall|i: int| 0 <= i < tl ==> win[pos + i] == #[trigger] s[i]) by {
        assert(forall|i: int|
            0 <= i < tl ==> #[trigger] win.subrange(pos, end)[i] == win[pos + i]);
    }
    if table.len() == 0 {
        assert(spec_parse_es_entries(win, pos, end) == Some(Seq::<EsInfoView>::empty()));
        assert(Some(Seq::<EsInfoView>::empty()) == Some(table)) by {
            assert(Seq::<EsInfoView>::empty() =~= table);
        }
    } else {
        let e = table.first();
        let rest = table.drop_first();
        let se = spec_serialize_es_entry(e);
        let sr = spec_serialize_es_entries(rest);
        let el = 5 + e.es_info.len() as int;
        assert(se.len() == el);
        lemma_es_entries_len(rest);
        lemma_es_table_len_nonneg(rest);
        assert(tl == el + es_table_len(rest));
        assert(e.es_info.len() <= 179);
        assert(e.es_info.len() as u16 <= 0x0FFF);
        assert(forall|i: int| 0 <= i < el ==> s[i] == #[trigger] se[i]);
        let esl16 = e.es_info.len() as u16;
        let b1 = se[1];
        let b2 = se[2];
        let b3 = se[3];
        let b4 = se[4];
        let epid = e.elementary_pid.0;
        assert((((b1 & 0x1F) as u16) << 8) | (b2 as u16) == epid && ((((b3 & 0x0F) as u16) << 8)
            | (b4 as u16)) == esl16) by (bit_vector)
            requires
                epid <= 0x1FFF && esl16 <= 0x0FFF && b1 == (0xE0u8 | ((epid >> 8) as u8)) && b2 == (
                epid & 0xFF) as u8 && b3 == (0xF0u8 | (((esl16 >> 8) as u8) & 0x0F)) && b4 == (esl16
                    & 0xFF) as u8,
        ;
        assert(win.subrange(pos + 5, pos + el) =~= e.es_info) by {
            assert(forall|i: int| 0 <= i < e.es_info.len() ==> s[5 + i] == #[trigger] e.es_info[i]);
        }
        assert(win.subrange(pos + el, pos + el + es_table_len(rest)) =~= sr) by {
            assert(forall|i: int| 0 <= i < es_table_len(rest) ==> s[el + i] == #[trigger] sr[i]);
        }
        lemma_es_entries_roundtrip(rest, win, pos + el);
        assert(s[0] == se[0] && s[1] == se[1] && s[2] == se[2] && s[3] == se[3] && s[4] == se[4]);
        assert(win[pos + 0] == s[0] && win[pos + 1] == s[1] && win[pos + 2] == s[2] && win[pos + 3]
            == s[3] && win[pos + 4] == s[4]);
        assert(se[0] == e.stream_type);
        let esl_p = ((((win[pos + 3] & 0x0F) as u16) << 8) | (win[pos + 4] as u16)) as int;
        assert(esl_p == e.es_info.len());
        let ev = EsInfoView {
            stream_type: win[pos],
            elementary_pid: Pid((((win[pos + 1] & 0x1F) as u16) << 8) | (win[pos + 2] as u16)),
            es_info: win.subrange(pos + 5, pos + 5 + esl_p),
        };
        assert(ev.stream_type == e.stream_type);
        assert(ev.elementary_pid == e.elementary_pid);
        assert(ev.es_info == e.es_info);
        assert(ev == e);
        assert(spec_parse_es_entries(win, pos + 5 + esl_p, end) == Some(rest));
        let parsed = spec_parse_es_entries(win, pos, end);
        assert(parsed == Some(seq![ev] + rest));
        assert(seq![ev] + rest =~= table);
    }
}

/// Parsing a serialized PMT gives the table back, whatever stuffing
/// follows it.
#[verifier::rlimit(100)]
#[verifier::spinoff_prover]
pub proof fn lemma_pmt_roundtrip(p: PmtView, win: Seq<u8>, start: int, end: int)
    requires
        p.wf(),
        0 <= start,
        start + p.spec_len() <= end <= win.len(),
        win.subrange(start, start + p.spec_len()) == spec_serialize_pmt(p),
    ensures
        spec_parse_pmt(win, start, end) == Some(p),
{
    let s = spec_serialize_pmt(p);
    let pil = p.program_info.len() as int;
    let etl = es_table_len(p.table);
    let sl16 = (13 + p.program_info.len() + es_table_len(p.table)) as u16;
    let pil16 = p.program_info.len() as u16;
    let sl = sl16 as int;
    let total = p.spec_len();
    lemma_es_entries_len(p.table);
    assert(etl >= 0) by {
        lemma_es_table_len_nonneg(p.table);
    }
    assert(s.len() == total);
    assert(forall|i: int| 0 <= i < total ==> win[start + i] == #[trigger] s[i]) by {
        assert(forall|i: int|
            0 <= i < total ==> #[trigger] win.subrange(start, start + total)[i] == win[start + i]);
    }
    assert(win[start] == s[0] && win[start + 1] == s[1] && win[start + 2] == s[2] && win[start + 3]
        == s[3] && win[start + 4] == s[4] && win[start + 8] == s[8] && win[start + 9] == s[9] && win[
    start + 10] == s[10] && win[start + 11] == s[11]);
    let b1 = s[1];
    let b2 = s[2];
    assert(b1 & 0x80 == 0x80 && ((((b1 & 0x0F) as u16) << 8) | (b2 as u16)) == sl16)
        by (bit_vector)
        requires
            sl16 <= 0x0FFF && b1 == (0xB0u8 | (((sl16 >> 8) as u8) & 0x0F)) && b2 == (sl16
                & 0xFF) as u8,
    ;
    let p3 = s[3];
    let p4 = s[4];
    let pn = p.program_num;
    assert(((p3 as u16) << 8) | (p4 as u16) == pn) by (bit_vector)
        requires
            p3 == (pn >> 8) as u8 && p4 == (pn & 0xFF) as u8,
    ;
    let c8 = s[8];
    let c9 = s[9];
    let pcr = p.pcr_pid.0;
    assert((((c8 & 0x1F) as u16) << 8) | (c9 as u16) == pcr) by (bit_vector)
        requires
            pcr <= 0x1FFF && c8 == (0xE0u8 | ((pcr >> 8) as u8)) && c9 == (pcr & 0xFF) as u8,
    ;
    let d10 = s[10];
    let d11 = s[11];
    assert(((((d10 & 0x0F) as u16) << 8) | (d11 as u16)) == pil16) by (bit_vector)
        requires
            pil16 <= 0x0FFF && d10 == (0xF0u8 | (((pil16 >> 8) as u8) & 0x0F)) && d11 == (pil16
                & 0xFF) as u8,
    ;
    assert(win.subrange(start + 12, start + 12 + pil) =~= p.program_info) by {
        assert(forall|i: int| 0 <= i < pil ==> s[12 + i] == #[trigger] p.program_info[i]);
    }
    let st = spec_serialize_es_entries(p.table);
    assert(win.subrange(start + 12 + pil, start + 12 + pil + etl) =~= st) by {
        assert(forall|i: int| 0 <= i < etl ==> s[12 + pil + i] == #[trigger] st[i]);
    }
    lemma_es_entries_roundtrip(p.table, win, start + 12 + pil);
    let parsed = spec_parse_pmt(win, start, end);
    assert(parsed is Some);
    assert(parsed->Some_0 =~= p);
}

/// The elementary stream loop never has negative length.
pub proof fn lemma_es_table_len_nonneg(table: Seq<EsInfoView>)
    ensures
        es_table_len(table) >= 0,
    decreases table.len(),
{
    if table.len() > 0 {
        lemma_es_table_len_nonneg(table.drop_first());
    }
}

/// Appends a serialized PMT section to `out`.
#[verifier::rlimit(100)]
pub fn write_pmt(out: &mut Vec<u8>, p: &Pmt)
    requires
        p@.wf(),
    ensures
        final(out)@ == old(out)@ + spec_serialize_pmt(p@),
{
    proof {
        lemma_es_table_len_nonneg(p@.table);
        lemma_es_entries_len(p@.table);
    }
    let mut es_total: usize = 0;
    let n = p.table.len();
    let mut i: usize = 0;
    while i < n
        invariant
            n == p.table@.len(),
            i <= n,
            p@.wf(),
            es_total == es_table_len(p@.table.subrange(0, i as int)),
            es_total <= 184,
        decreases n - i,
    {
        proof {
            lemma_es_prefix_len(p@.table, i as int);
        }
        es_total = es_total + 5 + p.table[i].es_info.len();
        i += 1;
    }
    proof {
        assert(p@.table.subrange(0, n as int) =~= p@.table);
    }
    let pil: u16 = p.program_info.len() as u16;
    let sl: u16 = 13 + pil + (es_total as u16);
    out.push(2);
    out.push(0xB0u8 | (((sl >> 8) as u8) & 0x0F));
    out.push((sl & 0xFF) as u8);
    out.push((p.program_num >> 8) as u8);
    out.push((p.program_num & 0xFF) as u8);
    out.push(0xC1);
    out.push(0);
    out.push(0);
    out.push(0xE0u8 | ((p.pcr_pid.0 >> 8) as u8));
    out.push((p.pcr_pid.0 & 0xFF) as u8);
    out.push(0xF0u8 | (((pil >> 8) as u8) & 0x0F));
    out.push((pil & 0xFF) as u8);
    write_bytes(out, &p.program_info);
    let ghost pre = out@;
    let mut i: usize = 0;
    while i < n
        invariant
            n == p.table@.len(),
            i <= n,
            p@.wf(),
            out@ == pre + spec_serialize_es_entries(p@.table.subrange(0, i as int)),
        decreases n - i,
    {
        let e = &p.table[i];
        let esl: u16 = e.es_info.len() as u16;
        proof {
            lemma_es_prefix_len(p@.table, i as int);
        }
        let ghost mid = out@;
        out.push(e.stream_type);
        out.push(0xE0u8 | ((e.elementary_pid.0 >> 8) as u8));
        out.push((e.elementary_pid.0 & 0xFF) as u8);
        out.push(0xF0u8 | (((esl >> 8) as u8) & 0x0F));
        out.push((esl & 0xFF) as u8);
        write_bytes(out, &e.es_info);
        i += 1;
        proof {
            let pref = p@.table.subrange(0, i - 1);
            let prefi = p@.table.subrange(0, i as int);
            assert(prefi =~= pref.push(p@.table[i - 1]));
            lemma_es_entries_push(pref, p@.table[i - 1]);
            assert(out@ =~= mid + spec_serialize_es_entry(p@.table[i - 1]));
            lemma_concat_associative(
                pre,
                spec_serialize_es_entries(pref),
                spec_serialize_es_entry(p@.table[i - 1]),
            );
        }
    }
    proof {
        assert(p@.table.subrange(0, n as int) =~= p@.table);
    }
    out.push(0);
    out.push(0);
    out.push(0);
    out.push(0);
    proof {
        assert(final(out)@ =~= old(out)@ + spec_serialize_pmt(p@));
    }
}

/// Bounded prefixes: the elementary stream loop of a well-formed PMT
/// keeps every prefix within the payload bound, and appending the next
/// entry extends the length accordingly.
pub proof fn lemma_es_prefix_len(table: Seq<EsInfoView>, i: int)
    requires
        0 <= i < table.len(),
        es_table_len(table) <= 184,
    ensures
        es_table_len(table.subrange(0, i + 1)) == es_table_len(table.subrange(0, i)) + 5
            + table[i].es_info.len(),
        es_table_len(table.subrange(0, i + 1)) <= es_table_len(table),
        es_table_len(table.subrange(0, i)) >= 0,
{
    assert(table.subrange(0, i + 1) =~= table.subrange(0, i).push(table[i]));
    lemma_es_snoc_len(table.subrange(0, i), table[i]);
    lemma_es_table_len_nonneg(table.subrange(0, i));
    lemma_es_split_len(table, i + 1);
    lemma_es_table_len_nonneg(table.subrange(i + 1, table.len() as int));
}

/// Appending one entry adds its serialized size.
pub proof fn lemma_es_snoc_len(table: Seq<EsInfoView>, e: EsInfoView)
    ensures
        es_table_len(table.push(e)) == es_table_len(table) + 5 + e.es_info.len(),
    decreases table.len(),
{
    let t = table.push(e);
    if table.len() == 0 {
        assert(t.first() == e);
        assert(t.drop_first() =~= Seq::<EsInfoView>::empty());
        assert(es_table_len(t.drop_first()) == 0);
        assert(es_table_len(t) == 5 + e.es_info.len() + es_table_len(t.drop_first()));
    } else {
        assert(t.first() == table.first());
        assert(t.drop_first() =~= table.drop_first().push(e));
        lemma_es_snoc_len(table.drop_first(), e);
    }
}

/// The loop length splits across any cut point.
pub proof fn lemma_es_split_len(table: Seq<EsInfoView>, i: int)
    requires
        0 <= i <= table.len(),
    ensures
        es_table_len(table) == es_table_len(table.subrange(0, i)) + es_table_len(
            table.subrange(i, table.len() as int),
        ),
    decreases i,
{
    if i == 0 {
        assert(table.subrange(0, 0) =~= Seq::<EsInfoView>::empty());
        assert(table.subrange(0, table.len() as int) =~= table);
    } else {
        let head = table.first();
        let rest = table.drop_first();
        lemma_es_split_len(rest, i - 1);
        assert(table.subrange(0, i).first() == head);
        assert(table.subrange(0, i).drop_first() =~= rest.subrange(0, i - 1));
        assert(table.subrange(i, table.len() as int) =~= rest.subrange(i - 1, rest.len() as int));
    }
}

/// Reads a PMT section spanning `win[start..end]`.
#[verifier::rlimit(100)]
#[verifier::spinoff_prover]
#[verifier::loop_isolation(false)]
pub fn parse_pmt(win: &Vec<u8>, start: usize, end: usize) -> (r: Result<Pmt, ErrorKind>)
    requires
        start <= end <= win@.len(),
        end - start <= 184,
    ensures
        r matches Ok(p) ==> spec_parse_pmt(win@, start as int, end as int) == Some(p@) && p@.wf(),
        r is Err ==> spec_parse_pmt(win@, start as int, end as int) is None && r == Err::<
            Pmt,
            ErrorKind,
        >(ErrorKind::InvalidInput),
{
    let n_win = win.len();
    if end - start < 3 {
        return Err(ErrorKind::InvalidInput);
    }
    if win[start] != 2 {
        return Err(ErrorKind::InvalidInput);
    }
    let b1 = win[start + 1];
    if b1 & 0x80 != 0x80 {
        return Err(ErrorKind::InvalidInput);
    }
    let sl: usize = (((b1 & 0x0F) as usize) << 8) | (win[start + 2] as usize);
    let ghost psl = ((((win@[start as int + 1] & 0x0F) as u16) << 8) | (win@[
        start as int
            + 2
    ] as u16)) as int;
    proof {
        let b2v = win@[start as int + 2];
        assert((((b1 & 0x0F) as usize) << 8) | (b2v as usize) == ((((b1 & 0x0F) as u16) << 8) | (
        b2v as u16)) as usize) by (bit_vector);
        assert(psl == sl as int);
    }
    if end - start - 3 < sl || sl < 13 {
        return Err(ErrorKind::InvalidInput);
    }
    let d10 = win[start + 10];
    let pil: usize = (((d10 & 0x0F) as usize) << 8) | (win[start + 11] as usize);
    let ghost ppil = ((((win@[start as int + 10] & 0x0F) as u16) << 8) | (win@[
        start as int
            + 11
    ] as u16)) as int;
    proof {
        let d11v = win@[start as int + 11];
        assert((((d10 & 0x0F) as usize) << 8) | (d11v as usize) == ((((d10 & 0x0F) as u16) << 8)
            | (d11v as u16)) as usize) by (bit_vector);
        assert(ppil == pil as int);
    }
    if sl - 13 < pil {
        return Err(ErrorKind::InvalidInput);
    }
    let program_num: u16 = ((win[start + 3] as u16) << 8) | (win[start + 4] as u16);
    let c8 = win[start + 8];
    let pcr_raw: u16 = (((c8 & 0x1F) as u16) << 8) | (win[start + 9] as u16);
    proof {
        let c9v = win@[start as int + 9];
        assert((((c8 & 0x1F) as u16) << 8) | (c9v as u16) <= 0x1FFF) by (bit_vector);
    }
    let program_info = copy_range(win, start + 12, start + 12 + pil);
    let es_end = start + 3 + sl - 4;
    let mut table: Vec<EsInfo> = Vec::new();
    let mut pos: usize = start + 12 + pil;
    let ghost es0: int = start as int + 12 + pil;
    while pos < es_end
        invariant
            start + 12 + pil <= es_end <= win@.len(),
            es_end <= start + 184,
            start + 12 + pil <= pos <= es_end,
            es0 == start as int + 12 + pil,
            forall|j: int|
                0 <= j < table@.len() ==> (#[trigger] table@[j]@).elementary_pid.wf(),
            match spec_parse_es_entries(win@, pos as int, es_end as int) {
                Some(r) => spec_parse_es_entries(win@, es0, es_end as int) == Some(
                    table@.map_values(|x: EsInfo| x@) + r,
                ),
                None => spec_parse_es_entries(win@, es0, es_end as int) is None,
            },
        decreases es_end - pos,
    {
        if es_end - pos < 5 {
            proof {
                assert(spec_parse_es_entries(win@, pos as int, es_end as int) is None);
                assert(spec_parse_es_entries(win@, es0, es_end as int) is None);
                assert(spec_parse_pmt(win@, start as int, end as int) is None);
            }
            return Err(ErrorKind::InvalidInput);
        }
        let b3 = win[pos + 3];
        let esl: usize = (((b3 & 0x0F) as usize) << 8) | (win[pos + 4] as usize);
        proof {
            let b4v = win@[pos as int + 4];
            assert((((b3 & 0x0F) as usize) << 8) | (b4v as usize) == ((((b3 & 0x0F) as u16) << 8)
                | (b4v as u16)) as usize) by (bit_vector);
        }
        if es_end - pos - 5 < esl {
            proof {
                assert(spec_parse_es_entries(win@, pos as int, es_end as int) is None);
                assert(spec_parse_es_entries(win@, es0, es_end as int) is None);
                assert(spec_parse_pmt(win@, start as int, end as int) is None);
            }
            return Err(ErrorKind::InvalidInput);
        }
        let e1 = win[pos + 1];
        let epid_raw: u16 = (((e1 & 0x1F) as u16) << 8) | (win[pos + 2] as u16);
        proof {
            let e2v = win@[pos as int + 2];
            assert((((e1 & 0x1F) as u16) << 8) | (e2v as u16) <= 0x1FFF) by (bit_vector);
        }
        let es_info = copy_range(win, pos + 5, pos + 5 + esl);
        let ghost old_table = table@;
        let ghost op = pos as int;
        table.push(
            EsInfo { stream_type: win[pos], elementary_pid: Pid(epid_raw), es_info },
        );
        pos = pos + 5 + esl;
        proof {
            let np = pos as int;
            let ev = EsInfoView {
                stream_type: win@[op],
                elementary_pid: Pid((((win@[op + 1] & 0x1F) as u16) << 8) | (win@[op + 2] as u16)),
                es_info: win@.subrange(op + 5, op + 5 + esl as int),
            };
            assert(table@.last()@ =~= ev);
            assert(table@.map_values(|x: EsInfo| x@) =~= old_table.map_values(
                |x: EsInfo| x@,
            ).push(ev));
            match spec_parse_es_entries(win@, np, es_end as int) {
                Some(r) => {
                    assert(spec_parse_es_entries(win@, op, es_end as int) == Some(seq![ev] + r));
                    assert(old_table.map_values(|x: EsInfo| x@) + (seq![ev] + r)
                        =~= table@.map_values(|x: EsInfo| x@) + r);
                },
                None => {
                    assert(spec_parse_es_entries(win@, op, es_end as int) is None);
                },
            }
        }
    }
    proof {
        assert(spec_parse_es_entries(win@, pos as int, es_end as int) == Some(
            Seq::<EsInfoView>::empty(),
        ));
        assert(table@.map_values(|x: EsInfo| x@) + Seq::<EsInfoView>::empty() =~= table@.map_values(
            |x: EsInfo| x@,
        ));
    }
    let p = Pmt { program_num, pcr_pid: Pid(pcr_raw), program_info, table };
    proof {
        let si = start as int;
        assert(end - start >= 3);
        assert(win@[si] == 2);
        assert(win@[si + 1] & 0x80 == 0x80);
        assert(si + 3 + psl <= end as int && psl >= 13);
        assert(13 + ppil <= psl);
        assert(spec_parse_es_entries(win@, si + 12 + ppil, si + 3 + psl - 4) == Some(
            table@.map_values(|x: EsInfo| x@),
        ));
        let parsed = spec_parse_pmt(win@, start as int, end as int);
        assert(parsed is Some);
        assert(parsed->Some_0 =~= p@);
        assert(es_table_len(p@.table) == es_end - (start + 12 + pil)) by {
            lemma_parsed_es_len(win@, si + 12 + ppil, es_end as int);
        }
    }
    Ok(p)
}

/// Entries parsed from a region are no longer than the region.
pub proof fn lemma_parsed_es_len(win: Seq<u8>, pos: int, end: int)
    requires
        0 <= pos,
        end <= win.len(),
        spec_parse_es_entries(win, pos, end) is Some,
    ensures
        es_table_len(spec_parse_es_entries(win, pos, end)->Some_0) == end - pos,
    decreases end - pos,
{
    if pos == end {
        assert(es_table_len(Seq::<EsInfoView>::empty()) == 0);
    } else {
        let esl = ((((win[pos + 3] & 0x0F) as u16) << 8) | (win[pos + 4] as u16)) as int;
        lemma_parsed_es_len(win, pos + 5 + esl, end);
        let e = EsInfoView {
            stream_type: win[pos],
            elementary_pid: Pid((((win[pos + 1] & 0x1F) as u16) << 8) | (win[pos + 2] as u16)),
            es_info: win.subrange(pos + 5, pos + 5 + esl),
        };
        let r = spec_parse_es_entries(win, pos + 5 + esl, end)->Some_0;
        let t = spec_parse_es_entries(win, pos, end)->Some_0;
        assert(t == seq![e] + r);
        assert(t.first() == e) by {
            assert((seq![e] + r)[0] == e);
        }
        assert(t.drop_first() =~= r);
        assert(es_table_len(t) == 5 + e.es_info.len() + es_table_len(t.drop_first()));
        assert(e.es_info.len() == esl);
        assert(es_table_len(r) == end - (pos + 5 + esl));
    }
}

// --- PES fragments --------------------------------------------------------

/// The two-bit presentation/decoding timestamp flags of a PES header.
pub open spec fn spec_pts_dts_flags(h: PesHeader) -> u8 {
    if h.pts is Some && h.dts is Some {
        3u8
    } else if h.pts is Some {
        2u8
    } else {
        0u8
    }
}

/// The serialized optional PES header region: the two flag bytes, the
/// header length byte and the timestamp fields, with no stuffing.
pub open spec fn spec_serialize_pes_opt(h: PesHeader) -> Seq<u8> {
    let f1 = 0x80u8 | (if h.priority {
        8u8
    } else {
        0u8
    }) | (if h.data_alignment_indicator {
        4u8
    } else {
        0u8
    }) | (if h.copyright {
        2u8
    } else {
        0u8
    }) | (if h.original_or_copy {
        1u8
    } else {
        0u8
    });
    let f2 = (spec_pts_dts_flags(h) << 6) | (if h.escr is Some {
        0x20u8
    } else {
        0u8
    });
    let hdl = ((if h.pts is Some {
        5int
    } else {
        0int
    }) + (if h.dts is Some {
        5int
    } else {
        0int
    }) + (if h.escr is Some {
        6int
    } else {
        0int
    })) as u8;
    seq![f1, f2, hdl] + (match h.pts {
        Some(t) => spec_serialize_timestamp(
            if h.dts is Some {
                3u8
            } else {
                2u8
            },
            t,
        ),
        None => Seq::empty(),
    }) + (match h.dts {
        Some(t) => spec_serialize_timestamp(1u8, t),
        None => Seq::empty(),
    }) + (match h.escr {
        Some(c) => spec_serialize_escr(c),
        None => Seq::empty(),
    })
}

/// A serialized PES fragment: start code, stream id, the 16-bit packet
/// length as stored, the optional header, and the payload prefix.
pub open spec fn spec_serialize_pes(p: PesView) -> Seq<u8> {
    seq![
        0u8,
        0u8,
        1u8,
        p.header.stream_id.0,
        (p.pes_packet_len >> 8) as u8,
        (p.pes_packet_len & 0xFF) as u8,
    ] + (if spec_has_optional_header(p.header.stream_id) {
        spec_serialize_pes_opt(p.header)
    } else {
        Seq::empty()
    }) + p.data
}

/// Reads a PES fragment spanning `win[start..end]`: the payload prefix
/// extends to the end of the TS packet.  Fails on a bad start code, bad
/// marker bits, the forbidden timestamp flag combination, or lengths that
/// do not fit.
pub open spec fn spec_parse_pes(win: Seq<u8>, start: int, end: int) -> Option<PesView> {
    if end - start < 6 {
        None
    } else if win[start] != 0 || win[start + 1] != 0 || win[start + 2] != 1 {
        None
    } else {
        let sid = win[start + 3];
        let plen = ((win[start + 4] as u16) << 8) | (win[start + 5] as u16);
        if !spec_has_optional_header(StreamId(sid)) {
            Some(
                PesView {
                    header: PesHeader {
                        stream_id: StreamId(sid),
                        priority: false,
                        data_alignment_indicator: false,
                        copyright: false,
                        original_or_copy: false,
                        pts: None,
                        dts: None,
                        escr: None,
                    },
                    pes_packet_len: plen,
                    data: win.subrange(start + 6, end),
                },
            )
        } else if end - start < 9 {
            None
        } else {
            let f1 = win[start + 6];
            let f2 = win[start + 7];
            let hdl = win[start + 8] as int;
            let ptsdts = f2 >> 6;
            let has_escr = f2 & 0x20 == 0x20;
            let need = (if ptsdts >= 2 {
                5int
            } else {
                0int
            }) + (if ptsdts == 3 {
                5int
            } else {
                0int
            }) + (if has_escr {
                6int
            } else {
                0int
            });
            if f1 >> 6 != 2 || ptsdts == 1 || need > hdl || start + 9 + hdl > end {
                None
            } else {
                let pts = if ptsdts >= 2 {
                    spec_parse_timestamp(
                        win,
                        start + 9,
                        if ptsdts == 3 {
                            3u8
                        } else {
                            2u8
                        },
                    )
                } else {
                    None
                };
                let dts = if ptsdts == 3 {
                    spec_parse_timestamp(win, start + 14, 1u8)
                } else {
                    None
                };
                if (ptsdts >= 2 && pts is None) || (ptsdts == 3 && dts is None) {
                    None
                } else {
                    let epos = start + 9 + (if ptsdts >= 2 {
                        5int
                    } else {
                        0int
                    }) + (if ptsdts == 3 {
                        5int
                    } else {
                        0int
                    });
                    let escr = if has_escr {
                        Some(spec_parse_escr(win, epos))
                    } else {
                        None
                    };
                    Some(
                        PesView {
                            header: PesHeader {
                                stream_id: StreamId(sid),
                                priority: f1 & 8 == 8,
                                data_alignment_indicator: f1 & 4 == 4,
                                copyright: f1 & 2 == 2,
                                original_or_copy: f1 & 1 == 1,
                                pts,
                                dts,
                                escr,
                            },
                            pes_packet_len: plen,
                            data: win.subrange(start + 9 + hdl, end),
                        },
                    )
                }
            }
        }
    }
}

/// Parsing a serialized PES fragment that extends to the end of its
/// window gives the fragment back.
#[verifier::rlimit(100)]
#[verifier::spinoff_prover]
pub proof fn lemma_pes_roundtrip(p: PesView, win: Seq<u8>, start: int)
    requires
        p.wf(),
        0 <= start,
        start + p.spec_len() <= win.len(),
        win.subrange(start, start + p.spec_len()) == spec_serialize_pes(p),
    ensures
        spec_parse_pes(win, start, start + p.spec_len()) == Some(p),
{
    let s = spec_serialize_pes(p);
    let h = p.header;
    let total = p.spec_len();
    let end = start + total;
    let ohl = h.spec_optional_header_len();
    let s_opt = if spec_has_optional_header(h.stream_id) {
        spec_serialize_pes_opt(h)
    } else {
        Seq::<u8>::empty()
    };
    assert(s_opt.len() == ohl);
    assert(s.len() == total);
    assert(forall|i: int| 0 <= i < total ==> win[start + i] == #[trigger] s[i]) by {
        assert(forall|i: int|
            0 <= i < total ==> #[trigger] win.subrange(start, end)[i] == win[start + i]);
    }
    assert(win[start] == s[0] && win[start + 1] == s[1] && win[start + 2] == s[2] && win[start + 3]
        == s[3] && win[start + 4] == s[4] && win[start + 5] == s[5]);
    let plen = p.pes_packet_len;
    let b4 = s[4];
    let b5 = s[5];
    assert(((b4 as u16) << 8) | (b5 as u16) == plen) by (bit_vector)
        requires
            b4 == (plen >> 8) as u8 && b5 == (plen & 0xFF) as u8,
    ;
    if !spec_has_optional_header(h.stream_id) {
        assert(win.subrange(start + 6, end) =~= p.data) by {
            assert(forall|i: int| 0 <= i < p.data.len() ==> s[6 + i] == #[trigger] p.data[i]);
        }
        let parsed = spec_parse_pes(win, start, end);
        assert(parsed is Some);
        assert(parsed->Some_0 =~= p);
    } else {
        let ptsdts = spec_pts_dts_flags(h);
        let f1 = s_opt[0];
        let f2 = s_opt[1];
        let hdl8 = s_opt[2];
        assert(s[6] == s_opt[0] && s[7] == s_opt[1] && s[8] == s_opt[2]);
        let pr: u8 = if h.priority { 8 } else { 0 };
        let da: u8 = if h.data_alignment_indicator { 4 } else { 0 };
        let cp: u8 = if h.copyright { 2 } else { 0 };
        let oc: u8 = if h.original_or_copy { 1 } else { 0 };
        assert(f1 >> 6 == 2 && (f1 & 8 == 8) == (pr == 8) && (f1 & 4 == 4) == (da == 4) && (f1 & 2
            == 2) == (cp == 2) && (f1 & 1 == 1) == (oc == 1)) by (bit_vector)
            requires
                (pr == 8 || pr == 0) && (da == 4 || da == 0) && (cp == 2 || cp == 0) && (oc == 1
                    || oc == 0) && f1 == 0x80u8 | pr | da | cp | oc,
        ;
        let es: u8 = if h.escr is Some { 0x20 } else { 0 };
        assert(f2 >> 6 == ptsdts && (f2 & 0x20 == 0x20) == (es == 0x20)) by (bit_vector)
            requires
                ptsdts < 4 && (es == 0x20 || es == 0) && f2 == (ptsdts << 6) | es,
        ;
        let need = (if h.pts is Some {
            5int
        } else {
            0int
        }) + (if h.dts is Some {
            5int
        } else {
            0int
        }) + (if h.escr is Some {
            6int
        } else {
            0int
        });
        assert(hdl8 as int == need);
        let n_pts: int = if h.pts is Some { 5 } else { 0 };
        let n_dts: int = if h.dts is Some { 5 } else { 0 };
        let s_pts = match h.pts {
            Some(t) => spec_serialize_timestamp(
                if h.dts is Some {
                    3u8
                } else {
                    2u8
                },
                t,
            ),
            None => Seq::<u8>::empty(),
        };
        let s_dts = match h.dts {
            Some(t) => spec_serialize_timestamp(1u8, t),
            None => Seq::<u8>::empty(),
        };
        let s_escr = match h.escr {
            Some(c) => spec_serialize_escr(c),
            None => Seq::<u8>::empty(),
        };
        assert(s_opt == seq![f1, f2, hdl8] + s_pts + s_dts + s_escr);
        assert(forall|i: int| 0 <= i < ohl ==> s[6 + i] == #[trigger] s_opt[i]);
        if h.pts is Some {
            let pfx: u8 = if h.dts is Some { 3 } else { 2 };
            assert(win.subrange(start + 9, start + 14) =~= s_pts) by {
                assert(forall|i: int| 0 <= i < 5 ==> s_opt[3 + i] == #[trigger] s_pts[i]);
            }
            lemma_timestamp_roundtrip(pfx, h.pts->Some_0, win, start + 9);
        }
        if h.dts is Some {
            assert(win.subrange(start + 14, start + 19) =~= s_dts) by {
                assert(forall|i: int| 0 <= i < 5 ==> s_opt[8 + i] == #[trigger] s_dts[i]);
            }
            lemma_timestamp_roundtrip(1u8, h.dts->Some_0, win, start + 14);
        }
        if h.escr is Some {
            let epos = start + 9 + n_pts + n_dts;
            assert(win.subrange(epos, epos + 6) =~= s_escr) by {
                assert(forall|i: int|
                    0 <= i < 6 ==> s_opt[3 + n_pts + n_dts + i] == #[trigger] s_escr[i]);
            }
            lemma_escr_roundtrip(h.escr->Some_0, win, epos);
        }
        assert(win.subrange(start + 9 + need, end) =~= p.data) by {
            assert(forall|i: int|
                0 <= i < p.data.len() ==> s[6 + ohl + i] == #[trigger] p.data[i]);
        }
        let parsed = spec_parse_pes(win, start, end);
        assert(parsed is Some);
        assert(parsed->Some_0 =~= p);
    }
}

/// Appends a serialized PES fragment to `out`.
#[verifier::rlimit(100)]
#[verifier::loop_isolation(false)]
pub fn write_pes(out: &mut Vec<u8>, p: &Pes)
    requires
        p@.wf(),
    ensures
        final(out)@ == old(out)@ + spec_serialize_pes(p@),
{
    let h = &p.header;
    out.push(0);
    out.push(0);
    out.push(1);
    out.push(h.stream_id.0);
    out.push((p.pes_packet_len >> 8) as u8);
    out.push((p.pes_packet_len & 0xFF) as u8);
    let ghost s_opt: Seq<u8> = if spec_has_optional_header(h.stream_id) {
        spec_serialize_pes_opt(*h)
    } else {
        Seq::<u8>::empty()
    };
    let ghost base: Seq<u8> = seq![
        0u8,
        0u8,
        1u8,
        p@.header.stream_id.0,
        (p@.pes_packet_len >> 8) as u8,
        (p@.pes_packet_len & 0xFF) as u8,
    ];
    proof {
        assert(out@ =~= old(out)@ + base);
    }
    if has_optional_header(h.stream_id) {
        let f1: u8 = 0x80u8 | (if h.priority {
            8u8
        } else {
            0u8
        }) | (if h.data_alignment_indicator {
            4u8
        } else {
            0u8
        }) | (if h.copyright {
            2u8
        } else {
            0u8
        }) | (if h.original_or_copy {
            1u8
        } else {
            0u8
        });
        let ptsdts: u8 = if h.pts.is_some() && h.dts.is_some() {
            3
        } else if h.pts.is_some() {
            2
        } else {
            0
        };
        let f2: u8 = (ptsdts << 6) | (if h.escr.is_some() {
            0x20u8
        } else {
            0u8
        });
        let mut hdl: u8 = 0;
        if h.pts.is_some() {
            hdl += 5;
        }
        if h.dts.is_some() {
            hdl += 5;
        }
        if h.escr.is_some() {
            hdl += 6;
        }
        out.push(f1);
        out.push(f2);
        out.push(hdl);
        if let Some(t) = h.pts {
            let pfx: u8 = if h.dts.is_some() {
                3
            } else {
                2
            };
            write_timestamp(out, pfx, t);
        }
        proof {
            let s_pts = match h.pts {
                Some(t) => spec_serialize_timestamp(
                    if h.dts is Some {
                        3u8
                    } else {
                        2u8
                    },
                    t,
                ),
                None => Seq::<u8>::empty(),
            };
            assert(out@ =~= old(out)@ + base + seq![f1, f2, hdl] + s_pts);
        }
        if let Some(t) = h.dts {
            write_timestamp(out, 1, t);
        }
        if let Some(c) = &h.escr {
            write_escr(out, c);
        }
        proof {
            assert(out@ =~= old(out)@ + base + s_opt);
        }
    }
    write_bytes(out, &p.data.buf);
    proof {
        assert(final(out)@ =~= old(out)@ + spec_serialize_pes(p@));
    }
}

/// Reads a PES fragment spanning `win[start..end]`.
#[verifier::rlimit(100)]
#[verifier::spinoff_prover]
#[verifier::loop_isolation(false)]
pub fn parse_pes(win: &Vec<u8>, start: usize, end: usize) -> (r: Result<Pes, ErrorKind>)
    requires
        start <= end <= win@.len(),
        end - start <= 184,
    ensures
        r matches Ok(x) ==> spec_parse_pes(win@, start as int, end as int) == Some(x@)
            && x@.header.wf() && x@.data.len() <= 184,
        r is Err ==> spec_parse_pes(win@, start as int, end as int) is None && r == Err::<
            Pes,
            ErrorKind,
        >(ErrorKind::InvalidInput),
{
    let n_win = win.len();
    if end - start < 6 {
        return Err(ErrorKind::InvalidInput);
    }
    if win[start] != 0 || win[start + 1] != 0 || win[start + 2] != 1 {
        return Err(ErrorKind::InvalidInput);
    }
    let sid = win[start + 3];
    let plen: u16 = ((win[start + 4] as u16) << 8) | (win[start + 5] as u16);
    if !has_optional_header(StreamId::new(sid)) {
        let data = Bytes { buf: copy_range(win, start + 6, end) };
        let x = Pes {
            header: PesHeader {
                stream_id: StreamId::new(sid),
                priority: false,
                data_alignment_indicator: false,
                copyright: false,
                original_or_copy: false,
                pts: None,
                dts: None,
                escr: None,
            },
            pes_packet_len: plen,
            data,
        };
        proof {
            assert(spec_parse_pes(win@, start as int, end as int) == Some(x@));
        }
        return Ok(x);
    }
    if end - start < 9 {
        return Err(ErrorKind::InvalidInput);
    }
    let f1 = win[start + 6];
    let f2 = win[start + 7];
    let hdl = win[start + 8] as usize;
    let ptsdts = f2 >> 6;
    let has_escr = f2 & 0x20 == 0x20;
    let mut need: usize = 0;
    if ptsdts >= 2 {
        need += 5;
    }
    if ptsdts == 3 {
        need += 5;
    }
    if has_escr {
        need += 6;
    }
    if f1 >> 6 != 2 || ptsdts == 1 || need > hdl || end - start - 9 < hdl {
        return Err(ErrorKind::InvalidInput);
    }
    let pts: Option<u64> = if ptsdts >= 2 {
        let pfx: u8 = if ptsdts == 3 {
            3
        } else {
            2
        };
        match parse_timestamp(win, start + 9, pfx) {
            Ok(t) => Some(t),
            Err(_) => {
                return Err(ErrorKind::InvalidInput);
            },
        }
    } else {
        None
    };
    let dts: Option<u64> = if ptsdts == 3 {
        match parse_timestamp(win, start + 14, 1) {
            Ok(t) => Some(t),
            Err(_) => {
                return Err(ErrorKind::InvalidInput);
            },
        }
    } else {
        None
    };
    let mut epos: usize = start + 9;
    if ptsdts >= 2 {
        epos += 5;
    }
    if ptsdts == 3 {
        epos += 5;
    }
    let escr: Option<ClockReference> = if has_escr {
        Some(parse_escr(win, epos))
    } else {
        None
    };
    let data = Bytes { buf: copy_range(win, start + 9 + hdl, end) };
    let x = Pes {
        header: PesHeader {
            stream_id: StreamId::new(sid),
            priority: f1 & 8 == 8,
            data_alignment_indicator: f1 & 4 == 4,
            copyright: f1 & 2 == 2,
            original_or_copy: f1 & 1 == 1,
            pts,
            dts,
            escr,
        },
        pes_packet_len: plen,
        data,
    };
    proof {
        let parsed = spec_parse_pes(win@, start as int, end as int);
        assert(parsed is Some);
        assert(parsed->Some_0 =~= x@);
    }
    Ok(x)
}

// --- Whole TS packets -----------------------------------------------------

/// The adaptation field control bits a packet serializes with: payload
/// only, adaptation field only, or both.
pub open spec fn spec_afc(p: TsPacketView) -> u8 {
    if p.adaptation_field is Some && p.payload is Some {
        3u8
    } else if p.adaptation_field is Some {
        2u8
    } else {
        1u8
    }
}

/// The payload unit start indicator a packet serializes with: set exactly
/// for payloads that begin a section or a PES packet.
pub open spec fn spec_pusi(p: TsPacketView) -> bool {
    match p.payload {
        Some(TsPayloadView::Pat(_)) => true,
        Some(TsPayloadView::Pmt(_)) => true,
        Some(TsPayloadView::Pes(_)) => true,
        _ => false,
    }
}

/// The serialized bytes of a payload, before stuffing.
pub open spec fn spec_serialize_payload(pl: TsPayloadView) -> Seq<u8> {
    match pl {
        TsPayloadView::Pat(t) => spec_serialize_pat(t),
        TsPayloadView::Pmt(t) => spec_serialize_pmt(t),
        TsPayloadView::Pes(t) => spec_serialize_pes(t),
        TsPayloadView::Raw(b) => b,
        TsPayloadView::Null => Seq::empty(),
    }
}

/// The serialized payload takes `spec_len` bytes.
pub proof fn lemma_payload_ser_len(pl: TsPayloadView)
    ensures
        spec_serialize_payload(pl).len() == pl.spec_len(),
{
    match pl {
        TsPayloadView::Pat(t) => {
            lemma_pat_entries_len(t.table);
        },
        TsPayloadView::Pmt(t) => {
            lemma_es_entries_len(t.table);
        },
        TsPayloadView::Pes(t) => {
            let s_opt = if spec_has_optional_header(t.header.stream_id) {
                spec_serialize_pes_opt(t.header)
            } else {
                Seq::<u8>::empty()
            };
            assert(s_opt.len() == t.header.spec_optional_header_len());
        },
        TsPayloadView::Raw(_) => {},
        TsPayloadView::Null => {},
    }
}

/// The body of a serialized packet: header, adaptation field with its
/// length byte, and payload.
pub open spec fn spec_packet_body(p: TsPacketView) -> Seq<u8> {
    spec_serialize_header(p.header, spec_afc(p), spec_pusi(p)) + (match p.adaptation_field {
        Some(a) => seq![a.spec_field_len() as u8] + spec_serialize_af(a),
        None => Seq::empty(),
    }) + (match p.payload {
        Some(pl) => spec_serialize_payload(pl),
        None => Seq::empty(),
    })
}

/// A whole 188-byte TS packet: the body, stuffed to the packet size with
/// `0xFF` bytes.
pub open spec fn spec_serialize_packet(p: TsPacketView) -> Seq<u8> {
    spec_packet_body(p) + Seq::new((PACKET_SIZE - spec_packet_body(p).len()) as nat, |i: int| 0xFFu8)
}

/// PIDs whose payload is reserved or unsupported and is returned raw.
pub open spec fn spec_reserved_raw_pid(pid: u16) -> bool {
    (1 <= pid <= 0x1F) || pid == 0x1FFB
}

/// Reads one 188-byte TS packet, classifying the payload by the PID kind
/// table: the PAT PID carries a PAT, known PMT PIDs carry tables, known
/// elementary PIDs carry PES fragments or raw continuation bytes, the
/// null PID and unknown PIDs carry nothing of interest.
pub open spec fn spec_parse_packet(win: Seq<u8>, pids: Map<u16, PidKind>) -> Option<TsPacketView> {
    if win.len() != PACKET_SIZE {
        None
    } else {
        match spec_parse_header(win) {
            None => None,
            Some((h, afc, pusi)) => {
                let has_af = afc == 2 || afc == 3;
                let fl = if has_af {
                    win[4] as int
                } else {
                    0
                };
                if has_af && 5 + fl > 188 {
                    None
                } else if afc == 2 && 5 + fl != 188 {
                    None
                } else {
                    let af_parsed = if has_af && fl > 0 {
                        spec_parse_af(win, 5, 5 + fl)
                    } else {
                        None
                    };
                    if has_af && fl > 0 && af_parsed is None {
                        None
                    } else {
                        let ps = if has_af {
                            5 + fl
                        } else {
                            4
                        };
                        if afc == 2 {
                            Some(
                                TsPacketView {
                                    header: h,
                                    adaptation_field: af_parsed,
                                    payload: None,
                                },
                            )
                        } else {
                            let pid = h.pid.0;
                            if pid == PID_PAT {
                                match spec_parse_pat(win, ps, 188) {
                                    None => None,
                                    Some(t) => Some(
                                        TsPacketView {
                                            header: h,
                                            adaptation_field: af_parsed,
                                            payload: Some(TsPayloadView::Pat(t)),
                                        },
                                    ),
                                }
                            } else if pid == PID_NULL {
                                Some(
                                    TsPacketView {
                                        header: h,
                                        adaptation_field: af_parsed,
                                        payload: Some(TsPayloadView::Null),
                                    },
                                )
                            } else if spec_reserved_raw_pid(pid) {
                                Some(
                                    TsPacketView {
                                        header: h,
                                        adaptation_field: af_parsed,
                                        payload: Some(TsPayloadView::Raw(win.subrange(ps, 188))),
                                    },
                                )
                            } else if !pids.contains_key(pid) {
                                Some(
                                    TsPacketView {
                                        header: h,
                                        adaptation_field: af_parsed,
                                        payload: Some(TsPayloadView::Null),
                                    },
                                )
                            } else if pids[pid] == PidKind::Pmt {
                                match spec_parse_pmt(win, ps, 188) {
                                    None => None,
                                    Some(t) => Some(
                                        TsPacketView {
                                            header: h,
                                            adaptation_field: af_parsed,
                                            payload: Some(TsPayloadView::Pmt(t)),
                                        },
                                    ),
                                }
                            } else if pusi {
                                match spec_parse_pes(win, ps, 188) {
                                    None => None,
                                    Some(t) => Some(
                                        TsPacketView {
                                            header: h,
                                            adaptation_field: af_parsed,
                                            payload: Some(TsPayloadView::Pes(t)),
                                        },
                                    ),
                                }
                            } else {
                                Some(
                                    TsPacketView {
                                        header: h,
                                        adaptation_field: af_parsed,
                                        payload: Some(TsPayloadView::Raw(win.subrange(ps, 188))),
                                    },
                                )
                            }
                        }
                    }
                }
            },
        }
    }
}

/// Whether a packet's payload variant is the one the PID kind table
/// routes its PID to, so that parsing dispatches back to the same
/// variant.
pub open spec fn spec_routes(p: TsPacketView, pids: Map<u16, PidKind>) -> bool {
    let pid = p.header.pid.0;
    match p.payload {
        None => true,
        Some(pl) => match pl {
            TsPayloadView::Pat(_) => pid == PID_PAT,
            TsPayloadView::Pmt(_) => pid != PID_PAT && pid != PID_NULL && !spec_reserved_raw_pid(
                pid,
            ) && pids.contains_key(pid) && pids[pid] == PidKind::Pmt,
            TsPayloadView::Pes(_) => pid != PID_PAT && pid != PID_NULL && !spec_reserved_raw_pid(
                pid,
            ) && pids.contains_key(pid) && pids[pid] == PidKind::Pes,
            TsPayloadView::Raw(_) => spec_reserved_raw_pid(pid) || (pid != PID_PAT && pid
                != PID_NULL && pids.contains_key(pid) && pids[pid] == PidKind::Pes),
            TsPayloadView::Null => pid == PID_NULL || (pid != PID_PAT && !spec_reserved_raw_pid(pid)
                && pid != PID_NULL && !pids.contains_key(pid)),
        },
    }
}

/// Round trip: parsing a serialized well-formed packet under a PID kind
/// table that routes its PID to its payload variant gives the packet
/// back, bit-exactly in every stored field.
#[verifier::rlimit(100)]
#[verifier::spinoff_prover]
pub proof fn lemma_packet_roundtrip(p: TsPacketView, pids: Map<u16, PidKind>)
    requires
        p.wf(),
        spec_routes(p, pids),
    ensures
        spec_serialize_packet(p).len() == PACKET_SIZE,
        spec_parse_packet(spec_serialize_packet(p), pids) == Some(p),
{
    let afc = spec_afc(p);
    let pusi = spec_pusi(p);
    let bh = spec_serialize_header(p.header, afc, pusi);
    let baf: Seq<u8> = match p.adaptation_field {
        Some(a) => seq![a.spec_field_len() as u8] + spec_serialize_af(a),
        None => Seq::<u8>::empty(),
    };
    let bpl: Seq<u8> = match p.payload {
        Some(pl) => spec_serialize_payload(pl),
        None => Seq::<u8>::empty(),
    };
    if p.payload is Some {
        lemma_payload_ser_len(p.payload->Some_0);
    }
    let body = spec_packet_body(p);
    assert(body == bh + baf + bpl);
    let afl = p.spec_af_len();
    let pll: int = match p.payload {
        Some(pl) => pl.spec_len(),
        None => 0,
    };
    assert(baf.len() == afl && bpl.len() == pll);
    assert(body.len() == 4 + afl + pll);
    assert(body.len() <= PACKET_SIZE);
    let win = spec_serialize_packet(p);
    assert(win.len() == PACKET_SIZE);
    assert(forall|i: int| 0 <= i < body.len() ==> win[i] == #[trigger] body[i]);
    assert(forall|i: int| body.len() <= i < 188 ==> #[trigger] win[i] == 0xFFu8);
    assert(win.subrange(0, 4) =~= bh) by {
        assert(forall|i: int| 0 <= i < 4 ==> body[i] == #[trigger] bh[i]);
    }
    lemma_header_roundtrip(p.header, afc, pusi, win);
    let ps = 4 + afl;
    if p.adaptation_field is Some {
        let a = p.adaptation_field->Some_0;
        let fl = a.spec_field_len();
        assert(fl >= 1);
        assert(win[4] == baf[0] && baf[0] == fl as u8);
        assert(win[4] as int == fl);
        assert(win.subrange(5, 5 + fl) =~= spec_serialize_af(a)) by {
            assert(forall|i: int|
                0 <= i < fl ==> baf[1 + i] == #[trigger] spec_serialize_af(a)[i]);
        }
        lemma_af_roundtrip(a, win, 5);
        if p.payload is None {
            assert(afc == 2 && 5 + fl == 188);
        } else {
            assert(afc == 3 && 5 + fl <= 188);
        }
    }
    if p.payload is Some {
        let pl = p.payload->Some_0;
        assert(win.subrange(ps, ps + pll) =~= bpl) by {
            assert(forall|i: int| 0 <= i < pll ==> body[ps + i] == #[trigger] bpl[i]);
        }
        let pid = p.header.pid.0;
        match pl {
            TsPayloadView::Pat(t) => {
                lemma_pat_roundtrip(t, win, ps, 188);
            },
            TsPayloadView::Pmt(t) => {
                lemma_pmt_roundtrip(t, win, ps, 188);
            },
            TsPayloadView::Pes(t) => {
                assert(ps + pll == 188);
                lemma_pes_roundtrip(t, win, ps);
            },
            TsPayloadView::Raw(b) => {
                assert(ps + pll == 188);
                assert(win.subrange(ps, 188) =~= b);
            },
            TsPayloadView::Null => {},
        }
    }
    let parsed = spec_parse_packet(win, pids);
    assert(parsed is Some);
    assert(parsed->Some_0 =~= p);
}

/// Serializes a packet into exactly 188 bytes.
#[verifier::rlimit(100)]
#[verifier::spinoff_prover]
#[verifier::loop_isolation(false)]
pub fn serialize_packet(p: &TsPacket) -> (r: Vec<u8>)
    requires
        p@.wf(),
    ensures
        r@ == spec_serialize_packet(p@),
        r@.len() == PACKET_SIZE,
{
    let afc: u8 = if p.adaptation_field.is_some() && p.payload.is_some() {
        3
    } else if p.adaptation_field.is_some() {
        2
    } else {
        1
    };
    let pusi: bool = match &p.payload {
        Some(TsPayload::Pat(_)) => true,
        Some(TsPayload::Pmt(_)) => true,
        Some(TsPayload::Pes(_)) => true,
        _ => false,
    };
    let mut out: Vec<u8> = Vec::new();
    write_header(&mut out, &p.header, afc, pusi);
    if let Some(a) = &p.adaptation_field {
        let mut fl: u8 = 1;
        if a.pcr.is_some() {
            fl += 6;
        }
        if a.opcr.is_some() {
            fl += 6;
        }
        if a.splice_countdown.is_some() {
            fl += 1;
        }
        if a.transport_private_data.len() > 0 {
            fl += 1 + (a.transport_private_data.len() as u8);
        }
        if let Some(e) = &a.extension {
            fl += 1 + (e.len() as u8);
        }
        proof {
            assert(fl as int == a@.spec_field_len());
        }
        out.push(fl);
        write_af(&mut out, a);
    }
    if let Some(pl) = &p.payload {
        match pl {
            TsPayload::Pat(t) => write_pat(&mut out, t),
            TsPayload::Pmt(t) => write_pmt(&mut out, t),
            TsPayload::Pes(t) => write_pes(&mut out, t),
            TsPayload::Raw(b) => write_bytes(&mut out, &b.buf),
            TsPayload::Null(_) => {},
        }
    }
    proof {
        if p@.payload is Some {
            lemma_payload_ser_len(p@.payload->Some_0);
        }
        assert(out@ =~= spec_packet_body(p@));
        assert(out@.len() <= PACKET_SIZE);
    }
    let ghost body = out@;
    while out.len() < PACKET_SIZE
        invariant
            body == spec_packet_body(p@),
            body.len() <= out@.len() <= PACKET_SIZE,
            out@.subrange(0, body.len() as int) == body,
            forall|i: int| body.len() <= i < out@.len() ==> #[trigger] out@[i] == 0xFFu8,
        decreases PACKET_SIZE - out@.len(),
    {
        out.push(0xFF);
        proof {
            assert(out@.subrange(0, body.len() as int) =~= body);
        }
    }
    proof {
        assert(out@ =~= spec_serialize_packet(p@));
    }
    out
}

/// Reads one 188-byte TS packet from `win`, classifying the payload by
/// the PID kind table.
#[verifier::rlimit(100)]
#[verifier::spinoff_prover]
#[verifier::loop_isolation(false)]
pub fn parse_packet(win: &Vec<u8>, pids: &PidMap<PidKind>) -> (r: Result<TsPacket, ErrorKind>)
    requires
        win@.len() == PACKET_SIZE,
        pids.wf(),
    ensures
        r matches Ok(t) ==> spec_parse_packet(win@, pids@) == Some(t@),
        r is Err ==> spec_parse_packet(win@, pids@) is None && r == Err::<TsPacket, ErrorKind>(
            ErrorKind::InvalidInput,
        ),
{
    let (header, afc, pusi) = match parse_header(win) {
        Ok(v) => v,
        Err(e) => {
            return Err(ErrorKind::InvalidInput);
        },
    };
    let has_af = afc == 2 || afc == 3;
    let fl: usize = if has_af {
        win[4] as usize
    } else {
        0
    };
    if has_af && 5 + fl > 188 {
        return Err(ErrorKind::InvalidInput);
    }
    if afc == 2 && 5 + fl != 188 {
        return Err(ErrorKind::InvalidInput);
    }
    let adaptation_field: Option<AdaptationField> = if has_af && fl > 0 {
        match parse_af(win, 5, 5 + fl) {
            Ok(a) => Some(a),
            Err(e) => {
                return Err(ErrorKind::InvalidInput);
            },
        }
    } else {
        None
    };
    let ps: usize = if has_af {
        5 + fl
    } else {
        4
    };
    if afc == 2 {
        return Ok(TsPacket { header, adaptation_field, payload: None });
    }
    let pid = header.pid.as_u16();
    let payload: TsPayload = if pid == PID_PAT {
        match parse_pat(win, ps, 188) {
            Ok(t) => TsPayload::Pat(t),
            Err(e) => {
                return Err(ErrorKind::InvalidInput);
            },
        }
    } else if pid == PID_NULL {
        TsPayload::Null(Null)
    } else if (1 <= pid && pid <= 0x1F) || pid == 0x1FFB {
        TsPayload::Raw(Bytes { buf: copy_range(win, ps, 188) })
    } else {
        match pids.get(pid) {
            None => TsPayload::Null(Null),
            Some(kind) => match kind {
                PidKind::Pmt => match parse_pmt(win, ps, 188) {
                    Ok(t) => TsPayload::Pmt(t),
                    Err(e) => {
                        return Err(ErrorKind::InvalidInput);
                    },
                },
                PidKind::Pes => {
                    if pusi {
                        match parse_pes(win, ps, 188) {
                            Ok(t) => TsPayload::Pes(t),
                            Err(e) => {
                                return Err(ErrorKind::InvalidInput);
                            },
                        }
                    } else {
                        TsPayload::Raw(Bytes { buf: copy_range(win, ps, 188) })
                    }
                },
            },
        }
    };
    let t = TsPacket { header, adaptation_field, payload: Some(payload) };
    proof {
        let parsed = spec_parse_packet(win@, pids@);
        assert(parsed is Some);
        assert(parsed->Some_0 =~= t@);
    }
    Ok(t)
}

} // verus!
