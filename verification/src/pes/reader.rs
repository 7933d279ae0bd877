//! Reading whole PES packets, with one-packet lookahead and a
//! single-level mark/reset bookmark.

use vstd::prelude::*;

use crate::error::ErrorKind;
use crate::pes::decoder::{
    spec_decode_step, spec_drain_view, view_emission, DecodeStep, PartialPesPacketView,
    PesPacketDecoder,
};
use crate::pes::packet::{PesPacket, PesPacketView};
use crate::ts::packet::{TsPacket, TsPacketView};
use crate::ts::reader::{spec_scan, TsPacketReader};
use crate::ts::types::PidKind;

verus! {

/// The value of a possibly peeked TS packet.
pub open spec fn opt_packet_view(o: Option<TsPacket>) -> Option<TsPacketView> {
    match o {
        Some(t) => Some(t@),
        None => None,
    }
}

/// The value of a possibly peeked PES packet.
pub open spec fn opt_pes_view(o: Option<PesPacket>) -> Option<PesPacketView> {
    match o {
        Some(p) => Some(p@),
        None => None,
    }
}

/// What lands in the peek slot when an emission result is peeked: the
/// packet of an `Ok(Some)`, nothing otherwise.
pub open spec fn peek_of(r: Result<Option<PesPacketView>, ErrorKind>) -> Option<PesPacketView> {
    match r {
        Ok(Some(v)) => Some(v),
        _ => None,
    }
}

/// How one fresh read ends: a packet was emitted, a decoding step was
/// rejected, or the stream ended (and the decoder is left to drain).
pub enum DriveOutcome {
    Emitted(PesPacketView),
    Failed(ErrorKind),
    Ended,
}

/// The result of driving the decoder: the outcome, the stream position
/// and PID kind table after the packets consumed, and the in-flight
/// table afterwards (for `Ended`, the table still to drain).
pub struct DriveResult {
    pub outcome: DriveOutcome,
    pub pos: int,
    pub pids: Map<u16, PidKind>,
    pub partials: Map<u16, PartialPesPacketView>,
}

/// One fresh read: feed TS packets (the pending peeked one first, then
/// scans of the stream) to the decoder until a PES packet comes out, a
/// step fails, or the stream ends.
pub open spec fn spec_drive(
    s: Seq<u8>,
    pos: int,
    pids: Map<u16, PidKind>,
    pending: Option<TsPacketView>,
    m: Map<u16, PartialPesPacketView>,
    ignore: bool,
) -> DriveResult
    decreases s.len() - pos, (if pending is Some {
        1int
    } else {
        0int
    }),
    when 0 <= pos <= s.len()
    via spec_drive_decreases
{
    match pending {
        Some(t) => match spec_decode_step(m, ignore, t) {
            DecodeStep::Emit(v, m2) => DriveResult {
                outcome: DriveOutcome::Emitted(v),
                pos,
                pids,
                partials: m2,
            },
            DecodeStep::Fail(e) => DriveResult {
                outcome: DriveOutcome::Failed(e),
                pos,
                pids,
                partials: m,
            },
            DecodeStep::Quiet(m2) => spec_drive(s, pos, pids, None, m2, ignore),
        },
        None => {
            let (r, pos2, pids2) = spec_scan(s, pos, pids);
            match r {
                None => DriveResult {
                    outcome: DriveOutcome::Ended,
                    pos: pos2,
                    pids: pids2,
                    partials: m,
                },
                Some(t) => match spec_decode_step(m, ignore, t) {
                    DecodeStep::Emit(v, m2) => DriveResult {
                        outcome: DriveOutcome::Emitted(v),
                        pos: pos2,
                        pids: pids2,
                        partials: m2,
                    },
                    DecodeStep::Fail(e) => DriveResult {
                        outcome: DriveOutcome::Failed(e),
                        pos: pos2,
                        pids: pids2,
                        partials: m,
                    },
                    DecodeStep::Quiet(m2) => spec_drive(s, pos2, pids2, None, m2, ignore),
                },
            }
        },
    }
}

#[via_fn]
proof fn spec_drive_decreases(
    s: Seq<u8>,
    pos: int,
    pids: Map<u16, PidKind>,
    pending: Option<TsPacketView>,
    m: Map<u16, PartialPesPacketView>,
    ignore: bool,
) {
    lemma_scan_advances(s, pos, pids);
}

/// Every read moves the scan position forward; a read that yields a
/// packet consumes at least one 188-byte window.
pub proof fn lemma_scan_advances(
    s: Seq<u8>,
    pos: int,
    m: Map<u16, crate::ts::types::PidKind>,
)
    ensures
        spec_scan(s, pos, m).1 >= pos,
        spec_scan(s, pos, m).0 is Some ==> spec_scan(s, pos, m).1 >= pos + 188,
        pos <= s.len() ==> spec_scan(s, pos, m).1 <= s.len(),
    decreases s.len() - pos,
{
    if pos >= s.len() || s.len() - pos < 188 {
    } else {
        let win = s.subrange(pos, pos + 188);
        if crate::ts::codec::spec_parse_packet(win, m) is None {
            lemma_scan_advances(s, pos + 188, m);
        }
    }
}

/// PES packet reader: drives a TS packet reader through a PES decoder
/// and offers one-packet lookahead plus a single-level rewind buffer.
///
/// Between `mark` and `reset` every packet handed out is recorded; after
/// `reset` those packets are replayed in order before any new packet is
/// pulled from the underlying stream.
#[derive(Debug)]
pub struct PesPacketReader {
    peeked_packet: Option<PesPacket>,
    ts_packet_reader: TsPacketReader,
    pes_decoder: PesPacketDecoder,
    eos: bool,
    is_marked: bool,
    back_buffer: Vec<PesPacket>,
}

impl PesPacketReader {
    /// The packet held in the peek slot.
    pub closed spec fn spec_peek(&self) -> Option<PesPacket> {
        self.peeked_packet
    }

    /// The recorded packets awaiting replay, oldest first.
    pub closed spec fn spec_buffer(&self) -> Seq<PesPacketView> {
        self.back_buffer@.map_values(|p: PesPacket| p@)
    }

    /// Whether a mark is outstanding.
    pub closed spec fn spec_marked(&self) -> bool {
        self.is_marked
    }

    /// The underlying TS packet reader.
    pub closed spec fn spec_ts(&self) -> TsPacketReader {
        self.ts_packet_reader
    }

    /// The underlying decoder.
    pub closed spec fn spec_decoder(&self) -> PesPacketDecoder {
        self.pes_decoder
    }

    /// Whether the underlying stream has ended.
    pub closed spec fn spec_eos(&self) -> bool {
        self.eos
    }

    /// The parts are well formed, and the decoder only enters its
    /// draining state when the reader has seen the end of the stream.
    pub closed spec fn wf(&self) -> bool {
        self.ts_packet_reader.wf() && self.pes_decoder.wf() && (!self.eos
            ==> !self.pes_decoder.spec_eos())
    }

    /// Makes a new `PesPacketReader` instance with a fresh decoder that
    /// honours declared PES packet lengths.
    pub fn new(ts_packet_reader: TsPacketReader) -> (r: Self)
        requires
            ts_packet_reader.wf(),
        ensures
            r.wf(),
            r.spec_ts() == ts_packet_reader,
            r.spec_peek() is None,
            r.spec_buffer() == Seq::<PesPacketView>::empty(),
            !r.spec_marked(),
            !r.spec_eos(),
            !r.spec_decoder().spec_ignore(),
            r.spec_decoder().spec_map() == Map::<
                u16,
                crate::pes::decoder::PartialPesPacket,
            >::empty(),
            r.spec_decoder().spec_partials() == Map::<u16, PartialPesPacketView>::empty(),
            !r.spec_decoder().spec_eos(),
    {
        let r = PesPacketReader {
            peeked_packet: None,
            ts_packet_reader,
            pes_decoder: PesPacketDecoder::new(),
            eos: false,
            is_marked: false,
            back_buffer: Vec::new(),
        };
        proof {
            assert(r.spec_buffer() =~= Seq::<PesPacketView>::empty());
        }
        r
    }

    /// Makes a new `PesPacketReader` instance around a caller-supplied
    /// decoder.
    pub fn with_decoder(ts_packet_reader: TsPacketReader, pes_decoder: PesPacketDecoder) -> (r:
        Self)
        requires
            ts_packet_reader.wf(),
            pes_decoder.wf(),
            !pes_decoder.spec_eos(),
        ensures
            r.wf(),
            r.spec_ts() == ts_packet_reader,
            r.spec_decoder() == pes_decoder,
            r.spec_peek() is None,
            r.spec_buffer() == Seq::<PesPacketView>::empty(),
            !r.spec_marked(),
            !r.spec_eos(),
    {
        let r = PesPacketReader {
            peeked_packet: None,
            ts_packet_reader,
            pes_decoder,
            eos: false,
            is_marked: false,
            back_buffer: Vec::new(),
        };
        proof {
            assert(r.spec_buffer() =~= Seq::<PesPacketView>::empty());
        }
        r
    }

    /// Returns a reference to the underlying TS packet reader.
    pub fn ts_packet_reader(&self) -> (r: &TsPacketReader)
        ensures
            *r == self.spec_ts(),
    {
        &self.ts_packet_reader
    }

    /// Converts the reader into the underlying TS packet reader.
    pub fn into_ts_packet_reader(self) -> (r: TsPacketReader)
        ensures
            r == self.spec_ts(),
    {
        self.ts_packet_reader
    }

    /// Pulls TS packets into the decoder until a PES packet comes out or
    /// the stream ends, then flushes.  Decoder errors propagate.  The
    /// whole read is the `spec_drive` of the reader's starting state.
    #[verifier::rlimit(100)]
    fn read_next_pes_packet(&mut self) -> (r: Result<Option<PesPacket>, ErrorKind>)
        requires
            old(self).wf(),
        ensures
            final(self).wf(),
            final(self).spec_peek() == old(self).spec_peek(),
            final(self).spec_buffer() == old(self).spec_buffer(),
            final(self).spec_marked() == old(self).spec_marked(),
            final(self).spec_ts().spec_stream() == old(self).spec_ts().spec_stream(),
            final(self).spec_decoder().spec_ignore() == old(self).spec_decoder().spec_ignore(),
            old(self).spec_eos() ==> final(self).spec_eos() && final(self).spec_ts() == old(self).spec_ts() && spec_drain_view(
                old(self).spec_decoder().spec_partials(),
                view_emission(r),
                final(self).spec_decoder().spec_partials(),
            ),
            !old(self).spec_eos() ==> ({
                let d = spec_drive(
                    old(self).spec_ts().spec_stream(),
                    old(self).spec_ts().spec_pos(),
                    old(self).spec_ts().spec_pids(),
                    opt_packet_view(old(self).spec_ts().spec_peek()),
                    old(self).spec_decoder().spec_partials(),
                    old(self).spec_decoder().spec_ignore(),
                );
                &&& final(self).spec_ts().spec_pos() == d.pos
                &&& final(self).spec_ts().spec_pids() == d.pids
                &&& final(self).spec_ts().spec_peek() is None
                &&& match d.outcome {
                    DriveOutcome::Emitted(v) => view_emission(r) == Ok::<
                        Option<PesPacketView>,
                        ErrorKind,
                    >(Some(v)) && final(self).spec_decoder().spec_partials() == d.partials
                        && !final(self).spec_eos(),
                    DriveOutcome::Failed(e) => r == Err::<Option<PesPacket>, ErrorKind>(e)
                        && final(self).spec_decoder().spec_partials() == d.partials && !final(self).spec_eos(),
                    DriveOutcome::Ended => final(self).spec_eos() && spec_drain_view(
                        d.partials,
                        view_emission(r),
                        final(self).spec_decoder().spec_partials(),
                    ),
                }
            }),
    {
        if self.eos {
            return self.pes_decoder.flush();
        }
        proof {
            self.ts_packet_reader.lemma_wf_bounds();
        }
        let ghost st0 = self.ts_packet_reader.spec_stream();
        let ghost p0 = self.ts_packet_reader.spec_pos();
        let ghost pids0 = self.ts_packet_reader.spec_pids();
        let ghost pend0 = opt_packet_view(self.ts_packet_reader.spec_peek());
        let ghost mp0 = self.pes_decoder.spec_partials();
        let ghost ig = self.pes_decoder.spec_ignore();
        loop
            invariant
                self.wf(),
                !self.eos,
                !old(self).eos,
                !self.pes_decoder.spec_eos(),
                0 <= self.ts_packet_reader.spec_pos() <= st0.len(),
                self.peeked_packet == old(self).peeked_packet,
                self.back_buffer == old(self).back_buffer,
                self.is_marked == old(self).is_marked,
                self.ts_packet_reader.spec_stream() == st0,
                self.pes_decoder.spec_ignore() == ig,
                st0 == old(self).ts_packet_reader.spec_stream(),
                p0 == old(self).ts_packet_reader.spec_pos(),
                pids0 == old(self).ts_packet_reader.spec_pids(),
                pend0 == opt_packet_view(old(self).ts_packet_reader.spec_peek()),
                mp0 == old(self).pes_decoder.spec_partials(),
                ig == old(self).pes_decoder.spec_ignore(),
                spec_drive(st0, p0, pids0, pend0, mp0, ig) == spec_drive(
                    st0,
                    self.ts_packet_reader.spec_pos(),
                    self.ts_packet_reader.spec_pids(),
                    opt_packet_view(self.ts_packet_reader.spec_peek()),
                    self.pes_decoder.spec_partials(),
                    ig,
                ),
            decreases self.ts_packet_reader.spec_remaining(),
        {
            let ghost pos_i = self.ts_packet_reader.spec_pos();
            let ghost peek_i = self.ts_packet_reader.spec_peek();
            let ghost pids_i = self.ts_packet_reader.spec_pids();
            let ghost mp_i = self.pes_decoder.spec_partials();
            let next = match self.ts_packet_reader.read_ts_packet() {
                Ok(v) => v,
                Err(_) => None,
            };
            proof {
                lemma_scan_advances(st0, pos_i, pids_i);
                self.ts_packet_reader.lemma_wf_bounds();
            }
            match next {
                Some(ts_packet) => {
                    let res = self.pes_decoder.process_ts_packet(&ts_packet);
                    proof {
                        let tv = ts_packet@;
                        if peek_i is Some {
                            assert(opt_packet_view(peek_i) == Some(tv));
                            assert(self.ts_packet_reader.spec_pos() == pos_i);
                            assert(self.ts_packet_reader.spec_pids() == pids_i);
                        } else {
                            assert(spec_scan(st0, pos_i, pids_i).0 == Some(tv));
                            assert(self.ts_packet_reader.spec_pos() == spec_scan(
                                st0,
                                pos_i,
                                pids_i,
                            ).1);
                            assert(self.ts_packet_reader.spec_pids() == spec_scan(
                                st0,
                                pos_i,
                                pids_i,
                            ).2);
                        }
                        assert(self.ts_packet_reader.spec_peek() is None);
                    }
                    match res {
                        Err(e) => {
                            proof {
                                let tv = ts_packet@;
                                assert(spec_decode_step(mp_i, ig, tv) matches DecodeStep::Fail(f)
                                    && f == e);
                                assert(spec_drive(st0, p0, pids0, pend0, mp0, ig) == DriveResult {
                                    outcome: DriveOutcome::Failed(e),
                                    pos: self.ts_packet_reader.spec_pos(),
                                    pids: self.ts_packet_reader.spec_pids(),
                                    partials: self.pes_decoder.spec_partials(),
                                });
                            }
                            return Err(e);
                        },
                        Ok(Some(packet)) => {
                            proof {
                                let tv = ts_packet@;
                                assert(spec_decode_step(mp_i, ig, tv) matches DecodeStep::Emit(
                                    v,
                                    m2,
                                ) && v == packet@ && self.pes_decoder.spec_partials() == m2);
                                assert(spec_drive(st0, p0, pids0, pend0, mp0, ig) == DriveResult {
                                    outcome: DriveOutcome::Emitted(packet@),
                                    pos: self.ts_packet_reader.spec_pos(),
                                    pids: self.ts_packet_reader.spec_pids(),
                                    partials: self.pes_decoder.spec_partials(),
                                });
                            }
                            return Ok(Some(packet));
                        },
                        Ok(None) => {
                            proof {
                                let tv = ts_packet@;
                                assert(spec_decode_step(mp_i, ig, tv) matches DecodeStep::Quiet(m2)
                                    && self.pes_decoder.spec_partials() == m2);
                                assert(spec_drive(st0, p0, pids0, pend0, mp0, ig) == spec_drive(
                                    st0,
                                    self.ts_packet_reader.spec_pos(),
                                    self.ts_packet_reader.spec_pids(),
                                    opt_packet_view(self.ts_packet_reader.spec_peek()),
                                    self.pes_decoder.spec_partials(),
                                    ig,
                                ));
                            }
                        },
                    }
                },
                None => {
                    proof {
                        assert(peek_i is None);
                        assert(spec_scan(st0, pos_i, pids_i).0 is None);
                        assert(spec_drive(st0, p0, pids0, pend0, mp0, ig) == DriveResult {
                            outcome: DriveOutcome::Ended,
                            pos: self.ts_packet_reader.spec_pos(),
                            pids: self.ts_packet_reader.spec_pids(),
                            partials: self.pes_decoder.spec_partials(),
                        });
                    }
                    self.eos = true;
                    return self.pes_decoder.flush();
                },
            }
        }
    }

    /// Reads a PES packet.
    ///
    /// The peeked packet is handed out first; otherwise, when a replay is
    /// pending and no mark is outstanding, the oldest recorded packet is
    /// handed out; otherwise a new packet is pulled from the stream.
    /// While a mark is outstanding, every packet handed out is recorded
    /// for replay.  Returns `Ok(None)` at the end of the stream.
    pub fn read_pes_packet(&mut self) -> (r: Result<Option<PesPacket>, ErrorKind>)
        requires
            old(self).wf(),
        ensures
            final(self).wf(),
            final(self).spec_peek() is None,
            final(self).spec_marked() == old(self).spec_marked(),
            final(self).spec_ts().spec_stream() == old(self).spec_ts().spec_stream(),
            old(self).spec_peek() matches Some(t) ==> r == Ok::<Option<PesPacket>, ErrorKind>(
                Some(t),
            ) && final(self).spec_ts() == old(self).spec_ts() && final(self).spec_decoder() == old(self).spec_decoder() && final(self).spec_buffer() == (if old(self).spec_marked() {
                old(self).spec_buffer().push(t@)
            } else {
                old(self).spec_buffer()
            }),
            old(self).spec_peek() is None && old(self).spec_buffer().len() > 0 && !old(self).spec_marked() ==> (r matches Ok(p) && p matches Some(b) && b@ == old(self).spec_buffer()[0] && final(self).spec_buffer() == old(self).spec_buffer().drop_first()
                && final(self).spec_ts() == old(self).spec_ts() && final(self).spec_decoder()
                == old(self).spec_decoder()),
            old(self).spec_peek() is None && (old(self).spec_buffer().len() == 0 || old(self).spec_marked()) ==> (match r {
                Ok(Some(p)) => final(self).spec_buffer() == (if old(self).spec_marked() {
                    old(self).spec_buffer().push(p@)
                } else {
                    old(self).spec_buffer()
                }),
                Ok(None) => final(self).spec_buffer() == old(self).spec_buffer(),
                Err(_) => final(self).spec_buffer() == old(self).spec_buffer(),
            }),
            old(self).spec_peek() is None && (old(self).spec_buffer().len() == 0 || old(self).spec_marked()) ==> ({
                &&& final(self).spec_decoder().spec_ignore() == old(self).spec_decoder().spec_ignore()
                &&& (old(self).spec_eos() ==> final(self).spec_eos() && final(self).spec_ts()
                    == old(self).spec_ts() && spec_drain_view(
                    old(self).spec_decoder().spec_partials(),
                    view_emission(r),
                    final(self).spec_decoder().spec_partials(),
                ))
                &&& (!old(self).spec_eos() ==> ({
                    let d = spec_drive(
                        old(self).spec_ts().spec_stream(),
                        old(self).spec_ts().spec_pos(),
                        old(self).spec_ts().spec_pids(),
                        opt_packet_view(old(self).spec_ts().spec_peek()),
                        old(self).spec_decoder().spec_partials(),
                        old(self).spec_decoder().spec_ignore(),
                    );
                    &&& final(self).spec_ts().spec_pos() == d.pos
                    &&& final(self).spec_ts().spec_pids() == d.pids
                    &&& final(self).spec_ts().spec_peek() is None
                    &&& match d.outcome {
                        DriveOutcome::Emitted(v) => view_emission(r) == Ok::<
                            Option<PesPacketView>,
                            ErrorKind,
                        >(Some(v)) && final(self).spec_decoder().spec_partials() == d.partials
                            && !final(self).spec_eos(),
                        DriveOutcome::Failed(e) => r == Err::<Option<PesPacket>, ErrorKind>(e)
                            && final(self).spec_decoder().spec_partials() == d.partials && !final(self).spec_eos(),
                        DriveOutcome::Ended => final(self).spec_eos() && spec_drain_view(
                            d.partials,
                            view_emission(r),
                            final(self).spec_decoder().spec_partials(),
                        ),
                    }
                }))
            }),
    {
        let packet: Option<PesPacket> = if self.peeked_packet.is_some() {
            self.peeked_packet.take()
        } else if self.back_buffer.len() > 0 && !self.is_marked {
            let b = self.back_buffer.remove(0);
            proof {
                assert(self.back_buffer@.map_values(|p: PesPacket| p@) =~= old(self).back_buffer@.map_values(|p: PesPacket| p@).drop_first());
            }
            Some(b)
        } else {
            match self.read_next_pes_packet() {
                Ok(p) => p,
                Err(e) => {
                    return Err(e);
                },
            }
        };
        if self.is_marked && packet.is_some() {
            let ghost mid = self.back_buffer@;
            match &packet {
                Some(p) => {
                    self.back_buffer.push(p.clone());
                    proof {
                        assert(self.back_buffer@.map_values(|q: PesPacket| q@)
                            =~= mid.map_values(|q: PesPacket| q@).push(p@));
                    }
                },
                None => {},
            }
        }
        Ok(packet)
    }

    /// Peeks at the next PES packet without taking it.  A decoder error
    /// while filling the peek slot shows as `None`.
    pub fn peek_pes_packet(&mut self) -> (r: Option<&PesPacket>)
        requires
            old(self).wf(),
        ensures
            final(self).wf(),
            final(self).spec_marked() == old(self).spec_marked(),
            final(self).spec_ts().spec_stream() == old(self).spec_ts().spec_stream(),
            match r {
                Some(t) => final(self).spec_peek() == Some(*t),
                None => final(self).spec_peek() is None,
            },
            old(self).spec_peek() matches Some(t) ==> final(self).spec_peek() == Some(t)
                && final(self).spec_buffer() == old(self).spec_buffer(),
            old(self).spec_peek() is None && old(self).spec_buffer().len() > 0 && !old(self).spec_marked() ==> opt_pes_view(final(self).spec_peek()) == Some(
                old(self).spec_buffer()[0],
            ) && final(self).spec_buffer() == old(self).spec_buffer().drop_first() && final(self).spec_ts() == old(self).spec_ts() && final(self).spec_decoder() == old(self).spec_decoder(),
            old(self).spec_peek() is None && (old(self).spec_buffer().len() == 0 || old(self).spec_marked()) ==> ({
                &&& (old(self).spec_eos() ==> final(self).spec_eos() && final(self).spec_ts()
                    == old(self).spec_ts() && (match opt_pes_view(final(self).spec_peek()) {
                    Some(v) => spec_drain_view(
                        old(self).spec_decoder().spec_partials(),
                        Ok(Some(v)),
                        final(self).spec_decoder().spec_partials(),
                    ),
                    None => spec_drain_view(
                        old(self).spec_decoder().spec_partials(),
                        Ok(None),
                        final(self).spec_decoder().spec_partials(),
                    ) || spec_drain_view(
                        old(self).spec_decoder().spec_partials(),
                        Err(ErrorKind::InvalidInput),
                        final(self).spec_decoder().spec_partials(),
                    ),
                }))
                &&& (!old(self).spec_eos() ==> ({
                    let d = spec_drive(
                        old(self).spec_ts().spec_stream(),
                        old(self).spec_ts().spec_pos(),
                        old(self).spec_ts().spec_pids(),
                        opt_packet_view(old(self).spec_ts().spec_peek()),
                        old(self).spec_decoder().spec_partials(),
                        old(self).spec_decoder().spec_ignore(),
                    );
                    &&& final(self).spec_ts().spec_pos() == d.pos
                    &&& final(self).spec_ts().spec_pids() == d.pids
                    &&& final(self).spec_ts().spec_peek() is None
                    &&& match d.outcome {
                        DriveOutcome::Emitted(v) => opt_pes_view(final(self).spec_peek()) == Some(
                            v,
                        ) && final(self).spec_decoder().spec_partials() == d.partials && !final(self).spec_eos(),
                        DriveOutcome::Failed(_) => final(self).spec_peek() is None && final(self).spec_decoder().spec_partials() == d.partials && !final(self).spec_eos(),
                        DriveOutcome::Ended => final(self).spec_eos() && (match opt_pes_view(
                            final(self).spec_peek(),
                        ) {
                            Some(v) => spec_drain_view(
                                d.partials,
                                Ok(Some(v)),
                                final(self).spec_decoder().spec_partials(),
                            ),
                            None => spec_drain_view(
                                d.partials,
                                Ok(None),
                                final(self).spec_decoder().spec_partials(),
                            ) || spec_drain_view(
                                d.partials,
                                Err(ErrorKind::InvalidInput),
                                final(self).spec_decoder().spec_partials(),
                            ),
                        }),
                    }
                }))
            }),
    {
        if self.peeked_packet.is_none() {
            let res = self.read_pes_packet();
            let ghost rv = view_emission(res);
            let next = match res {
                Ok(p) => p,
                Err(_) => None,
            };
            self.peeked_packet = next;
            proof {
                assert(opt_pes_view(self.peeked_packet) == peek_of(rv));
                if old(self).spec_peek() is None && (old(self).spec_buffer().len() == 0 || old(self).spec_marked()) {
                    if old(self).spec_eos() {
                        assert(spec_drain_view(
                            old(self).spec_decoder().spec_partials(),
                            rv,
                            self.pes_decoder.spec_partials(),
                        ));
                        assert(rv matches Err(e) ==> e == ErrorKind::InvalidInput);
                    } else {
                        let d = spec_drive(
                            old(self).spec_ts().spec_stream(),
                            old(self).spec_ts().spec_pos(),
                            old(self).spec_ts().spec_pids(),
                            opt_packet_view(old(self).spec_ts().spec_peek()),
                            old(self).spec_decoder().spec_partials(),
                            old(self).spec_decoder().spec_ignore(),
                        );
                        match d.outcome {
                            DriveOutcome::Ended => {
                                assert(spec_drain_view(
                                    d.partials,
                                    rv,
                                    self.pes_decoder.spec_partials(),
                                ));
                                assert(rv matches Err(e) ==> e == ErrorKind::InvalidInput);
                            },
                            _ => {},
                        }
                    }
                }
            }
        }
        self.peeked_packet.as_ref()
    }

    /// Marks the reader so that a later `reset` replays everything read
    /// in between.  Fails with `ErrorKind::Other` when a mark is already
    /// outstanding.
    pub fn mark(&mut self) -> (r: Result<(), ErrorKind>)
        requires
            old(self).wf(),
        ensures
            final(self).wf(),
            old(self).spec_marked() ==> r == Err::<(), ErrorKind>(ErrorKind::Other) && *final(self)
                == *old(self),
            !old(self).spec_marked() ==> r == Ok::<(), ErrorKind>(()) && final(self).spec_marked()
                && final(self).spec_peek() == old(self).spec_peek() && final(self).spec_ts() == old(self).spec_ts() && final(self).spec_decoder() == old(self).spec_decoder() && final(self).spec_buffer() == (match old(self).spec_peek() {
                Some(p) => old(self).spec_buffer().push(p@),
                None => old(self).spec_buffer(),
            }),
    {
        if self.is_marked {
            return Err(ErrorKind::Other);
        }
        self.is_marked = true;
        let ghost mid = self.back_buffer@;
        match &self.peeked_packet {
            Some(p) => {
                self.back_buffer.push(p.clone());
                proof {
                    assert(self.back_buffer@.map_values(|q: PesPacket| q@) =~= mid.map_values(
                        |q: PesPacket| q@,
                    ).push(p@));
                }
            },
            None => {},
        }
        Ok(())
    }

    /// Resets the reader to the marked spot: clears the mark and the
    /// peek slot, so the next reads replay the recorded packets in order
    /// before touching the underlying stream.  Fails with
    /// `ErrorKind::Other` when no mark is outstanding.
    pub fn reset(&mut self) -> (r: Result<(), ErrorKind>)
        requires
            old(self).wf(),
        ensures
            final(self).wf(),
            !old(self).spec_marked() ==> r == Err::<(), ErrorKind>(ErrorKind::Other) && *final(self)
                == *old(self),
            old(self).spec_marked() ==> r == Ok::<(), ErrorKind>(()) && !final(self).spec_marked()
                && final(self).spec_peek() is None && final(self).spec_buffer() == old(self).spec_buffer() && final(self).spec_ts() == old(self).spec_ts() && final(self).spec_decoder() == old(self).spec_decoder(),
    {
        if !self.is_marked {
            return Err(ErrorKind::Other);
        }
        self.is_marked = false;
        self.peeked_packet = None;
        Ok(())
    }

    /// Returns `true` when recorded packets await replay.
    pub fn has_back_buffer(&self) -> (r: bool)
        ensures
            r == (self.spec_buffer().len() > 0),
    {
        self.back_buffer.len() > 0
    }
}

} // verus!
