//! Reassembling PES packets from TS packet payloads.

use vstd::prelude::*;

use crate::error::ErrorKind;
use crate::pes::packet::{PesPacket, PesPacketView};
use crate::pid_map::PidMap;
use crate::ts::packet::{TsPacket, TsPacketView, TsPayload, TsPayloadView};
use crate::ts::payload::Bytes;

verus! {

/// A PES packet still being reassembled: the bytes gathered so far and
/// the expected total body size, or `None` when the packet is unbounded.
#[derive(Debug)]
pub struct PartialPesPacket {
    pub packet: PesPacket,
    pub data_len: Option<usize>,
}

impl PartialPesPacket {
    /// Whether the gathered bytes amount to a whole packet: either the
    /// packet is unbounded, or its declared body size has been reached.
    pub open spec fn complete_enough(self) -> bool {
        match self.data_len {
            None => true,
            Some(l) => l as int == self.packet.data@.len(),
        }
    }
}

/// The mathematical value of a partial packet.
#[verifier::ext_equal]
pub struct PartialPesPacketView {
    pub header: crate::pes::packet::PesHeader,
    pub data: Seq<u8>,
    pub data_len: Option<usize>,
}

impl View for PartialPesPacket {
    type V = PartialPesPacketView;

    open spec fn view(&self) -> PartialPesPacketView {
        PartialPesPacketView {
            header: self.packet.header,
            data: self.packet.data@,
            data_len: self.data_len,
        }
    }
}

impl PartialPesPacketView {
    /// Whether the gathered bytes amount to a whole packet.
    pub open spec fn complete_enough(self) -> bool {
        match self.data_len {
            None => true,
            Some(l) => l as int == self.data.len(),
        }
    }
}

/// The mathematical value of an in-flight table: each partial packet by
/// its value.
pub open spec fn partials_of(m: Map<u16, PartialPesPacket>) -> Map<u16, PartialPesPacketView> {
    Map::new(|k: u16| m.contains_key(k), |k: u16| m[k]@)
}

/// Taking values commutes with inserting one entry.
proof fn lemma_partials_insert(m: Map<u16, PartialPesPacket>, pid: u16, v: PartialPesPacket)
    ensures
        partials_of(m.insert(pid, v)) == partials_of(m).insert(pid, v@),
{
    assert(partials_of(m.insert(pid, v)) =~= partials_of(m).insert(pid, v@));
}

/// Taking values commutes with removing one entry.
proof fn lemma_partials_remove(m: Map<u16, PartialPesPacket>, pid: u16)
    ensures
        partials_of(m.remove(pid)) == partials_of(m).remove(pid),
{
    assert(partials_of(m.remove(pid)) =~= partials_of(m).remove(pid));
}

/// What one TS packet does to the in-flight table, at the level of
/// values: a PES payload starts a partial and emits whatever was there,
/// a raw payload extends, completes or overruns the partial in flight,
/// everything else changes nothing.  This function mirrors
/// `process_ts_packet` exactly and lets a caller compute the decoder's
/// behaviour over a whole stream.
pub enum DecodeStep {
    /// A packet finished: its value, and the table afterwards.
    Emit(PesPacketView, Map<u16, PartialPesPacketView>),
    /// Nothing finished: the table afterwards.
    Quiet(Map<u16, PartialPesPacketView>),
    /// The payload was rejected; the table is unchanged.
    Fail(ErrorKind),
}

/// One decoding step before end of stream.
pub open spec fn spec_decode_step(
    m: Map<u16, PartialPesPacketView>,
    ignore: bool,
    t: TsPacketView,
) -> DecodeStep {
    let pid = t.header.pid.0;
    match t.payload {
        Some(TsPayloadView::Pes(pes)) => {
            if !ignore && pes.pes_packet_len > 0 && (pes.pes_packet_len as int)
                < pes.header.spec_optional_header_len() {
                DecodeStep::Fail(ErrorKind::InvalidInput)
            } else {
                let data_len: Option<usize> = if ignore || pes.pes_packet_len == 0 {
                    None
                } else {
                    Some(
                        ((pes.pes_packet_len - pes.header.spec_optional_header_len()) as usize),
                    )
                };
                let part = PartialPesPacketView { header: pes.header, data: pes.data, data_len };
                if m.contains_key(pid) {
                    DecodeStep::Emit(
                        PesPacketView { header: m[pid].header, data: m[pid].data },
                        m.insert(pid, part),
                    )
                } else {
                    DecodeStep::Quiet(m.insert(pid, part))
                }
            }
        },
        Some(TsPayloadView::Raw(b)) => {
            if !m.contains_key(pid) {
                DecodeStep::Quiet(m)
            } else {
                let part = m[pid];
                let grown = part.data + b;
                match part.data_len {
                    Some(e) => if e as int == grown.len() {
                        DecodeStep::Emit(
                            PesPacketView { header: part.header, data: grown },
                            m.remove(pid),
                        )
                    } else if (e as int) < grown.len() {
                        DecodeStep::Quiet(m.remove(pid))
                    } else {
                        DecodeStep::Quiet(
                            m.insert(
                                pid,
                                PartialPesPacketView {
                                    header: part.header,
                                    data: grown,
                                    data_len: part.data_len,
                                },
                            ),
                        )
                    },
                    None => DecodeStep::Quiet(
                        m.insert(
                            pid,
                            PartialPesPacketView {
                                header: part.header,
                                data: grown,
                                data_len: part.data_len,
                            },
                        ),
                    ),
                }
            }
        },
        _ => DecodeStep::Quiet(m),
    }
}

/// The value of an emission result.
pub open spec fn view_emission(r: Result<Option<PesPacket>, ErrorKind>) -> Result<
    Option<PesPacketView>,
    ErrorKind,
> {
    match r {
        Ok(Some(p)) => Ok(Some(p@)),
        Ok(None) => Ok(None),
        Err(e) => Err(e),
    }
}

/// One draining step at end of stream, at the level of values.
pub open spec fn spec_drain_view(
    m0: Map<u16, PartialPesPacketView>,
    r: Result<Option<PesPacketView>, ErrorKind>,
    m1: Map<u16, PartialPesPacketView>,
) -> bool {
    ||| (r == Ok::<Option<PesPacketView>, ErrorKind>(None) && m1 == m0 && forall|k: u16|
        !m0.contains_key(k))
    ||| (exists|pid: u16|
        #[trigger] m0.contains_key(pid) && m1 == m0.remove(pid) && (if m0[pid].complete_enough() {
            r == Ok::<Option<PesPacketView>, ErrorKind>(
                Some(PesPacketView { header: m0[pid].header, data: m0[pid].data }),
            )
        } else {
            r == Err::<Option<PesPacketView>, ErrorKind>(ErrorKind::InvalidInput)
        }))
}

/// A draining step over the raw table is one over its values.
proof fn lemma_drain_view(
    m0: Map<u16, PartialPesPacket>,
    r: Result<Option<PesPacket>, ErrorKind>,
    m1: Map<u16, PartialPesPacket>,
)
    requires
        spec_drain_step(m0, r, m1),
    ensures
        spec_drain_view(partials_of(m0), view_emission(r), partials_of(m1)),
{
    if r == Ok::<Option<PesPacket>, ErrorKind>(None) && m1 == m0 && (forall|k: u16|
        !m0.contains_key(k)) {
        assert(forall|k: u16| !partials_of(m0).contains_key(k));
    } else {
        let pid = choose|pid: u16|
            #[trigger] m0.contains_key(pid) && m1 == m0.remove(pid) && (
            if m0[pid].complete_enough() {
                r == Ok::<Option<PesPacket>, ErrorKind>(Some(m0[pid].packet))
            } else {
                r == Err::<Option<PesPacket>, ErrorKind>(ErrorKind::InvalidInput)
            });
        lemma_partials_remove(m0, pid);
        assert(partials_of(m0).contains_key(pid));
        assert(partials_of(m0)[pid] == m0[pid]@);
        if m0[pid].complete_enough() {
            assert(m0[pid].packet@ =~= PesPacketView {
                header: partials_of(m0)[pid].header,
                data: partials_of(m0)[pid].data,
            });
        }
    }
}

/// One draining step at end of stream: either nothing was in flight and
/// nothing changes, or some PID's partial packet leaves the map — as a
/// packet when it was complete enough, as an `InvalidInput` error when a
/// declared length was never reached.
pub open spec fn spec_drain_step(
    m0: Map<u16, PartialPesPacket>,
    r: Result<Option<PesPacket>, ErrorKind>,
    m1: Map<u16, PartialPesPacket>,
) -> bool {
    ||| (r == Ok::<Option<PesPacket>, ErrorKind>(None) && m1 == m0 && forall|k: u16|
        !m0.contains_key(k))
    ||| (exists|pid: u16|
        #[trigger] m0.contains_key(pid) && m1 == m0.remove(pid) && (if m0[pid].complete_enough() {
            r == Ok::<Option<PesPacket>, ErrorKind>(Some(m0[pid].packet))
        } else {
            r == Err::<Option<PesPacket>, ErrorKind>(ErrorKind::InvalidInput)
        }))
}

/// PES packet decoder: keeps exactly one in-flight partial PES packet
/// per PID and emits packets when a boundary or the declared length
/// shows one is finished.
#[derive(Debug)]
pub struct PesPacketDecoder {
    pes_packets: PidMap<PartialPesPacket>,
    ignore_packet_header_length: bool,
    eos: bool,
}

impl PesPacketDecoder {
    /// The in-flight partial packets, one per PID at most.
    pub closed spec fn spec_map(&self) -> Map<u16, PartialPesPacket> {
        self.pes_packets@
    }

    /// The in-flight partial packets, by value.
    pub open spec fn spec_partials(&self) -> Map<u16, PartialPesPacketView> {
        partials_of(self.spec_map())
    }

    /// Whether declared PES lengths are ignored, making every packet
    /// unbounded.
    pub closed spec fn spec_ignore(&self) -> bool {
        self.ignore_packet_header_length
    }

    /// Whether the end of the stream has been reached.
    pub closed spec fn spec_eos(&self) -> bool {
        self.eos
    }

    /// The map never holds two entries for one PID.
    pub closed spec fn wf(&self) -> bool {
        self.pes_packets.wf()
    }

    /// Creates a new `PesPacketDecoder` instance that honours declared
    /// PES packet lengths.
    pub fn new() -> (r: Self)
        ensures
            r.wf(),
            r.spec_map() == Map::<u16, PartialPesPacket>::empty(),
            r.spec_partials() == Map::<u16, PartialPesPacketView>::empty(),
            !r.spec_ignore(),
            !r.spec_eos(),
    {
        let r = PesPacketDecoder {
            pes_packets: PidMap::new(),
            ignore_packet_header_length: false,
            eos: false,
        };
        proof {
            assert(r.spec_partials() =~= Map::<u16, PartialPesPacketView>::empty());
        }
        r
    }

    /// Creates a new `PesPacketDecoder` instance.  With `ignore` set,
    /// every PES packet is treated as unbounded and boundaries are
    /// detected only by the payload unit start indicator.
    pub fn with_ignore_header_length(ignore: bool) -> (r: Self)
        ensures
            r.wf(),
            r.spec_map() == Map::<u16, PartialPesPacket>::empty(),
            r.spec_partials() == Map::<u16, PartialPesPacketView>::empty(),
            r.spec_ignore() == ignore,
            !r.spec_eos(),
    {
        let r = PesPacketDecoder {
            pes_packets: PidMap::new(),
            ignore_packet_header_length: ignore,
            eos: false,
        };
        proof {
            assert(r.spec_partials() =~= Map::<u16, PartialPesPacketView>::empty());
        }
        r
    }

    /// Hands back one in-flight partial packet, erring when its declared
    /// length was never reached.
    fn handle_eos(&mut self) -> (r: Result<Option<PesPacket>, ErrorKind>)
        requires
            old(self).wf(),
        ensures
            final(self).wf(),
            final(self).spec_ignore() == old(self).spec_ignore(),
            final(self).spec_eos() == old(self).spec_eos(),
            spec_drain_step(old(self).spec_map(), r, final(self).spec_map()),
    {
        match self.pes_packets.pop() {
            None => Ok(None),
            Some((pid, partial)) => {
                let ok = match partial.data_len {
                    None => true,
                    Some(l) => partial.packet.data.len() == l,
                };
                if ok {
                    Ok(Some(partial.packet))
                } else {
                    Err(ErrorKind::InvalidInput)
                }
            },
        }
    }

    /// Starts a new partial packet for this PID, emitting whatever was in
    /// flight there before.
    fn handle_pes_payload(&mut self, pid: u16, pes: &crate::ts::payload::Pes) -> (r: Result<
        Option<PesPacket>,
        ErrorKind,
    >)
        requires
            old(self).wf(),
        ensures
            final(self).wf(),
            final(self).spec_ignore() == old(self).spec_ignore(),
            final(self).spec_eos() == old(self).spec_eos(),
            !old(self).spec_ignore() && pes.pes_packet_len > 0 && (pes.pes_packet_len as int)
                < pes.header.spec_optional_header_len() ==> r == Err::<
                Option<PesPacket>,
                ErrorKind,
            >(ErrorKind::InvalidInput) && final(self).spec_map() == old(self).spec_map(),
            !(!old(self).spec_ignore() && pes.pes_packet_len > 0 && (pes.pes_packet_len as int)
                < pes.header.spec_optional_header_len()) ==> {
                let m1 = final(self).spec_map();
                &&& m1.contains_key(pid)
                &&& m1[pid].packet.header == pes.header
                &&& m1[pid].packet.data@ == pes.data@
                &&& (if old(self).spec_ignore() || pes.pes_packet_len == 0 {
                    m1[pid].data_len is None
                } else {
                    m1[pid].data_len matches Some(l) && l as int == pes.pes_packet_len
                        - pes.header.spec_optional_header_len()
                })
                &&& m1 == old(self).spec_map().insert(pid, m1[pid])
                &&& (if old(self).spec_map().contains_key(pid) {
                    r == Ok::<Option<PesPacket>, ErrorKind>(
                        Some(old(self).spec_map()[pid].packet),
                    )
                } else {
                    r == Ok::<Option<PesPacket>, ErrorKind>(None)
                })
            },
    {
        let data_len: Option<usize> = if self.ignore_packet_header_length || pes.pes_packet_len
            == 0 {
            None
        } else {
            let optional_header_len = pes.header.optional_header_len();
            if pes.pes_packet_len < optional_header_len {
                return Err(ErrorKind::InvalidInput);
            }
            Some((pes.pes_packet_len - optional_header_len) as usize)
        };
        let mut data: Vec<u8> = Vec::new();
        data.extend_from_slice(pes.data.as_slice());
        proof {
            assert(data@ =~= pes.data@);
        }
        let partial = PartialPesPacket {
            packet: PesPacket { header: pes.header, data },
            data_len,
        };
        match self.pes_packets.insert(pid, partial) {
            Some(pred) => Ok(Some(pred.packet)),
            None => Ok(None),
        }
    }

    /// Appends continuation bytes to the partial packet in flight on this
    /// PID, emitting it when the declared length is reached exactly and
    /// dropping it when the bytes overrun that length.
    fn handle_raw_payload(&mut self, pid: u16, data: &Bytes) -> (r: Result<
        Option<PesPacket>,
        ErrorKind,
    >)
        requires
            old(self).wf(),
        ensures
            final(self).wf(),
            final(self).spec_ignore() == old(self).spec_ignore(),
            final(self).spec_eos() == old(self).spec_eos(),
            !old(self).spec_map().contains_key(pid) ==> r == Ok::<Option<PesPacket>, ErrorKind>(
                None,
            ) && final(self).spec_map() == old(self).spec_map(),
            old(self).spec_map().contains_key(pid) ==> {
                let part = old(self).spec_map()[pid];
                let grown = part.packet.data@ + data@;
                &&& (part.data_len matches Some(e) && e as int == grown.len() ==> (r matches Ok(
                    opt,
                ) && opt matches Some(p) && p.header == part.packet.header && p.data@ == grown
                    && final(self).spec_map() == old(self).spec_map().remove(pid)))
                &&& (part.data_len matches Some(e) && (e as int) < grown.len() ==> r == Ok::<
                    Option<PesPacket>,
                    ErrorKind,
                >(None) && final(self).spec_map() == old(self).spec_map().remove(pid))
                &&& ((part.data_len matches Some(e) && (e as int) > grown.len()) || part.data_len
                    is None ==> {
                    let m1 = final(self).spec_map();
                    &&& r == Ok::<Option<PesPacket>, ErrorKind>(None)
                    &&& m1.contains_key(pid)
                    &&& m1[pid].packet.header == part.packet.header
                    &&& m1[pid].packet.data@ == grown
                    &&& m1[pid].data_len == part.data_len
                    &&& m1 == old(self).spec_map().insert(pid, m1[pid])
                })
            },
    {
        let mut partial = match self.pes_packets.remove(pid) {
            Some(partial) => partial,
            None => {
                return Ok(None);
            },
        };
        let ghost before = partial.packet.data@;
        partial.packet.data.extend_from_slice(data.as_slice());
        proof {
            assert(partial.packet.data@ =~= before + data@);
        }
        let complete = match partial.data_len {
            Some(e) => partial.packet.data.len() == e,
            None => false,
        };
        if complete {
            return Ok(Some(partial.packet));
        }
        if let Some(expected) = partial.data_len {
            if partial.packet.data.len() > expected {
                return Ok(None);
            }
        }
        self.pes_packets.insert(pid, partial);
        Ok(None)
    }

    /// Processes a TS packet and returns a PES packet if one finished.
    ///
    /// A PES payload starts a new partial packet on its PID and hands
    /// back whatever that PID held; a raw payload extends the partial
    /// packet in flight there; other payloads change nothing.  After the
    /// end of the stream this drains like `flush`.
    pub fn process_ts_packet(&mut self, ts_packet: &TsPacket) -> (r: Result<
        Option<PesPacket>,
        ErrorKind,
    >)
        requires
            old(self).wf(),
        ensures
            final(self).wf(),
            final(self).spec_ignore() == old(self).spec_ignore(),
            final(self).spec_eos() == old(self).spec_eos(),
            old(self).spec_eos() ==> spec_drain_step(
                old(self).spec_map(),
                r,
                final(self).spec_map(),
            ),
            old(self).spec_eos() ==> spec_drain_view(
                old(self).spec_partials(),
                view_emission(r),
                final(self).spec_partials(),
            ),
            !old(self).spec_eos() ==> match spec_decode_step(
                old(self).spec_partials(),
                old(self).spec_ignore(),
                ts_packet@,
            ) {
                DecodeStep::Emit(v, m2) => view_emission(r) == Ok::<
                    Option<PesPacketView>,
                    ErrorKind,
                >(Some(v)) && final(self).spec_partials() == m2,
                DecodeStep::Quiet(m2) => r == Ok::<Option<PesPacket>, ErrorKind>(None) && final(self).spec_partials() == m2,
                DecodeStep::Fail(e) => r == Err::<Option<PesPacket>, ErrorKind>(e) && final(self).spec_partials() == old(self).spec_partials(),
            },
            !old(self).spec_eos() ==> {
                let pid = ts_packet.header.pid.0;
                match ts_packet.payload {
                    Some(TsPayload::Pes(ref pes)) => {
                        &&& (!old(self).spec_ignore() && pes.pes_packet_len > 0 && (
                        pes.pes_packet_len as int) < pes.header.spec_optional_header_len() ==> r
                            == Err::<Option<PesPacket>, ErrorKind>(ErrorKind::InvalidInput)
                            && final(self).spec_map() == old(self).spec_map())
                        &&& (!(!old(self).spec_ignore() && pes.pes_packet_len > 0 && (
                        pes.pes_packet_len as int) < pes.header.spec_optional_header_len()) ==> {
                            let m1 = final(self).spec_map();
                            &&& m1.contains_key(pid)
                            &&& m1[pid].packet.header == pes.header
                            &&& m1[pid].packet.data@ == pes.data@
                            &&& (if old(self).spec_ignore() || pes.pes_packet_len == 0 {
                                m1[pid].data_len is None
                            } else {
                                m1[pid].data_len matches Some(l) && l as int
                                    == pes.pes_packet_len
                                    - pes.header.spec_optional_header_len()
                            })
                            &&& m1 == old(self).spec_map().insert(pid, m1[pid])
                            &&& (if old(self).spec_map().contains_key(pid) {
                                r == Ok::<Option<PesPacket>, ErrorKind>(
                                    Some(old(self).spec_map()[pid].packet),
                                )
                            } else {
                                r == Ok::<Option<PesPacket>, ErrorKind>(None)
                            })
                        })
                    },
                    Some(TsPayload::Raw(ref b)) => {
                        &&& (!old(self).spec_map().contains_key(pid) ==> r == Ok::<
                            Option<PesPacket>,
                            ErrorKind,
                        >(None) && final(self).spec_map() == old(self).spec_map())
                        &&& (old(self).spec_map().contains_key(pid) ==> {
                            let part = old(self).spec_map()[pid];
                            let grown = part.packet.data@ + b@;
                            &&& (part.data_len matches Some(e) && e as int == grown.len() ==> (
                            r matches Ok(opt) && opt matches Some(p) && p.header
                                == part.packet.header && p.data@ == grown
                                && final(self).spec_map() == old(self).spec_map().remove(pid)))
                            &&& (part.data_len matches Some(e) && (e as int) < grown.len() ==> r
                                == Ok::<Option<PesPacket>, ErrorKind>(None)
                                && final(self).spec_map() == old(self).spec_map().remove(pid))
                            &&& ((part.data_len matches Some(e) && (e as int) > grown.len())
                                || part.data_len is None ==> {
                                let m1 = final(self).spec_map();
                                &&& r == Ok::<Option<PesPacket>, ErrorKind>(None)
                                &&& m1.contains_key(pid)
                                &&& m1[pid].packet.header == part.packet.header
                                &&& m1[pid].packet.data@ == grown
                                &&& m1[pid].data_len == part.data_len
                                &&& m1 == old(self).spec_map().insert(pid, m1[pid])
                            })
                        })
                    },
                    _ => r == Ok::<Option<PesPacket>, ErrorKind>(None) && final(self).spec_map()
                        == old(self).spec_map(),
                }
            },
    {
        if self.eos {
            let r = self.handle_eos();
            proof {
                lemma_drain_view(old(self).spec_map(), r, self.spec_map());
            }
            return r;
        }
        let ghost pm0 = self.spec_partials();
        let pid = self.packet_pid(ts_packet);
        let r = match &ts_packet.payload {
            Some(TsPayload::Pes(payload)) => self.handle_pes_payload(pid, payload),
            Some(TsPayload::Raw(payload)) => self.handle_raw_payload(pid, payload),
            _ => Ok(None),
        };
        proof {
            self.lemma_step_matches(*old(self), ts_packet@, pid, r);
        }
        r
    }

    /// The relational postcondition of one processing step implies the
    /// functional `spec_decode_step` description at the level of values.
    proof fn lemma_step_matches(
        &self,
        prev: Self,
        t: TsPacketView,
        pid: u16,
        r: Result<Option<PesPacket>, ErrorKind>,
    )
        requires
            pid == t.header.pid.0,
            !prev.spec_eos(),
            match t.payload {
                Some(TsPayloadView::Pes(pes)) => {
                    &&& (!prev.spec_ignore() && pes.pes_packet_len > 0 && (
                    pes.pes_packet_len as int) < pes.header.spec_optional_header_len() ==> r
                        == Err::<Option<PesPacket>, ErrorKind>(ErrorKind::InvalidInput)
                        && self.spec_map() == prev.spec_map())
                    &&& (!(!prev.spec_ignore() && pes.pes_packet_len > 0 && (
                    pes.pes_packet_len as int) < pes.header.spec_optional_header_len()) ==> {
                        let m1 = self.spec_map();
                        &&& m1.contains_key(pid)
                        &&& m1[pid].packet.header == pes.header
                        &&& m1[pid].packet.data@ == pes.data
                        &&& (if prev.spec_ignore() || pes.pes_packet_len == 0 {
                            m1[pid].data_len is None
                        } else {
                            m1[pid].data_len matches Some(l) && l as int == pes.pes_packet_len
                                - pes.header.spec_optional_header_len()
                        })
                        &&& m1 == prev.spec_map().insert(pid, m1[pid])
                        &&& (if prev.spec_map().contains_key(pid) {
                            r == Ok::<Option<PesPacket>, ErrorKind>(
                                Some(prev.spec_map()[pid].packet),
                            )
                        } else {
                            r == Ok::<Option<PesPacket>, ErrorKind>(None)
                        })
                    })
                },
                Some(TsPayloadView::Raw(b)) => {
                    &&& (!prev.spec_map().contains_key(pid) ==> r == Ok::<
                        Option<PesPacket>,
                        ErrorKind,
                    >(None) && self.spec_map() == prev.spec_map())
                    &&& (prev.spec_map().contains_key(pid) ==> {
                        let part = prev.spec_map()[pid];
                        let grown = part.packet.data@ + b;
                        &&& (part.data_len matches Some(e) && e as int == grown.len() ==> (
                        r matches Ok(opt) && opt matches Some(p) && p.header
                            == part.packet.header && p.data@ == grown && self.spec_map()
                            == prev.spec_map().remove(pid)))
                        &&& (part.data_len matches Some(e) && (e as int) < grown.len() ==> r
                            == Ok::<Option<PesPacket>, ErrorKind>(None) && self.spec_map()
                            == prev.spec_map().remove(pid))
                        &&& ((part.data_len matches Some(e) && (e as int) > grown.len())
                            || part.data_len is None ==> {
                            let m1 = self.spec_map();
                            &&& r == Ok::<Option<PesPacket>, ErrorKind>(None)
                            &&& m1.contains_key(pid)
                            &&& m1[pid].packet.header == part.packet.header
                            &&& m1[pid].packet.data@ == grown
                            &&& m1[pid].data_len == part.data_len
                            &&& m1 == prev.spec_map().insert(pid, m1[pid])
                        })
                    })
                },
                _ => r == Ok::<Option<PesPacket>, ErrorKind>(None) && self.spec_map()
                    == prev.spec_map(),
            },
        ensures
            match spec_decode_step(prev.spec_partials(), prev.spec_ignore(), t) {
                DecodeStep::Emit(v, m2) => view_emission(r) == Ok::<
                    Option<PesPacketView>,
                    ErrorKind,
                >(Some(v)) && self.spec_partials() == m2,
                DecodeStep::Quiet(m2) => r == Ok::<Option<PesPacket>, ErrorKind>(None)
                    && self.spec_partials() == m2,
                DecodeStep::Fail(e) => r == Err::<Option<PesPacket>, ErrorKind>(e)
                    && self.spec_partials() == prev.spec_partials(),
            },
    {
        let pm0 = prev.spec_partials();
        match t.payload {
            Some(TsPayloadView::Pes(pes)) => {
                if !prev.spec_ignore() && pes.pes_packet_len > 0 && (pes.pes_packet_len as int)
                    < pes.header.spec_optional_header_len() {
                    assert(self.spec_partials() =~= pm0);
                } else {
                    let m1 = self.spec_map();
                    lemma_partials_insert(prev.spec_map(), pid, m1[pid]);
                    let dl: Option<usize> = if prev.spec_ignore() || pes.pes_packet_len == 0 {
                        None
                    } else {
                        Some(
                            ((pes.pes_packet_len
                                - pes.header.spec_optional_header_len()) as usize),
                        )
                    };
                    assert(m1[pid]@ =~= PartialPesPacketView {
                        header: pes.header,
                        data: pes.data,
                        data_len: dl,
                    }) by {
                        if !(prev.spec_ignore() || pes.pes_packet_len == 0) {
                            let l = m1[pid].data_len->Some_0;
                            assert(l as int == (((pes.pes_packet_len
                                - pes.header.spec_optional_header_len()) as usize)) as int);
                        }
                    }
                    assert(self.spec_partials() =~= pm0.insert(pid, m1[pid]@));
                    if prev.spec_map().contains_key(pid) {
                        assert(pm0.contains_key(pid));
                        assert(prev.spec_map()[pid].packet@ =~= PesPacketView {
                            header: pm0[pid].header,
                            data: pm0[pid].data,
                        });
                    } else {
                        assert(!pm0.contains_key(pid));
                    }
                }
            },
            Some(TsPayloadView::Raw(b)) => {
                if !prev.spec_map().contains_key(pid) {
                    assert(!pm0.contains_key(pid));
                    assert(self.spec_partials() =~= pm0);
                } else {
                    assert(pm0.contains_key(pid) && pm0[pid] == prev.spec_map()[pid]@);
                    let part = prev.spec_map()[pid];
                    let grown = part.packet.data@ + b;
                    assert(pm0[pid].data + b == grown);
                    match part.data_len {
                        Some(e) => {
                            if e as int == grown.len() {
                                lemma_partials_remove(prev.spec_map(), pid);
                                let p = (r->Ok_0)->Some_0;
                                assert(p@ =~= PesPacketView {
                                    header: pm0[pid].header,
                                    data: grown,
                                });
                            } else if (e as int) < grown.len() {
                                lemma_partials_remove(prev.spec_map(), pid);
                            } else {
                                let m1 = self.spec_map();
                                lemma_partials_insert(prev.spec_map(), pid, m1[pid]);
                                assert(m1[pid]@ =~= PartialPesPacketView {
                                    header: pm0[pid].header,
                                    data: grown,
                                    data_len: pm0[pid].data_len,
                                });
                                assert(self.spec_partials() =~= pm0.insert(pid, m1[pid]@));
                            }
                        },
                        None => {
                            let m1 = self.spec_map();
                            lemma_partials_insert(prev.spec_map(), pid, m1[pid]);
                            assert(m1[pid]@ =~= PartialPesPacketView {
                                header: pm0[pid].header,
                                data: grown,
                                data_len: pm0[pid].data_len,
                            });
                            assert(self.spec_partials() =~= pm0.insert(pid, m1[pid]@));
                        },
                    }
                }
            },
            _ => {
                assert(self.spec_partials() =~= pm0);
            },
        }
    }

    /// Reads the PID a packet travels on.
    fn packet_pid(&self, ts_packet: &TsPacket) -> (r: u16)
        ensures
            r == ts_packet.header.pid.0,
    {
        ts_packet.header.pid.as_u16()
    }

    /// Flushes the decoder: marks the end of the stream and hands back
    /// one in-flight partial packet per call until none is left.  A
    /// partial packet whose declared length was never reached surfaces as
    /// an `InvalidInput` error.
    pub fn flush(&mut self) -> (r: Result<Option<PesPacket>, ErrorKind>)
        requires
            old(self).wf(),
        ensures
            final(self).wf(),
            final(self).spec_ignore() == old(self).spec_ignore(),
            final(self).spec_eos(),
            spec_drain_step(old(self).spec_map(), r, final(self).spec_map()),
            spec_drain_view(
                old(self).spec_partials(),
                view_emission(r),
                final(self).spec_partials(),
            ),
    {
        if !self.eos {
            self.eos = true;
        }
        let r = self.handle_eos();
        proof {
            lemma_drain_view(old(self).spec_map(), r, self.spec_map());
        }
        r
    }
}

} // verus!
