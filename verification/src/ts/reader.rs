//! Reading TS packets out of a byte stream.

use vstd::prelude::*;

use crate::error::ErrorKind;
use crate::pid_map::PidMap;
use crate::ts::codec::{copy_range, parse_packet, spec_parse_packet};
use crate::ts::packet::{TsPacket, TsPacketView, TsPayload, TsPayloadView, PACKET_SIZE};
use crate::ts::payload::{Pat, Pmt, ProgramAssociation};
use crate::ts::payload::EsInfoView;
use crate::ts::types::PidKind;

verus! {

/// The PID kind table after one PAT: each announced program map PID is
/// marked as carrying a PMT, except where it is already known to carry an
/// elementary stream — a classification that is never taken back.
pub open spec fn pat_updates(
    m: Map<u16, PidKind>,
    entries: Seq<ProgramAssociation>,
) -> Map<u16, PidKind>
    decreases entries.len(),
{
    if entries.len() == 0 {
        m
    } else {
        let prev = pat_updates(m, entries.drop_last());
        let pid = entries.last().program_map_pid.0;
        if prev.contains_key(pid) && prev[pid] == PidKind::Pes {
            prev
        } else {
            prev.insert(pid, PidKind::Pmt)
        }
    }
}

/// The PID kind table after one PMT: each announced elementary PID is
/// marked as carrying an elementary stream.
pub open spec fn pmt_updates(m: Map<u16, PidKind>, table: Seq<EsInfoView>) -> Map<u16, PidKind>
    decreases table.len(),
{
    if table.len() == 0 {
        m
    } else {
        pmt_updates(m, table.drop_last()).insert(table.last().elementary_pid.0, PidKind::Pes)
    }
}

/// The PID kind table after one packet: program tables extend it, other
/// payloads leave it alone.
pub open spec fn spec_table_update(
    m: Map<u16, PidKind>,
    payload: Option<TsPayloadView>,
) -> Map<u16, PidKind> {
    match payload {
        Some(TsPayloadView::Pat(t)) => pat_updates(m, t.table),
        Some(TsPayloadView::Pmt(t)) => pmt_updates(m, t.table),
        _ => m,
    }
}

/// One observable read: starting at `pos`, successive 188-byte windows
/// are tried until one parses; windows that fail to parse are skipped.
/// Yields the packet read (`None` at the end of the stream), the
/// position after it, and the PID kind table after it.
pub open spec fn spec_scan(s: Seq<u8>, pos: int, m: Map<u16, PidKind>) -> (
    Option<TsPacketView>,
    int,
    Map<u16, PidKind>,
)
    decreases s.len() - pos,
{
    if pos >= s.len() {
        (None, pos, m)
    } else if s.len() - pos < PACKET_SIZE {
        (None, s.len() as int, m)
    } else {
        let win = s.subrange(pos, pos + PACKET_SIZE);
        match spec_parse_packet(win, m) {
            Some(t) => (Some(t), pos + PACKET_SIZE, spec_table_update(m, t.payload)),
            None => spec_scan(s, pos + PACKET_SIZE, m),
        }
    }
}

/// A PID once classified as carrying an elementary stream keeps that
/// classification through any sequence of table updates.
pub proof fn lemma_pat_updates_monotonic(
    m: Map<u16, PidKind>,
    entries: Seq<ProgramAssociation>,
    pid: u16,
)
    requires
        m.contains_key(pid) && m[pid] == PidKind::Pes,
    ensures
        pat_updates(m, entries).contains_key(pid) && pat_updates(m, entries)[pid] == PidKind::Pes,
    decreases entries.len(),
{
    if entries.len() > 0 {
        lemma_pat_updates_monotonic(m, entries.drop_last(), pid);
    }
}

/// Marking elementary PIDs never unmarks one.
pub proof fn lemma_pmt_updates_monotonic(m: Map<u16, PidKind>, table: Seq<EsInfoView>, pid: u16)
    requires
        m.contains_key(pid) && m[pid] == PidKind::Pes,
    ensures
        pmt_updates(m, table).contains_key(pid) && pmt_updates(m, table)[pid] == PidKind::Pes,
    decreases table.len(),
{
    if table.len() > 0 {
        lemma_pmt_updates_monotonic(m, table.drop_last(), pid);
    }
}

/// PID classification monotonicity: once the table maps a PID to an
/// elementary stream, no later packet remaps it, however many packets
/// one read skips over.
pub proof fn lemma_scan_pid_monotonic(s: Seq<u8>, pos: int, m: Map<u16, PidKind>, pid: u16)
    requires
        m.contains_key(pid) && m[pid] == PidKind::Pes,
    ensures
        spec_scan(s, pos, m).2.contains_key(pid) && spec_scan(s, pos, m).2[pid] == PidKind::Pes,
    decreases s.len() - pos,
{
    if pos >= s.len() || s.len() - pos < PACKET_SIZE {
    } else {
        let win = s.subrange(pos, pos + PACKET_SIZE);
        match spec_parse_packet(win, m) {
            Some(t) => {
                match t.payload {
                    Some(TsPayloadView::Pat(t2)) => {
                        lemma_pat_updates_monotonic(m, t2.table, pid);
                    },
                    Some(TsPayloadView::Pmt(t2)) => {
                        lemma_pmt_updates_monotonic(m, t2.table, pid);
                    },
                    _ => {},
                }
            },
            None => {
                lemma_scan_pid_monotonic(s, pos + PACKET_SIZE, m, pid);
            },
        }
    }
}

/// A stream is valid from `pos` under table `m` when what remains is a
/// whole number of 188-byte packets, each of which parses under the
/// table as it evolves.
pub open spec fn spec_valid_from(s: Seq<u8>, pos: int, m: Map<u16, PidKind>) -> bool
    decreases s.len() - pos,
{
    if pos == s.len() {
        true
    } else if pos > s.len() || s.len() - pos < PACKET_SIZE {
        false
    } else {
        match spec_parse_packet(s.subrange(pos, pos + PACKET_SIZE), m) {
            None => false,
            Some(t) => spec_valid_from(s, pos + PACKET_SIZE, spec_table_update(m, t.payload)),
        }
    }
}

/// The packets a sequence of reads yields: for each of `k` successive
/// reads, whether it yields a packet.
pub open spec fn spec_read_outcomes(s: Seq<u8>, pos: int, m: Map<u16, PidKind>, k: nat) -> Seq<
    bool,
>
    decreases k,
{
    if k == 0 {
        Seq::empty()
    } else {
        let (r, pos2, m2) = spec_scan(s, pos, m);
        seq![r is Some] + spec_read_outcomes(s, pos2, m2, (k - 1) as nat)
    }
}

/// On a valid stream holding `k` whole packets, `k + 1` reads yield `k`
/// packets and then the end of the stream.
pub proof fn lemma_valid_stream_reads(s: Seq<u8>, pos: int, m: Map<u16, PidKind>, k: nat)
    requires
        0 <= pos <= s.len(),
        spec_valid_from(s, pos, m),
        s.len() - pos == 188 * k,
    ensures
        spec_read_outcomes(s, pos, m, k + 1).len() == k + 1,
        forall|i: int| 0 <= i < k ==> #[trigger] spec_read_outcomes(s, pos, m, k + 1)[i],
        !spec_read_outcomes(s, pos, m, k + 1)[k as int],
    decreases k,
{
    let (r, pos2, m2) = spec_scan(s, pos, m);
    let outcomes = spec_read_outcomes(s, pos, m, k + 1);
    if k == 0 {
        assert(pos == s.len());
        assert(r is None);
        assert(outcomes =~= seq![false] + spec_read_outcomes(s, pos2, m2, 0));
    } else {
        assert(pos < s.len());
        assert(r is Some && pos2 == pos + 188 && m2 == spec_table_update(
            m,
            (spec_scan(s, pos, m).0)->Some_0.payload,
        ));
        assert(spec_valid_from(s, pos2, m2));
        lemma_valid_stream_reads(s, pos2, m2, (k - 1) as nat);
        let rest = spec_read_outcomes(s, pos2, m2, k as nat);
        assert(outcomes == seq![true] + rest);
        assert(forall|i: int| 0 <= i < k - 1 ==> #[trigger] rest[i]);
        assert(!rest[k - 1]);
        assert(forall|i: int| 1 <= i < k ==> #[trigger] outcomes[i] == rest[i - 1]);
        assert(forall|i: int| 0 <= i < k ==> #[trigger] outcomes[i]);
    }
}

/// TS packet reader: pulls 188-byte packets out of an owned byte stream,
/// learns PID kinds from the program tables it passes, and skips windows
/// that do not parse.
#[derive(Debug)]
pub struct TsPacketReader {
    stream: Vec<u8>,
    pos: usize,
    peeked_packet: Option<TsPacket>,
    pids: PidMap<PidKind>,
}

impl TsPacketReader {
    /// The bytes the reader was built over.
    pub closed spec fn spec_stream(&self) -> Seq<u8> {
        self.stream@
    }

    /// The position of the next unread byte.
    pub closed spec fn spec_pos(&self) -> int {
        self.pos as int
    }

    /// The PID kind table learned so far.
    pub closed spec fn spec_pids(&self) -> Map<u16, PidKind> {
        self.pids@
    }

    /// The packet held in the peek slot.
    pub closed spec fn spec_peek(&self) -> Option<TsPacket> {
        self.peeked_packet
    }

    /// How much could still be read: the unread bytes, plus one for a
    /// packet waiting in the peek slot.
    pub open spec fn spec_remaining(&self) -> int {
        self.spec_stream().len() - self.spec_pos() + (if self.spec_peek() is Some {
            1int
        } else {
            0int
        })
    }

    /// The position never passes the end and the table holds each PID
    /// once.
    pub closed spec fn wf(&self) -> bool {
        self.pids.wf() && self.pos <= self.stream@.len()
    }

    /// A well-formed reader's position stays inside its stream.
    pub proof fn lemma_wf_bounds(&self)
        requires
            self.wf(),
        ensures
            0 <= self.spec_pos() <= self.spec_stream().len(),
    {
    }

    /// Makes a new `TsPacketReader` instance over an owned byte stream.
    pub fn new(stream: Vec<u8>) -> (r: Self)
        ensures
            r.wf(),
            r.spec_stream() == stream@,
            r.spec_pos() == 0,
            r.spec_pids() == Map::<u16, PidKind>::empty(),
            r.spec_peek() is None,
    {
        TsPacketReader { stream, pos: 0, peeked_packet: None, pids: PidMap::new() }
    }

    /// Returns a reference to the underlying byte stream.
    pub fn stream(&self) -> (r: &Vec<u8>)
        ensures
            r@ == self.spec_stream(),
    {
        &self.stream
    }

    /// Converts the reader into the underlying byte stream.
    pub fn into_stream(self) -> (r: Vec<u8>)
        ensures
            r@ == self.spec_stream(),
    {
        self.stream
    }

    /// Applies a PAT to the PID kind table.
    fn apply_pat(&mut self, pat: &Pat)
        requires
            old(self).wf(),
        ensures
            final(self).wf(),
            final(self).spec_pids() == pat_updates(old(self).spec_pids(), pat@.table),
            final(self).spec_stream() == old(self).spec_stream(),
            final(self).spec_pos() == old(self).spec_pos(),
            final(self).spec_peek() == old(self).spec_peek(),
    {
        let n = pat.table.len();
        let mut i: usize = 0;
        while i < n
            invariant
                n == pat.table@.len(),
                i <= n,
                self.pids.wf(),
                self.pos == old(self).pos,
                self.stream == old(self).stream,
                self.peeked_packet == old(self).peeked_packet,
                self.pids@ == pat_updates(old(self).pids@, pat@.table.subrange(0, i as int)),
            decreases n - i,
        {
            let pid = pat.table[i].program_map_pid.as_u16();
            let already_pes = match self.pids.get(pid) {
                Some(PidKind::Pes) => true,
                _ => false,
            };
            if !already_pes {
                self.pids.insert(pid, PidKind::Pmt);
            }
            i += 1;
            proof {
                assert(pat@.table.subrange(0, i as int).drop_last() =~= pat@.table.subrange(
                    0,
                    i - 1,
                ));
            }
        }
        proof {
            assert(pat@.table.subrange(0, n as int) =~= pat@.table);
        }
    }

    /// Applies a PMT to the PID kind table.
    fn apply_pmt(&mut self, pmt: &Pmt)
        requires
            old(self).wf(),
        ensures
            final(self).wf(),
            final(self).spec_pids() == pmt_updates(old(self).spec_pids(), pmt@.table),
            final(self).spec_stream() == old(self).spec_stream(),
            final(self).spec_pos() == old(self).spec_pos(),
            final(self).spec_peek() == old(self).spec_peek(),
    {
        let n = pmt.table.len();
        let mut i: usize = 0;
        while i < n
            invariant
                n == pmt.table@.len(),
                i <= n,
                self.pids.wf(),
                self.pos == old(self).pos,
                self.stream == old(self).stream,
                self.peeked_packet == old(self).peeked_packet,
                self.pids@ == pmt_updates(
                    old(self).pids@,
                    pmt@.table.subrange(0, i as int),
                ),
            decreases n - i,
        {
            let pid = pmt.table[i].elementary_pid.as_u16();
            self.pids.insert(pid, PidKind::Pes);
            i += 1;
            proof {
                assert(pmt@.table.subrange(0, i as int).drop_last() =~= pmt@.table.subrange(
                    0,
                    i - 1,
                ));
                assert(pmt@.table.subrange(0, i as int).last() == pmt@.table[i - 1]);
            }
        }
        proof {
            assert(pmt@.table.subrange(0, n as int) =~= pmt@.table);
        }
    }

    /// Reads the next packet from the stream, skipping windows that do
    /// not parse, and applies any program table it carries.
    fn read_one(&mut self) -> (r: Option<TsPacket>)
        requires
            old(self).wf(),
        ensures
            final(self).wf(),
            final(self).spec_stream() == old(self).spec_stream(),
            final(self).spec_peek() == old(self).spec_peek(),
            match r {
                Some(t) => spec_scan(
                    old(self).spec_stream(),
                    old(self).spec_pos(),
                    old(self).spec_pids(),
                ).0 == Some(t@),
                None => spec_scan(
                    old(self).spec_stream(),
                    old(self).spec_pos(),
                    old(self).spec_pids(),
                ).0 is None,
            },
            final(self).spec_pos() == spec_scan(
                old(self).spec_stream(),
                old(self).spec_pos(),
                old(self).spec_pids(),
            ).1,
            final(self).spec_pids() == spec_scan(
                old(self).spec_stream(),
                old(self).spec_pos(),
                old(self).spec_pids(),
            ).2,
    {
        let n = self.stream.len();
        loop
            invariant
                self.wf(),
                n == self.stream@.len(),
                self.stream == old(self).stream,
                self.peeked_packet == old(self).peeked_packet,
                spec_scan(old(self).spec_stream(), old(self).spec_pos(), old(self).spec_pids())
                    == spec_scan(self.stream@, self.pos as int, self.pids@),
            decreases n - self.pos,
        {
            if self.pos == n {
                return None;
            }
            if n - self.pos < PACKET_SIZE {
                self.pos = n;
                return None;
            }
            let win = copy_range(&self.stream, self.pos, self.pos + PACKET_SIZE);
            let ghost m0 = self.pids@;
            let ghost p0 = self.pos as int;
            match parse_packet(&win, &self.pids) {
                Err(_) => {
                    self.pos = self.pos + PACKET_SIZE;
                },
                Ok(t) => {
                    self.pos = self.pos + PACKET_SIZE;
                    match &t.payload {
                        Some(TsPayload::Pat(pat)) => {
                            self.apply_pat(pat);
                        },
                        Some(TsPayload::Pmt(pmt)) => {
                            self.apply_pmt(pmt);
                        },
                        _ => {},
                    }
                    proof {
                        assert(self.pids@ == spec_table_update(m0, t@.payload));
                        assert(spec_scan(self.stream@, p0, m0) == (
                            Some(t@),
                            p0 + PACKET_SIZE,
                            self.pids@,
                        ));
                    }
                    return Some(t);
                },
            }
        }
    }

    /// Reads a TS packet, taking the peeked packet first if one is held.
    ///
    /// Returns `Ok(None)` at the end of the stream.  Malformed windows
    /// are skipped, never surfaced: the result is always `Ok`.
    pub fn read_ts_packet(&mut self) -> (r: Result<Option<TsPacket>, ErrorKind>)
        requires
            old(self).wf(),
        ensures
            final(self).wf(),
            r matches Ok(_),
            final(self).spec_stream() == old(self).spec_stream(),
            final(self).spec_peek() is None,
            old(self).spec_peek() matches Some(t) ==> r == Ok::<Option<TsPacket>, ErrorKind>(
                Some(t),
            ) && final(self).spec_pos() == old(self).spec_pos() && final(self).spec_pids()
                == old(self).spec_pids(),
            old(self).spec_peek() is None ==> {
                let scan = spec_scan(
                    old(self).spec_stream(),
                    old(self).spec_pos(),
                    old(self).spec_pids(),
                );
                &&& (match r {
                    Ok(Some(t)) => scan.0 == Some(t@),
                    Ok(None) => scan.0 is None,
                    Err(_) => false,
                })
                &&& final(self).spec_pos() == scan.1
                &&& final(self).spec_pids() == scan.2
            },
    {
        if let Some(packet) = self.peeked_packet.take() {
            return Ok(Some(packet));
        }
        Ok(self.read_one())
    }

    /// Peeks at the next packet without taking it off the stream.
    ///
    /// Returns `None` only at the end of the stream.
    pub fn peek_ts_packet(&mut self) -> (r: Option<&TsPacket>)
        requires
            old(self).wf(),
        ensures
            final(self).wf(),
            final(self).spec_stream() == old(self).spec_stream(),
            match r {
                Some(t) => final(self).spec_peek() == Some(*t),
                None => final(self).spec_peek() is None,
            },
            old(self).spec_peek() matches Some(t) ==> final(self).spec_peek() == Some(t)
                && final(self).spec_pos() == old(self).spec_pos() && final(self).spec_pids()
                == old(self).spec_pids(),
            old(self).spec_peek() is None ==> {
                let scan = spec_scan(
                    old(self).spec_stream(),
                    old(self).spec_pos(),
                    old(self).spec_pids(),
                );
                &&& (match final(self).spec_peek() {
                    Some(t) => scan.0 == Some(t@),
                    None => scan.0 is None,
                })
                &&& final(self).spec_pos() == scan.1
                &&& final(self).spec_pids() == scan.2
            },
    {
        if self.peeked_packet.is_none() {
            let next_packet = self.read_one();
            self.peeked_packet = next_packet;
        }
        self.peeked_packet.as_ref()
    }
}

} // verus!
