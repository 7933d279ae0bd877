//! Whole-stream behaviour: writing, reading back, skipping corrupt
//! packets, and the mark/reset bookmark.

use mpeg2ts::es::StreamId;
use mpeg2ts::pes::{PesHeader, PesPacketReader};
use mpeg2ts::ts::payload::{Bytes, EsInfo, Null, Pat, Pes, Pmt, ProgramAssociation};
use mpeg2ts::ts::{
    AdaptationField, ClockReference, ContinuityCounter, Pid, TransportScramblingControl, TsHeader,
    TsPacket, TsPacketReader, TsPacketWriter, TsPayload,
};

fn header(pid: u16) -> TsHeader {
    TsHeader {
        transport_error_indicator: false,
        transport_priority: false,
        pid: Pid::new(pid).unwrap(),
        transport_scrambling_control: TransportScramblingControl::NotScrambled,
        continuity_counter: ContinuityCounter::new(),
    }
}

fn null_packet() -> TsPacket {
    TsPacket {
        header: header(0x1FFF),
        adaptation_field: None,
        payload: Some(TsPayload::Null(Null)),
    }
}

fn pat_packet(program_map_pid: u16) -> TsPacket {
    TsPacket {
        header: header(0x0000),
        adaptation_field: None,
        payload: Some(TsPayload::Pat(Pat {
            table: vec![ProgramAssociation {
                program_num: 1,
                program_map_pid: Pid::new(program_map_pid).unwrap(),
            }],
        })),
    }
}

fn pmt_packet(pmt_pid: u16, es_pid: u16) -> TsPacket {
    TsPacket {
        header: header(pmt_pid),
        adaptation_field: None,
        payload: Some(TsPayload::Pmt(Pmt {
            program_num: 1,
            pcr_pid: Pid::new(es_pid).unwrap(),
            program_info: Vec::new(),
            table: vec![EsInfo {
                stream_type: 0x1B,
                elementary_pid: Pid::new(es_pid).unwrap(),
                es_info: Vec::new(),
            }],
        })),
    }
}

/// A padding-stream PES header carries no optional header bytes, so the
/// fragment takes 6 + data bytes of payload.
fn padding_pes_header() -> PesHeader {
    PesHeader {
        stream_id: StreamId::new(0xBE),
        priority: false,
        data_alignment_indicator: false,
        copyright: false,
        original_or_copy: false,
        pts: None,
        dts: None,
        escr: None,
    }
}

/// An unbounded PES fragment that exactly fills one TS packet: 178 body
/// bytes behind the 6-byte PES prefix.
fn pes_packet_filling(es_pid: u16, fill: u8) -> TsPacket {
    TsPacket {
        header: header(es_pid),
        adaptation_field: None,
        payload: Some(TsPayload::Pes(Pes {
            header: padding_pes_header(),
            pes_packet_len: 0,
            data: Bytes::new(&[fill; 178]).unwrap(),
        })),
    }
}

#[test]
fn empty_input_reads_none() {
    let mut ts_reader = TsPacketReader::new(Vec::new());
    assert_eq!(ts_reader.read_ts_packet().unwrap(), None);
    let mut pes_reader = PesPacketReader::new(TsPacketReader::new(Vec::new()));
    assert!(pes_reader.read_pes_packet().unwrap().is_none());
    assert!(pes_reader.read_pes_packet().unwrap().is_none());
}

#[test]
fn single_null_packet_parses() {
    let mut bytes = vec![0x47, 0x1F, 0xFF, 0x10];
    bytes.extend_from_slice(&[0xFF; 184]);
    let mut reader = TsPacketReader::new(bytes);
    let packet = reader.read_ts_packet().unwrap().unwrap();
    assert_eq!(packet.header.pid.as_u16(), 0x1FFF);
    assert!(matches!(packet.payload, Some(TsPayload::Null(_))));
    assert!(packet.adaptation_field.is_none());
    assert_eq!(reader.read_ts_packet().unwrap(), None);
}

#[test]
fn valid_stream_yields_one_packet_per_window() {
    let mut writer = TsPacketWriter::new();
    writer.write_ts_packet(&null_packet());
    writer.write_ts_packet(&null_packet());
    writer.write_ts_packet(&null_packet());
    let bytes = writer.into_sink();
    assert_eq!(bytes.len(), 3 * 188);
    let mut reader = TsPacketReader::new(bytes);
    assert!(reader.read_ts_packet().unwrap().is_some());
    assert!(reader.read_ts_packet().unwrap().is_some());
    assert!(reader.read_ts_packet().unwrap().is_some());
    assert_eq!(reader.read_ts_packet().unwrap(), None);
}

#[test]
fn corrupt_packet_is_skipped() {
    let mut writer = TsPacketWriter::new();
    writer.write_ts_packet(&null_packet());
    let mut bytes = writer.into_sink();
    bytes.extend_from_slice(&[0x00; 188]);
    let mut writer2 = TsPacketWriter::new();
    writer2.write_ts_packet(&null_packet());
    bytes.extend_from_slice(writer2.sink());
    let mut reader = TsPacketReader::new(bytes);
    assert!(reader.read_ts_packet().unwrap().is_some());
    assert!(reader.read_ts_packet().unwrap().is_some());
    assert_eq!(reader.read_ts_packet().unwrap(), None);
}

#[test]
fn peek_hands_out_the_same_packet() {
    let mut writer = TsPacketWriter::new();
    writer.write_ts_packet(&null_packet());
    let mut reader = TsPacketReader::new(writer.into_sink());
    let peeked = reader.peek_ts_packet().unwrap().clone();
    let read = reader.read_ts_packet().unwrap().unwrap();
    assert_eq!(peeked, read);
    assert_eq!(reader.read_ts_packet().unwrap(), None);
}

#[test]
fn discovery_chain_reassembles_one_pes() {
    // PAT announces a PMT on 0x1000, the PMT announces an elementary
    // stream on 0x0100, and an unbounded PES body arrives there.
    let mut writer = TsPacketWriter::new();
    writer.write_ts_packet(&pat_packet(0x1000));
    writer.write_ts_packet(&pmt_packet(0x1000, 0x0100));
    let pes = TsPacket {
        header: header(0x0100),
        adaptation_field: Some(AdaptationField {
            discontinuity_indicator: false,
            random_access_indicator: false,
            es_priority_indicator: false,
            pcr: None,
            opcr: None,
            splice_countdown: None,
            transport_private_data: Vec::new(),
            extension: None,
        }),
        payload: Some(TsPayload::Pes(Pes {
            header: padding_pes_header(),
            pes_packet_len: 0,
            data: Bytes::new(&[0x5A; 176]).unwrap(),
        })),
    };
    writer.write_ts_packet(&pes);
    let mut reader = PesPacketReader::new(TsPacketReader::new(writer.into_sink()));
    let packet = reader.read_pes_packet().unwrap().unwrap();
    assert_eq!(packet.data.len(), 176);
    assert_eq!(packet.data, vec![0x5A; 176]);
    assert!(reader.read_pes_packet().unwrap().is_none());
}

fn three_pes_stream() -> PesPacketReader {
    let mut writer = TsPacketWriter::new();
    writer.write_ts_packet(&pat_packet(0x1000));
    writer.write_ts_packet(&pmt_packet(0x1000, 0x0100));
    writer.write_ts_packet(&pes_packet_filling(0x0100, 1));
    writer.write_ts_packet(&pes_packet_filling(0x0100, 2));
    writer.write_ts_packet(&pes_packet_filling(0x0100, 3));
    PesPacketReader::new(TsPacketReader::new(writer.into_sink()))
}

#[test]
fn mark_and_reset_replay_reads_in_order() {
    let mut reader = three_pes_stream();
    reader.mark().unwrap();
    let a = reader.read_pes_packet().unwrap().unwrap();
    let b = reader.read_pes_packet().unwrap().unwrap();
    assert_eq!(a.data, vec![1; 178]);
    assert_eq!(b.data, vec![2; 178]);
    assert!(reader.has_back_buffer());
    reader.reset().unwrap();
    let a2 = reader.read_pes_packet().unwrap().unwrap();
    let b2 = reader.read_pes_packet().unwrap().unwrap();
    let c = reader.read_pes_packet().unwrap().unwrap();
    assert_eq!(a2, a);
    assert_eq!(b2, b);
    assert_eq!(c.data, vec![3; 178]);
    assert!(reader.read_pes_packet().unwrap().is_none());
}

#[test]
fn double_mark_and_bare_reset_fail() {
    let mut reader = three_pes_stream();
    assert_eq!(reader.reset(), Err(mpeg2ts::error::ErrorKind::Other));
    reader.mark().unwrap();
    assert_eq!(reader.mark(), Err(mpeg2ts::error::ErrorKind::Other));
    reader.reset().unwrap();
    assert_eq!(reader.reset(), Err(mpeg2ts::error::ErrorKind::Other));
}

#[test]
fn pes_peek_matches_next_read() {
    let mut reader = three_pes_stream();
    let peeked = reader.peek_pes_packet().unwrap().clone();
    let read = reader.read_pes_packet().unwrap().unwrap();
    assert_eq!(peeked, read);
}

#[test]
fn adaptation_field_round_trips_bit_exactly() {
    // A raw payload on a reserved PID beside a full adaptation field:
    // 4 + 16 + 168 = 188 bytes.
    let packet = TsPacket {
        header: TsHeader {
            transport_error_indicator: true,
            transport_priority: true,
            pid: Pid::new(0x10).unwrap(),
            transport_scrambling_control: TransportScramblingControl::OddKey,
            continuity_counter: ContinuityCounter::from_u8(7).unwrap(),
        },
        adaptation_field: Some(AdaptationField {
            discontinuity_indicator: true,
            random_access_indicator: false,
            es_priority_indicator: true,
            pcr: Some(ClockReference::new(0x1_2345_6789, 0x1AB).unwrap()),
            opcr: None,
            splice_countdown: Some(5),
            transport_private_data: vec![9, 8, 7],
            extension: Some(vec![6, 5]),
        }),
        payload: Some(TsPayload::Raw(Bytes::new(&[0x33; 168]).unwrap())),
    };
    let mut writer = TsPacketWriter::new();
    writer.write_ts_packet(&packet);
    let mut reader = TsPacketReader::new(writer.into_sink());
    let read = reader.read_ts_packet().unwrap().unwrap();
    assert_eq!(read, packet);
}

#[test]
fn pes_with_timestamps_round_trips_bit_exactly() {
    // 6-byte prefix + 19-byte optional header + 159 body bytes = 184.
    let pes_header = PesHeader {
        stream_id: StreamId::new(0xE0),
        priority: true,
        data_alignment_indicator: true,
        copyright: false,
        original_or_copy: true,
        pts: Some(0x1_5432_10FF),
        dts: Some(0x0_1234_5678),
        escr: Some(ClockReference::new(0x1_0F0F_0F0F, 0x155).unwrap()),
    };
    let packet = TsPacket {
        header: header(0x0100),
        adaptation_field: None,
        payload: Some(TsPayload::Pes(Pes {
            header: pes_header,
            pes_packet_len: 500,
            data: Bytes::new(&[0x44; 159]).unwrap(),
        })),
    };
    let mut writer = TsPacketWriter::new();
    writer.write_ts_packet(&pat_packet(0x1000));
    writer.write_ts_packet(&pmt_packet(0x1000, 0x0100));
    writer.write_ts_packet(&packet);
    let mut reader = TsPacketReader::new(writer.into_sink());
    let pat = reader.read_ts_packet().unwrap().unwrap();
    assert_eq!(pat, pat_packet(0x1000));
    let pmt = reader.read_ts_packet().unwrap().unwrap();
    assert_eq!(pmt, pmt_packet(0x1000, 0x0100));
    let read = reader.read_ts_packet().unwrap().unwrap();
    assert_eq!(read, packet);
    assert_eq!(reader.read_ts_packet().unwrap(), None);
}

#[test]
fn unknown_pid_payload_is_discarded_as_null() {
    let mut writer = TsPacketWriter::new();
    writer.write_ts_packet(&TsPacket {
        header: header(0x0200),
        adaptation_field: None,
        payload: Some(TsPayload::Null(Null)),
    });
    let mut reader = TsPacketReader::new(writer.into_sink());
    let packet = reader.read_ts_packet().unwrap().unwrap();
    assert!(matches!(packet.payload, Some(TsPayload::Null(_))));
}

#[test]
fn pes_classification_survives_a_later_pat() {
    // A PMT marks 0x0100 as an elementary stream; a later PAT that lists
    // 0x0100 as a program map PID does not reclassify it, so a PES
    // fragment there still parses as PES.
    let mut writer = TsPacketWriter::new();
    writer.write_ts_packet(&pat_packet(0x1000));
    writer.write_ts_packet(&pmt_packet(0x1000, 0x0100));
    writer.write_ts_packet(&pat_packet(0x0100));
    writer.write_ts_packet(&pes_packet_filling(0x0100, 4));
    let mut reader = TsPacketReader::new(writer.into_sink());
    for _ in 0..3 {
        assert!(reader.read_ts_packet().unwrap().is_some());
    }
    let packet = reader.read_ts_packet().unwrap().unwrap();
    assert!(matches!(packet.payload, Some(TsPayload::Pes(_))));
    assert_eq!(reader.read_ts_packet().unwrap(), None);
}

#[test]
fn null_packet_serializes_to_known_bytes() {
    let mut writer = TsPacketWriter::new();
    writer.write_ts_packet(&null_packet());
    let bytes = writer.into_sink();
    assert_eq!(bytes.len(), 188);
    assert_eq!(&bytes[..4], &[0x47, 0x1F, 0xFF, 0x10]);
    assert!(bytes[4..].iter().all(|&b| b == 0xFF));
}

#[test]
fn pat_packet_serializes_to_known_bytes() {
    let mut writer = TsPacketWriter::new();
    writer.write_ts_packet(&pat_packet(0x1000));
    let bytes = writer.into_sink();
    // Header: sync, payload unit start on PID zero, payload-only control.
    assert_eq!(&bytes[..4], &[0x47, 0x40, 0x00, 0x10]);
    // Section: table id 0, section length 13, fixed bytes, one entry
    // (program 1 on PID 0x1000), zeroed CRC, then stuffing.
    assert_eq!(
        &bytes[4..20],
        &[0x00, 0xB0, 0x0D, 0x00, 0x00, 0xC1, 0x00, 0x00, 0x00, 0x01, 0xF0, 0x00, 0x00, 0x00,
            0x00, 0x00]
    );
    assert!(bytes[20..].iter().all(|&b| b == 0xFF));
}

#[test]
fn decoder_error_surfaces_through_the_reader() {
    // A PES fragment whose declared length (2) cannot even hold its own
    // 3-byte optional header is rejected by the decoder, and the reader
    // surfaces that error unchanged.
    let mut writer = TsPacketWriter::new();
    writer.write_ts_packet(&pat_packet(0x1000));
    writer.write_ts_packet(&pmt_packet(0x1000, 0x0100));
    let bad = TsPacket {
        header: header(0x0100),
        adaptation_field: None,
        payload: Some(TsPayload::Pes(Pes {
            header: PesHeader {
                stream_id: StreamId::new(0xE0),
                priority: false,
                data_alignment_indicator: false,
                copyright: false,
                original_or_copy: false,
                pts: None,
                dts: None,
                escr: None,
            },
            pes_packet_len: 2,
            data: Bytes::new(&[0; 175]).unwrap(),
        })),
    };
    writer.write_ts_packet(&bad);
    let mut reader = PesPacketReader::new(TsPacketReader::new(writer.into_sink()));
    assert_eq!(
        reader.read_pes_packet(),
        Err(mpeg2ts::error::ErrorKind::InvalidInput)
    );
}
