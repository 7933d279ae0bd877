//! Decoder behaviour: reassembly, eviction, overruns and flushing.

use mpeg2ts::es::StreamId;
use mpeg2ts::pes::{PesHeader, PesPacketDecoder};
use mpeg2ts::ts::payload::{Bytes, Pes};
use mpeg2ts::ts::{ContinuityCounter, Pid, TransportScramblingControl, TsHeader, TsPacket, TsPayload};

fn header(pid: u16) -> TsHeader {
    TsHeader {
        transport_error_indicator: false,
        transport_priority: false,
        pid: Pid::new(pid).unwrap(),
        transport_scrambling_control: TransportScramblingControl::NotScrambled,
        continuity_counter: ContinuityCounter::new(),
    }
}

fn pes_header(stream_id: u8) -> PesHeader {
    PesHeader {
        stream_id: StreamId::new(stream_id),
        priority: false,
        data_alignment_indicator: false,
        copyright: false,
        original_or_copy: true,
        pts: None,
        dts: None,
        escr: None,
    }
}

fn pes_ts_packet(pid: u16, pes_packet_len: u16, data: &[u8]) -> TsPacket {
    TsPacket {
        header: header(pid),
        payload: Some(TsPayload::Pes(Pes {
            header: pes_header(0x1),
            pes_packet_len,
            data: Bytes::new(data).unwrap(),
        })),
        adaptation_field: None,
    }
}

fn raw_ts_packet(pid: u16, data: &[u8]) -> TsPacket {
    TsPacket {
        header: header(pid),
        payload: Some(TsPayload::Raw(Bytes::new(data).unwrap())),
        adaptation_field: None,
    }
}

#[test]
fn test_pes_packet_decoder_raw_payload() {
    let mut decoder = PesPacketDecoder::new();
    let packet = TsPacket {
        header: TsHeader {
            transport_error_indicator: false,
            transport_priority: false,
            pid: Pid::new(0x100).unwrap(),
            transport_scrambling_control: TransportScramblingControl::NotScrambled,
            continuity_counter: ContinuityCounter::new(),
        },
        payload: Some(TsPayload::Raw(Bytes::new(&[0x00; 184]).unwrap())),
        adaptation_field: None,
    };
    assert!(decoder.process_ts_packet(&packet).is_ok());
}

#[test]
fn test_pes_packet_decoder_pes_payload() {
    let mut decoder = PesPacketDecoder::new();
    let pes_packet = Pes {
        header: PesHeader {
            stream_id: StreamId::new(0x1),
            priority: false,
            data_alignment_indicator: false,
            copyright: false,
            original_or_copy: true,
            pts: None,
            dts: None,
            escr: None,
        },
        pes_packet_len: 35,
        data: Bytes::new(&[0x00; 32]).unwrap(),
    };
    let packet = TsPacket {
        header: TsHeader {
            transport_error_indicator: false,
            transport_priority: false,
            pid: Pid::new(0x100).unwrap(),
            transport_scrambling_control: TransportScramblingControl::NotScrambled,
            continuity_counter: ContinuityCounter::new(),
        },
        payload: Some(TsPayload::Pes(pes_packet)),
        adaptation_field: None,
    };

    // first packet returned will be None
    let result = decoder.process_ts_packet(&packet);
    assert!(result.is_ok());
    let pes_packet = result.unwrap();
    assert!(pes_packet.is_none());

    let result = decoder.process_ts_packet(&packet);
    assert!(result.is_ok());
    let pes_packet = result.unwrap();
    assert!(pes_packet.is_some());
}

#[test]
fn test_pes_packet_decoder_flush() {
    let mut decoder = PesPacketDecoder::new();
    let pes_packet = Pes {
        header: PesHeader {
            stream_id: StreamId::new(0x1),
            priority: false,
            data_alignment_indicator: false,
            copyright: false,
            original_or_copy: true,
            pts: None,
            dts: None,
            escr: None,
        },
        pes_packet_len: 35,
        data: Bytes::new(&[0x00; 32]).unwrap(),
    };
    let packet = TsPacket {
        header: TsHeader {
            transport_error_indicator: false,
            transport_priority: false,
            pid: Pid::new(0x100).unwrap(),
            transport_scrambling_control: TransportScramblingControl::NotScrambled,
            continuity_counter: ContinuityCounter::new(),
        },
        payload: Some(TsPayload::Pes(pes_packet)),
        adaptation_field: None,
    };

    let result = decoder.process_ts_packet(&packet);
    assert!(result.is_ok());

    let result = decoder.flush();
    assert!(result.is_ok());
    let p = result.unwrap();
    assert!(p.is_some());
}

#[test]
fn bounded_pes_completes_across_two_packets() {
    // Declared length 200 with a 14-byte optional header: the body must
    // reach 186 bytes; 170 now and 16 more complete it exactly.
    let mut decoder = PesPacketDecoder::new();
    let mut h = pes_header(0xE0);
    h.pts = Some(1000);
    h.escr = Some(mpeg2ts::ts::ClockReference::new(2000, 0).unwrap());
    let first = TsPacket {
        header: header(0x100),
        payload: Some(TsPayload::Pes(Pes {
            header: h,
            pes_packet_len: 200,
            data: Bytes::new(&[0xAB; 170]).unwrap(),
        })),
        adaptation_field: None,
    };
    assert_eq!(h.optional_header_len(), 14);
    assert!(decoder.process_ts_packet(&first).unwrap().is_none());
    let second = raw_ts_packet(0x100, &[0xCD; 16]);
    let emitted = decoder.process_ts_packet(&second).unwrap().unwrap();
    assert_eq!(emitted.data.len(), 186);
    assert_eq!(&emitted.data[..170], &[0xAB; 170][..]);
    assert_eq!(&emitted.data[170..], &[0xCD; 16][..]);
    assert!(decoder.flush().unwrap().is_none());
}

#[test]
fn oversized_raw_append_drops_partial() {
    // As above, but 24 continuation bytes overrun the declared 186-byte
    // body: the partial packet is dropped and nothing is emitted.
    let mut decoder = PesPacketDecoder::new();
    let mut h = pes_header(0xE0);
    h.pts = Some(1000);
    h.escr = Some(mpeg2ts::ts::ClockReference::new(2000, 0).unwrap());
    let first = TsPacket {
        header: header(0x100),
        payload: Some(TsPayload::Pes(Pes {
            header: h,
            pes_packet_len: 200,
            data: Bytes::new(&[0xAB; 170]).unwrap(),
        })),
        adaptation_field: None,
    };
    assert!(decoder.process_ts_packet(&first).unwrap().is_none());
    let second = raw_ts_packet(0x100, &[0xCD; 24]);
    assert!(decoder.process_ts_packet(&second).unwrap().is_none());
    assert!(decoder.flush().unwrap().is_none());
}

#[test]
fn new_pes_on_same_pid_evicts_prior() {
    let mut decoder = PesPacketDecoder::new();
    let a = pes_ts_packet(0x100, 0, &[1; 40]);
    let b = pes_ts_packet(0x100, 0, &[2; 50]);
    assert!(decoder.process_ts_packet(&a).unwrap().is_none());
    let evicted = decoder.process_ts_packet(&b).unwrap().unwrap();
    assert_eq!(evicted.data, vec![1; 40]);
    let last = decoder.flush().unwrap().unwrap();
    assert_eq!(last.data, vec![2; 50]);
    assert!(decoder.flush().unwrap().is_none());
}

#[test]
fn incomplete_bounded_pes_errors_at_flush() {
    // pes_packet_len 35 and a 3-byte optional header declare a 32-byte
    // body; only 10 bytes ever arrive.
    let mut decoder = PesPacketDecoder::new();
    let p = pes_ts_packet(0x100, 35, &[0; 10]);
    assert!(decoder.process_ts_packet(&p).unwrap().is_none());
    assert_eq!(decoder.flush(), Err(mpeg2ts::error::ErrorKind::InvalidInput));
    assert!(decoder.flush().unwrap().is_none());
}

#[test]
fn short_declared_length_is_invalid_input() {
    // A declared length smaller than the optional header cannot hold it.
    let mut decoder = PesPacketDecoder::new();
    let p = pes_ts_packet(0x100, 2, &[0; 10]);
    assert_eq!(
        decoder.process_ts_packet(&p),
        Err(mpeg2ts::error::ErrorKind::InvalidInput)
    );
}

#[test]
fn ignore_header_length_makes_packets_unbounded() {
    let mut decoder = PesPacketDecoder::with_ignore_header_length(true);
    let p = pes_ts_packet(0x100, 35, &[0; 10]);
    assert!(decoder.process_ts_packet(&p).unwrap().is_none());
    // An unbounded packet is complete at end of stream whatever its size.
    let emitted = decoder.flush().unwrap().unwrap();
    assert_eq!(emitted.data.len(), 10);
}

#[test]
fn empty_decoder_flushes_to_none() {
    let mut decoder = PesPacketDecoder::new();
    assert!(decoder.flush().unwrap().is_none());
}

#[test]
fn flush_drains_one_in_flight_packet_per_call() {
    let mut decoder = PesPacketDecoder::new();
    let a = pes_ts_packet(0x100, 0, &[1; 40]);
    let b = pes_ts_packet(0x101, 0, &[2; 50]);
    assert!(decoder.process_ts_packet(&a).unwrap().is_none());
    assert!(decoder.process_ts_packet(&b).unwrap().is_none());
    let first = decoder.flush().unwrap().unwrap();
    let second = decoder.flush().unwrap().unwrap();
    let mut lens = vec![first.data.len(), second.data.len()];
    lens.sort();
    assert_eq!(lens, vec![40, 50]);
    assert!(decoder.flush().unwrap().is_none());
}
