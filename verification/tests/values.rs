//! The small validated values and their classification predicates.

use mpeg2ts::error::ErrorKind;
use mpeg2ts::es::StreamId;
use mpeg2ts::pes::PesHeader;
use mpeg2ts::ts::payload::Bytes;
use mpeg2ts::ts::{ClockReference, ContinuityCounter, Pid};

#[test]
fn pid_rejects_values_over_13_bits() {
    assert_eq!(Pid::new(0x1FFF).unwrap().as_u16(), 0x1FFF);
    assert_eq!(Pid::new(0x2000), Err(ErrorKind::InvalidInput));
}

#[test]
fn continuity_counter_wraps_modulo_16() {
    let mut cc = ContinuityCounter::new();
    assert_eq!(cc.as_u8(), 0);
    for _ in 0..15 {
        cc.increment();
    }
    assert_eq!(cc.as_u8(), 15);
    cc.increment();
    assert_eq!(cc.as_u8(), 0);
    assert_eq!(ContinuityCounter::from_u8(16), Err(ErrorKind::InvalidInput));
}

#[test]
fn stream_id_classification() {
    assert!(StreamId::new(0xC0).is_audio());
    assert!(StreamId::new(0xDF).is_audio());
    assert!(!StreamId::new(0xE0).is_audio());
    assert!(StreamId::new(0xE0).is_video());
    assert!(StreamId::new(0xEF).is_video());
    assert!(!StreamId::new(0xF0).is_video());
    assert!(StreamId::new(0xBD).is_sync_klv());
    assert!(StreamId::new(0xFC).is_async_klv());
    assert!(StreamId::new(0xBD).is_klv());
    assert!(StreamId::new(0xFC).is_klv());
    assert!(!StreamId::new(0xC0).is_klv());
    assert_eq!(StreamId::new(0x42).as_u8(), 0x42);
}

#[test]
fn audio_and_video_constructors_check_their_ranges() {
    assert_eq!(StreamId::new_audio(0xC5).unwrap().as_u8(), 0xC5);
    assert_eq!(StreamId::new_audio(0xE0), Err(ErrorKind::InvalidInput));
    assert_eq!(StreamId::new_video(0xE5).unwrap().as_u8(), 0xE5);
    assert_eq!(StreamId::new_video(0xC0), Err(ErrorKind::InvalidInput));
}

#[test]
fn clock_reference_checks_bit_widths() {
    assert!(ClockReference::new(0x1_FFFF_FFFF, 0x1FF).is_ok());
    assert_eq!(
        ClockReference::new(0x2_0000_0000, 0),
        Err(ErrorKind::InvalidInput)
    );
    assert_eq!(ClockReference::new(0, 0x200), Err(ErrorKind::InvalidInput));
}

#[test]
fn bytes_caps_payload_length() {
    assert_eq!(Bytes::new(&[0; 184]).unwrap().len(), 184);
    assert_eq!(Bytes::new(&[0; 185]), Err(ErrorKind::InvalidInput));
}

#[test]
fn optional_header_len_counts_flagged_fields() {
    let mut h = PesHeader {
        stream_id: StreamId::new(0xE0),
        priority: false,
        data_alignment_indicator: false,
        copyright: false,
        original_or_copy: false,
        pts: None,
        dts: None,
        escr: None,
    };
    assert_eq!(h.optional_header_len(), 3);
    h.pts = Some(1);
    assert_eq!(h.optional_header_len(), 8);
    h.dts = Some(1);
    assert_eq!(h.optional_header_len(), 13);
    h.escr = Some(ClockReference::new(0, 0).unwrap());
    assert_eq!(h.optional_header_len(), 19);
    h.stream_id = StreamId::new(0xBE);
    h.pts = None;
    h.dts = None;
    h.escr = None;
    assert_eq!(h.optional_header_len(), 0);
}
