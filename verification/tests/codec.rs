use compact_track::activity_type::ActivityType;
use compact_track::reader::{RecordEvent, TrackReader};
use compact_track::records::{CodecError, DataPoint, Header};
use compact_track::session::{DynamicDataType, QuantizedPoint, Segment, TrackPoint};
use compact_track::time::Timestamp;
use compact_track::writer::TrackWriter;

fn ts(epoch_seconds: u64, offset_minutes: u16) -> Timestamp {
    Timestamp { epoch_seconds, offset_minutes }
}

fn sample_header(time: Timestamp) -> Header {
    Header {
        time,
        activity_type: ActivityType::Run,
        title: String::from("Morning run"),
        description: String::from("around the lake"),
        device: String::from("watch-3"),
    }
}

/// The quantization used by callers before handing coordinates to the
/// codec: degrees in [-180, 180] mapped onto the unsigned 32-bit range.
fn quantize(v: f64) -> u32 {
    (v * (u32::MAX as f64 / 360.0) + (u32::MAX as f64 / 2.0)) as u32
}

fn dequantize(encoded: u32) -> f64 {
    (encoded as f64 - (u32::MAX as f64 / 2.0)) / (u32::MAX as f64 / 360.0)
}

#[test]
fn activity_type_decodes_exactly_twelve_bytes() {
    for b in 0u8..12 {
        let a = ActivityType::from_byte(b).expect("byte below 12 must decode");
        assert_eq!(a.to_byte(), b);
    }
    for b in 12u8..=255 {
        assert_eq!(
            ActivityType::from_byte(b),
            Err(CodecError::InvalidActivityType(b))
        );
    }
}

#[test]
fn activity_type_table_is_stable() {
    assert_eq!(ActivityType::from_byte(0), Ok(ActivityType::Walk));
    assert_eq!(ActivityType::from_byte(9), Ok(ActivityType::Plane));
    assert_eq!(ActivityType::from_byte(10), Ok(ActivityType::Combination));
    assert_eq!(ActivityType::from_byte(11), Ok(ActivityType::Unknown));
}

#[test]
fn data_point_decodes_exactly_four_bytes() {
    assert_eq!(DataPoint::from_byte(0), Ok(DataPoint::TrackPoint));
    assert_eq!(DataPoint::from_byte(1), Ok(DataPoint::StartSegment));
    assert_eq!(DataPoint::from_byte(2), Ok(DataPoint::EndSegment));
    assert_eq!(DataPoint::from_byte(3), Ok(DataPoint::TimeSync));
    for b in 4u8..=255 {
        assert_eq!(DataPoint::from_byte(b), Err(CodecError::InvalidDataPoint(b)));
    }
}

#[test]
fn fat_time_round_trips_whole_seconds_and_offset() {
    let cases = [
        ts(0, 0),
        ts(1_700_000_000, 120),
        ts(0xFF_FFFF_FFFF, 65535),
        ts(1, 1),
    ];
    for t in cases {
        let mut buf: Vec<u8> = Vec::new();
        let written = TrackWriter::write_fat_time(&t, &mut buf);
        assert_eq!(written, 7);
        assert_eq!(buf.len(), 7);
        let mut pos = 0usize;
        let back = TrackReader::read_fat_time(&buf, &mut pos).expect("seven bytes are present");
        assert_eq!(pos, 7);
        assert_eq!(back, t);
    }
}

#[test]
fn fat_time_drops_the_top_three_epoch_bytes() {
    let t = ts(0x100_0000_0005, 60);
    let mut buf: Vec<u8> = Vec::new();
    TrackWriter::write_fat_time(&t, &mut buf);
    let mut pos = 0usize;
    let back = TrackReader::read_fat_time(&buf, &mut pos).unwrap();
    assert_eq!(back, ts(5, 60));
}

#[test]
fn fat_time_truncated_read_fails() {
    let buf = vec![0u8; 6];
    let mut pos = 0usize;
    assert_eq!(
        TrackReader::read_fat_time(&buf, &mut pos),
        Err(CodecError::TruncatedStream)
    );
    assert_eq!(pos, 0);
}

#[test]
fn time_sync_inserted_only_beyond_one_byte_delta() {
    let t0 = ts(1_000_000, 0);
    let mut header_buf: Vec<u8> = Vec::new();
    let (mut writer, _) = TrackWriter::start(t0, sample_header(t0), &mut header_buf);

    // 100 seconds after the reference: no time sync, delta byte 100.
    let near = TrackPoint::new(QuantizedPoint { lon: 7, lat: 9 }, ts(1_000_100, 0));
    let mut buf: Vec<u8> = Vec::new();
    let written = writer.write_track_point(&near, &mut buf);
    assert_eq!(written, buf.len());
    assert_eq!(buf[0], 0); // track-point marker, no sync
    assert_eq!(buf[9], 100); // delta byte after marker + lon + lat
    assert_eq!(buf.len(), 12); // marker + 4 + 4 + delta + mask, no channels

    // 300 seconds after the reference: a time sync carrying the point's
    // instant precedes the point, whose delta byte is zero.
    let far = TrackPoint::new(QuantizedPoint { lon: 7, lat: 9 }, ts(1_000_400, 0));
    let mut buf2: Vec<u8> = Vec::new();
    let written2 = writer.write_track_point(&far, &mut buf2);
    assert_eq!(written2, buf2.len());
    assert_eq!(buf2[0], 3); // time-sync marker
    let mut pos = 1usize;
    let carried = TrackReader::read_fat_time(&buf2, &mut pos).unwrap();
    assert_eq!(carried, ts(1_000_400, 0)); // reference re-anchors here
    assert_eq!(buf2[8], 0); // track-point marker
    assert_eq!(buf2[17], 0); // delta byte is zero after the sync
    assert_eq!(buf2.len(), 20);
}

#[test]
fn dynamic_data_mask_and_get() {
    let mut p = TrackPoint::new(QuantizedPoint { lon: 1, lat: 2 }, ts(5, 0));
    let altitude = 812.5f32.to_bits();
    let heart_rate = 151.0f32.to_bits();
    p.with_data(DynamicDataType::Altitude, altitude);
    p.with_data(DynamicDataType::HeartRate, heart_rate);
    assert_eq!(p.get_dynamic_data_mask(), 0b1001);
    assert_eq!(p.get_dynamic_data(DynamicDataType::Altitude), Some(altitude));
    assert_eq!(p.get_dynamic_data(DynamicDataType::HeartRate), Some(heart_rate));
    for channel in [
        DynamicDataType::Speed,
        DynamicDataType::Tempretature,
        DynamicDataType::Cadence,
        DynamicDataType::Power,
        DynamicDataType::StepCount,
        DynamicDataType::FuelMilage,
        DynamicDataType::RPM,
    ] {
        assert_eq!(p.get_dynamic_data(channel), None);
    }
}

#[test]
fn channel_masks_are_single_bits() {
    assert_eq!(DynamicDataType::Altitude.mask(), 1);
    assert_eq!(DynamicDataType::Speed.mask(), 2);
    assert_eq!(DynamicDataType::HeartRate.mask(), 8);
    assert_eq!(DynamicDataType::RPM.mask(), 1 << 8);
}

#[test]
fn long_ascii_title_is_clipped_to_255_bytes() {
    let title: String = "a".repeat(300);
    let mut buf: Vec<u8> = Vec::new();
    let written = TrackWriter::write_string(&title, &mut buf);
    assert_eq!(written, 256);
    assert_eq!(buf.len(), 256);
    assert_eq!(buf[0], 255);
    assert!(buf[1..].iter().all(|&b| b == b'a'));
    let mut pos = 0usize;
    let back = TrackReader::read_string(&buf, &mut pos).unwrap();
    assert_eq!(back, "a".repeat(255));
    assert_eq!(pos, 256);
}

#[test]
fn short_strings_round_trip_unchanged() {
    for s in ["", "plain", "h\u{e9}llo w\u{f6}rld", "\u{1F6B4} ride"] {
        let mut buf: Vec<u8> = Vec::new();
        TrackWriter::write_string(s, &mut buf);
        let mut pos = 0usize;
        let back = TrackReader::read_string(&buf, &mut pos).unwrap();
        assert_eq!(back, s);
    }
}

#[test]
fn invalid_text_bytes_decode_to_replacement_characters() {
    let buf = vec![2u8, 0xFF, 0xFE];
    let mut pos = 0usize;
    let back = TrackReader::read_string(&buf, &mut pos).unwrap();
    assert_eq!(back, "\u{FFFD}\u{FFFD}");
}

#[test]
fn header_round_trips() {
    let t0 = ts(1_650_000_000, 90);
    let header = sample_header(t0);
    let mut buf: Vec<u8> = Vec::new();
    let (writer, written) = TrackWriter::start(t0, header.clone(), &mut buf);
    let _ = writer;
    assert_eq!(written, buf.len());
    let mut pos = 0usize;
    let (reader, back) = TrackReader::start_reading(&buf, &mut pos).unwrap();
    let _ = reader;
    assert_eq!(pos, buf.len());
    assert_eq!(back.time, t0);
    assert_eq!(back.activity_type, header.activity_type);
    assert_eq!(back.title, header.title);
    assert_eq!(back.description, header.description);
    assert_eq!(back.device, header.device);
}

#[test]
fn end_to_end_session_round_trips() {
    let t0 = ts(1_700_000_000, 60);
    let lon = quantize(13.377702);
    let lat = quantize(52.516275);
    let mut first = TrackPoint::new(QuantizedPoint { lon, lat }, t0);
    first.with_data(DynamicDataType::HeartRate, 140.0f32.to_bits());
    let second = TrackPoint::new(
        QuantizedPoint { lon: quantize(13.379), lat: quantize(52.517) },
        ts(t0.epoch_seconds + 50, 60),
    );
    let segment = Segment {
        activity_type: ActivityType::Bike,
        start_time: t0,
        end_time: ts(t0.epoch_seconds + 50, 60),
        points: vec![first.clone(), second.clone()],
    };

    let mut buf: Vec<u8> = Vec::new();
    let (mut writer, _) = TrackWriter::start(t0, sample_header(t0), &mut buf);
    let written = writer.write_segment(&segment, &mut buf);
    assert!(written > 0);

    let mut pos = 0usize;
    let (mut reader, _) = TrackReader::start_reading(&buf, &mut pos).unwrap();
    let segments = reader.read_segments(&buf, &mut pos).unwrap();
    assert_eq!(pos, buf.len());
    assert_eq!(segments.len(), 1);
    let seg = &segments[0];
    assert_eq!(seg.activity_type, ActivityType::Bike);
    assert_eq!(seg.start_time, t0);
    // the end record carries the segment's start time on the wire
    assert_eq!(seg.end_time, t0);
    assert_eq!(seg.points.len(), 2);

    assert_eq!(seg.points[0].timestamp(), t0);
    assert_eq!(seg.points[1].timestamp(), ts(t0.epoch_seconds + 50, 60));
    assert_eq!(seg.points[0].point(), first.point());
    assert_eq!(seg.points[1].point(), second.point());
    assert_eq!(
        seg.points[0].get_dynamic_data(DynamicDataType::HeartRate),
        Some(140.0f32.to_bits())
    );
    assert_eq!(seg.points[0].get_dynamic_data(DynamicDataType::Speed), None);

    // decoded coordinates stay within the quantization tolerance
    let tol = 360.0 / (u32::MAX as f64);
    assert!((dequantize(seg.points[0].point().lon) - 13.377702).abs() <= tol);
    assert!((dequantize(seg.points[0].point().lat) - 52.516275).abs() <= tol);
}

#[test]
fn quantization_stays_within_tolerance() {
    let tol = 360.0 / (u32::MAX as f64);
    for v in [-180.0, -179.99999, -42.42, 0.0, 0.0000001, 45.123456789, 179.99999, 180.0] {
        let back = dequantize(quantize(v));
        assert!((back - v).abs() <= tol, "value {v} came back as {back}");
    }
}

#[test]
fn point_outside_segment_is_rejected() {
    // a complete track-point record with empty mask, before any segment start
    let mut buf = vec![0u8];
    buf.extend_from_slice(&[0, 0, 0, 7]); // lon
    buf.extend_from_slice(&[0, 0, 0, 9]); // lat
    buf.push(10); // delta
    buf.extend_from_slice(&[0, 0]); // mask
    let mut reader = reader_at(ts(100, 0));
    let mut pos = 0usize;
    assert_eq!(
        reader.read_segments(&buf, &mut pos),
        Err(CodecError::UnexpectedRecord)
    );
}

#[test]
fn unknown_marker_is_rejected() {
    let buf = vec![9u8];
    let mut reader = reader_at(ts(100, 0));
    let mut pos = 0usize;
    assert_eq!(
        reader.read_segments(&buf, &mut pos),
        Err(CodecError::InvalidDataPoint(9))
    );
}

#[test]
fn mask_with_foreign_bit_is_rejected() {
    let mut buf: Vec<u8> = Vec::new();
    // open a segment first
    buf.push(1);
    let start = ts(500, 0);
    TrackWriter::write_fat_time(&start, &mut buf);
    buf.push(2); // activity byte: Bike
    // then a point whose mask sets bit 9, which belongs to no channel
    buf.push(0);
    buf.extend_from_slice(&[0, 0, 0, 1, 0, 0, 0, 2]); // lon, lat
    buf.push(0); // delta
    buf.extend_from_slice(&[0x02, 0x00]); // mask = 0x0200
    let mut reader = reader_at(ts(100, 0));
    let mut pos = 0usize;
    assert_eq!(
        reader.read_segments(&buf, &mut pos),
        Err(CodecError::InvalidMask(0x0200))
    );
}

#[test]
fn stream_ending_inside_a_record_is_truncated() {
    let t0 = ts(1_700_000_000, 0);
    let mut buf: Vec<u8> = Vec::new();
    let (mut writer, _) = TrackWriter::start(t0, sample_header(t0), &mut buf);
    let segment = Segment {
        activity_type: ActivityType::Walk,
        start_time: t0,
        end_time: t0,
        points: vec![TrackPoint::new(QuantizedPoint { lon: 3, lat: 4 }, t0)],
    };
    writer.write_segment(&segment, &mut buf);
    buf.pop(); // lose the last byte of the end record

    let mut pos = 0usize;
    let (mut reader, _) = TrackReader::start_reading(&buf, &mut pos).unwrap();
    assert_eq!(
        reader.read_segments(&buf, &mut pos),
        Err(CodecError::TruncatedStream)
    );
}

#[test]
fn truncated_header_is_rejected() {
    let t0 = ts(1_700_000_000, 0);
    let mut buf: Vec<u8> = Vec::new();
    let (_, _) = TrackWriter::start(t0, sample_header(t0), &mut buf);
    buf.truncate(buf.len() - 3);
    let mut pos = 0usize;
    assert!(matches!(
        TrackReader::start_reading(&buf, &mut pos),
        Err(CodecError::TruncatedStream)
    ));
}

#[test]
fn header_with_invalid_activity_byte_is_rejected() {
    let mut buf: Vec<u8> = Vec::new();
    TrackWriter::write_fat_time(&ts(10, 0), &mut buf);
    buf.push(200); // no category has this byte
    buf.extend_from_slice(&[0, 0, 0]); // three empty strings
    let mut pos = 0usize;
    assert!(matches!(
        TrackReader::start_reading(&buf, &mut pos),
        Err(CodecError::InvalidActivityType(200))
    ));
}

#[test]
fn segment_with_large_gap_round_trips_through_a_time_sync() {
    let t0 = ts(2_000_000, 120);
    let points = vec![
        TrackPoint::new(QuantizedPoint { lon: 11, lat: 22 }, t0),
        TrackPoint::new(QuantizedPoint { lon: 33, lat: 44 }, ts(t0.epoch_seconds + 300, 120)),
        TrackPoint::new(QuantizedPoint { lon: 55, lat: 66 }, ts(t0.epoch_seconds + 350, 120)),
    ];
    let segment = Segment {
        activity_type: ActivityType::Car,
        start_time: t0,
        end_time: ts(t0.epoch_seconds + 350, 120),
        points,
    };
    let mut buf: Vec<u8> = Vec::new();
    let (mut writer, _) = TrackWriter::start(t0, sample_header(t0), &mut buf);
    writer.write_segment(&segment, &mut buf);

    let mut pos = 0usize;
    let (mut reader, _) = TrackReader::start_reading(&buf, &mut pos).unwrap();
    let segments = reader.read_segments(&buf, &mut pos).unwrap();
    assert_eq!(segments.len(), 1);
    let seg = &segments[0];
    assert_eq!(seg.points.len(), 3);
    assert_eq!(seg.points[0].timestamp(), t0);
    // the 300-second gap travels in a time-sync record and comes back exact
    assert_eq!(seg.points[1].timestamp(), ts(t0.epoch_seconds + 300, 120));
    assert_eq!(seg.points[2].timestamp(), ts(t0.epoch_seconds + 350, 120));
    assert_eq!(seg.points[1].point(), QuantizedPoint { lon: 33, lat: 44 });
}

/// A reader anchored at a chosen reference, built through the header path.
fn reader_at(reference: Timestamp) -> TrackReader {
    let mut buf: Vec<u8> = Vec::new();
    let header = Header {
        time: reference,
        activity_type: ActivityType::Walk,
        title: String::new(),
        description: String::new(),
        device: String::new(),
    };
    let (_, _) = TrackWriter::start(reference, header, &mut buf);
    let mut pos = 0usize;
    let (reader, _) = TrackReader::start_reading(&buf, &mut pos).unwrap();
    reader
}
