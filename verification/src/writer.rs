use crate::records::{
    push_u16_be, push_u32_be, string_record, u16_be_bytes, u32_be_bytes, DataPoint, Header,
};
use crate::session::{Segment, SpecPoint, SpecSegment, TrackPoint, DYNAMIC_DATA_COUNT};
use crate::time::{fat_time_bytes, Timestamp};
use vstd::prelude::*;

verus! {

/// Seconds from the reference to a point's instant; negative when the
/// point lies before the reference.
pub open spec fn spec_delta(p: SpecPoint, reference: Timestamp) -> int {
    p.timestamp.epoch_seconds - reference.epoch_seconds
}

/// A point whose delta outgrows the one delta byte forces a time-sync
/// record first.
pub open spec fn needs_sync(p: SpecPoint, reference: Timestamp) -> bool {
    spec_delta(p, reference) > 255
}

/// The delta byte of a track-point record: the seconds since the
/// reference, clamped to zero for a point at or before the reference,
/// and zero right after a time sync.
pub open spec fn delta_byte(p: SpecPoint, reference: Timestamp) -> u8 {
    let d = spec_delta(p, reference);
    if d < 0 || d > 255 {
        0
    } else {
        d as u8
    }
}

/// The channel slots from ordinal `i` up: four big-endian bytes for each
/// channel whose presence bit is set, in ascending ordinal order.
pub open spec fn dyn_data_bytes_from(mask: u16, data: Seq<u32>, i: nat) -> Seq<u8>
    decreases DYNAMIC_DATA_COUNT - i,
    when i <= DYNAMIC_DATA_COUNT
{
    if i >= DYNAMIC_DATA_COUNT as nat {
        Seq::empty()
    } else {
        let rest = dyn_data_bytes_from(mask, data, i + 1);
        if mask & (1u16 << (i as u16)) != 0 {
            u32_be_bytes(data[i as int]) + rest
        } else {
            rest
        }
    }
}

/// All channel slots of one point, present channels only.
pub open spec fn dyn_data_bytes(mask: u16, data: Seq<u32>) -> Seq<u8> {
    dyn_data_bytes_from(mask, data, 0)
}

/// The track-point record proper: marker, quantized longitude and
/// latitude, delta byte, presence mask, then the present channels.
pub open spec fn point_body_bytes(p: SpecPoint, delta: u8) -> Seq<u8> {
    seq![DataPoint::TrackPoint.ordinal()] + u32_be_bytes(p.point.lon) + u32_be_bytes(p.point.lat)
        + seq![delta] + u16_be_bytes(p.mask) + dyn_data_bytes(p.mask, p.data)
}

/// Everything one point contributes to the stream: a time-sync record
/// carrying the point's own instant first, when its delta outgrows the
/// delta byte, then the track-point record.
pub open spec fn point_record_bytes(p: SpecPoint, reference: Timestamp) -> Seq<u8> {
    if needs_sync(p, reference) {
        seq![DataPoint::TimeSync.ordinal()] + fat_time_bytes(p.timestamp) + point_body_bytes(p, 0)
    } else {
        point_body_bytes(p, delta_byte(p, reference))
    }
}

/// The reference time after one point: re-anchored at the point exactly
/// when a time sync was emitted.
pub open spec fn point_new_reference(p: SpecPoint, reference: Timestamp) -> Timestamp {
    if needs_sync(p, reference) {
        p.timestamp
    } else {
        reference
    }
}

/// The bytes of a run of points, written left to right under the rolling
/// reference.
pub open spec fn points_bytes(points: Seq<SpecPoint>, reference: Timestamp) -> Seq<u8>
    decreases points.len(),
{
    if points.len() == 0 {
        Seq::empty()
    } else {
        points_bytes(points.drop_last(), reference) + point_record_bytes(
            points.last(),
            points_final_reference(points.drop_last(), reference),
        )
    }
}

/// The reference time after a run of points.
pub open spec fn points_final_reference(points: Seq<SpecPoint>, reference: Timestamp) -> Timestamp
    decreases points.len(),
{
    if points.len() == 0 {
        reference
    } else {
        point_new_reference(
            points.last(),
            points_final_reference(points.drop_last(), reference),
        )
    }
}

/// A segment-start record: marker, the segment's start time as a fat
/// time, and its activity-type byte.
pub open spec fn segment_start_bytes(s: SpecSegment) -> Seq<u8> {
    seq![DataPoint::StartSegment.ordinal()] + fat_time_bytes(s.start_time) + seq![
        s.activity_type.ordinal(),
    ]
}

/// A segment-end record: marker and a fat time. The writer puts the
/// segment's start time here, not its end time; the wire format is kept
/// exactly as existing producers write it.
pub open spec fn segment_end_bytes(s: SpecSegment) -> Seq<u8> {
    seq![DataPoint::EndSegment.ordinal()] + fat_time_bytes(s.start_time)
}

/// Everything one segment contributes to the stream.
pub open spec fn segment_bytes(s: SpecSegment) -> Seq<u8> {
    segment_start_bytes(s) + points_bytes(s.points, s.start_time) + segment_end_bytes(s)
}

/// The header as written by `TrackWriter::start`: the given time as a
/// fat time, the activity-type byte, then title, description and device
/// as length-prefixed strings. The header's own `time` field is not
/// consulted; the stream is anchored at the time handed to `start`.
pub open spec fn header_bytes(time: Timestamp, h: Header) -> Seq<u8> {
    fat_time_bytes(time) + seq![h.activity_type.ordinal()] + string_record(
        vstd::utf8::encode_utf8(h.title@),
    ) + string_record(vstd::utf8::encode_utf8(h.description@)) + string_record(
        vstd::utf8::encode_utf8(h.device@),
    )
}

/// The stateful encoder: holds the rolling reference time for one
/// stream. One instance serves exactly one stream on one thread; it is
/// not safe to share across threads without outside synchronization.
pub struct TrackWriter {
    reference_time: Timestamp,
}

impl TrackWriter {
    /// The rolling reference the next delta byte is computed against.
    pub closed spec fn reference(self) -> Timestamp {
        self.reference_time
    }

    /// Write the header and hand back the live writer, anchored at the
    /// given time, together with the count of bytes written.
    pub fn start(time: Timestamp, header: Header, sink: &mut Vec<u8>) -> (r: (TrackWriter, usize))
        ensures
            final (sink)@ == old(sink)@ + header_bytes(time, header),
            r.0.reference() == time,
            r.1 == header_bytes(time, header).len(),
    {
        let base_len = sink.len();
        let _ = Self::write_fat_time(&time, sink);
        sink.push(header.activity_type.to_byte());
        let _ = Self::write_string(header.title.as_str(), sink);
        let _ = Self::write_string(header.description.as_str(), sink);
        let _ = Self::write_string(header.device.as_str(), sink);
        proof {
            assert(sink@ =~= old(sink)@ + header_bytes(time, header));
        }
        let written = sink.len() - base_len;
        (TrackWriter { reference_time: time }, written)
    }

    /// Write one length-prefixed string record: a length byte, then at
    /// most 255 text bytes, longer text clipped (which may split a
    /// multi-byte character; the decoder recovers with replacement
    /// characters). Returns the count of bytes written.
    pub fn write_string(string: &str, sink: &mut Vec<u8>) -> (written: usize)
        ensures
            final (sink)@ == old(sink)@ + string_record(vstd::utf8::encode_utf8(string@)),
            written == string_record(vstd::utf8::encode_utf8(string@)).len(),
    {
        let bytes: &[u8] = string.as_bytes();
        let n: usize = if bytes.len() < 255 {
            bytes.len()
        } else {
            255
        };
        sink.push(n as u8);
        let chunk = vstd::slice::slice_subrange(bytes, 0, n);
        sink.extend_from_slice(chunk);
        proof {
            assert(chunk@ =~= crate::records::clipped_bytes(vstd::utf8::encode_utf8(string@)));
            assert(sink@ =~= old(sink)@ + string_record(vstd::utf8::encode_utf8(string@)));
        }
        1 + n
    }

    /// Write a whole segment: its start record, every point in order
    /// under the rolling reference, then its end record. The reference
    /// re-anchors at the segment's start time first. Returns the count
    /// of bytes written.
    pub fn write_segment(&mut self, segment: &Segment, sink: &mut Vec<u8>) -> (written: usize)
        requires
            segment.wf(),
        ensures
            final (sink)@ == old(sink)@ + segment_bytes(segment@),
            final (self).reference() == points_final_reference(
                segment@.points,
                segment.start_time,
            ),
            written == segment_bytes(segment@).len(),
    {
        let base_len = sink.len();
        let _ = Self::write_data_point(DataPoint::StartSegment, sink);
        let _ = Self::write_fat_time(&segment.start_time, sink);
        sink.push(segment.activity_type.to_byte());
        self.reference_time = segment.start_time;
        proof {
            assert(sink@ =~= old(sink)@ + segment_start_bytes(segment@));
        }
        let ghost seg_base = sink@;
        let n = segment.points.len();
        let mut idx: usize = 0;
        while idx < n
            invariant
                idx <= n,
                n == segment.points@.len(),
                segment.wf(),
                segment@.points.len() == n,
                sink@ == seg_base + points_bytes(
                    segment@.points.take(idx as int),
                    segment.start_time,
                ),
                self.reference() == points_final_reference(
                    segment@.points.take(idx as int),
                    segment.start_time,
                ),
            decreases n - idx,
        {
            proof {
                assert(segment@.points[idx as int] == segment.points@[idx as int]@);
            }
            let _ = self.write_track_point(&segment.points[idx], sink);
            idx += 1;
            proof {
                let pts = segment@.points;
                assert(pts.take(idx as int).drop_last() =~= pts.take(idx - 1));
                assert(pts.take(idx as int).last() == pts[idx - 1]);
            }
        }
        proof {
            assert(segment@.points.take(n as int) =~= segment@.points);
        }
        let _ = Self::write_data_point(DataPoint::EndSegment, sink);
        let _ = Self::write_fat_time(&segment.start_time, sink);
        proof {
            assert(sink@ =~= old(sink)@ + segment_bytes(segment@));
        }
        sink.len() - base_len
    }

    /// Write one record-marker byte.
    fn write_data_point(data_point: DataPoint, sink: &mut Vec<u8>) -> (written: usize)
        ensures
            final (sink)@ == old(sink)@ + seq![data_point.ordinal()],
            written == 1,
    {
        sink.push(data_point.to_byte());
        proof {
            assert(sink@ =~= old(sink)@ + seq![data_point.ordinal()]);
        }
        1
    }

    /// Write one track point: a time-sync record first when the point's
    /// delta since the reference outgrows the one delta byte (the
    /// reference then re-anchors at the point), then the track-point
    /// record. Returns the count of bytes written.
    pub fn write_track_point(&mut self, track_point: &TrackPoint, sink: &mut Vec<u8>) -> (written:
        usize)
        requires
            track_point.wf(),
        ensures
            final (sink)@ == old(sink)@ + point_record_bytes(track_point@, old(self).reference()),
            final (self).reference() == point_new_reference(
                track_point@,
                old(self).reference(),
            ),
            written == point_record_bytes(track_point@, old(self).reference()).len(),
    {
        let base_len = sink.len();
        let ts = track_point.timestamp();
        let sync_needed = ts.epoch_seconds > self.reference_time.epoch_seconds
            && ts.epoch_seconds - self.reference_time.epoch_seconds > 255;
        if sync_needed {
            self.reference_time = ts;
            let _ = Self::write_data_point(DataPoint::TimeSync, sink);
            let _ = Self::write_fat_time(&ts, sink);
        }
        let delta: u8 = if ts.epoch_seconds <= self.reference_time.epoch_seconds {
            0
        } else {
            (ts.epoch_seconds - self.reference_time.epoch_seconds) as u8
        };
        assert(delta == delta_byte(track_point@, old(self).reference()));
        let _ = Self::write_data_point(DataPoint::TrackPoint, sink);
        let qp = track_point.point();
        push_u32_be(sink, qp.lon);
        push_u32_be(sink, qp.lat);
        sink.push(delta);
        let mask = track_point.get_dynamic_data_mask();
        push_u16_be(sink, mask);
        let ghost mid = sink@;
        let mut i: usize = 0;
        while i < DYNAMIC_DATA_COUNT
            invariant
                i <= DYNAMIC_DATA_COUNT,
                track_point.wf(),
                mask == track_point@.mask,
                sink@ + dyn_data_bytes_from(mask, track_point@.data, i as nat) == mid
                    + dyn_data_bytes(mask, track_point@.data),
            decreases DYNAMIC_DATA_COUNT - i,
        {
            let ghost s0 = sink@;
            if mask & (1u16 << (i as u16)) != 0 {
                push_u32_be(sink, track_point.data_at(i));
                proof {
                    assert(sink@ + dyn_data_bytes_from(mask, track_point@.data, (i + 1) as nat)
                        =~= s0 + dyn_data_bytes_from(mask, track_point@.data, i as nat));
                }
            }
            i += 1;
        }
        proof {
            assert(sink@ =~= mid + dyn_data_bytes(mask, track_point@.data));
            assert(sink@ =~= old(sink)@ + point_record_bytes(track_point@, old(self).reference()));
        }
        sink.len() - base_len
    }

    /// Write an instant and its offset as the seven fat-time bytes: the
    /// low five bytes of the epoch seconds, big endian, then the offset
    /// minutes in two bytes, big endian.
    pub fn write_fat_time(time: &Timestamp, sink: &mut Vec<u8>) -> (written: usize)
        ensures
            final (sink)@ == old(sink)@ + fat_time_bytes(*time),
            written == 7,
    {
        let e = time.epoch_seconds;
        proof {
            assert((e >> 32) & 0xff < 256 && (e >> 24) & 0xff < 256 && (e >> 16) & 0xff < 256 && (e
                >> 8) & 0xff < 256 && e & 0xff < 256) by (bit_vector);
        }
        sink.push(((e >> 32) & 0xff) as u8);
        sink.push(((e >> 24) & 0xff) as u8);
        sink.push(((e >> 16) & 0xff) as u8);
        sink.push(((e >> 8) & 0xff) as u8);
        sink.push((e & 0xff) as u8);
        push_u16_be(sink, time.offset_minutes);
        proof {
            assert(sink@ =~= old(sink)@ + fat_time_bytes(*time));
        }
        7
    }
}

} // verus!
