use crate::activity_type::{ActivityType, ACTIVITY_TYPE_COUNT};
use crate::records::{
    bytes_to_string_lossy, lossy_utf8, read_u8, spec_read_string, string_record, u16_be_bytes, u16_be_of,
    u32_be_bytes, u32_be_of, CodecError, DataPoint, Header,
};
use crate::session::{
    QuantizedPoint, Segment, SpecPoint, SpecSegment, TrackPoint, DYNAMIC_DATA_COUNT,
    DYNAMIC_DATA_MASK_LIMIT,
};
use crate::time::{fat_time_bytes, fat_time_of, Timestamp};
use crate::writer::{
    dyn_data_bytes, dyn_data_bytes_from, needs_sync, point_body_bytes, point_new_reference,
    point_record_bytes, points_bytes, points_final_reference, segment_bytes, spec_delta,
};
use vstd::prelude::*;

verus! {

/// Reading a fat time at a position: the timestamp and the position
/// after it, if all seven bytes are present.
pub open spec fn spec_read_fat_time(data: Seq<u8>, pos: int) -> Option<(Timestamp, int)> {
    if 0 <= pos && pos + 7 <= data.len() {
        Some((fat_time_of(data.subrange(pos, pos + 7)), pos + 7))
    } else {
        None
    }
}

/// The header record at a position: anchor time, activity-type byte and
/// the three string fields' text bytes, with the position after them;
/// or the exact decode error.
pub open spec fn spec_read_header(data: Seq<u8>, pos: int) -> Result<
    (Timestamp, u8, Seq<u8>, Seq<u8>, Seq<u8>, int),
    CodecError,
> {
    match spec_read_fat_time(data, pos) {
        None => Err(CodecError::TruncatedStream),
        Some((time, p1)) => {
            if p1 < data.len() {
                let b = data[p1];
                if b >= ACTIVITY_TYPE_COUNT {
                    Err(CodecError::InvalidActivityType(b))
                } else {
                    match spec_read_string(data, p1 + 1) {
                        None => Err(CodecError::TruncatedStream),
                        Some((title, p2)) => match spec_read_string(data, p2) {
                            None => Err(CodecError::TruncatedStream),
                            Some((description, p3)) => match spec_read_string(data, p3) {
                                None => Err(CodecError::TruncatedStream),
                                Some((device, p4)) => Ok((time, b, title, description, device, p4)),
                            },
                        },
                    }
                }
            } else {
                Err(CodecError::TruncatedStream)
            }
        },
    }
}

/// Number of set bits among the mask's lowest `i` bits.
pub open spec fn bits_below(mask: u16, i: nat) -> nat
    decreases i,
{
    if i == 0 {
        0
    } else {
        bits_below(mask, (i - 1) as nat) + (if mask & (1u16 << ((i - 1) as u16)) != 0 {
            1nat
        } else {
            0nat
        })
    }
}

/// Counting set bits over more of the mask never counts fewer.
pub proof fn lemma_bits_below_mono(mask: u16, i: nat, j: nat)
    requires
        i <= j,
    ensures
        bits_below(mask, i) <= bits_below(mask, j),
    decreases j - i,
{
    if i < j {
        lemma_bits_below_mono(mask, i, (j - 1) as nat);
    }
}

/// The nine channel slots read back from a point record: a present
/// channel's four big-endian bytes sit after the bytes of the present
/// channels below it; an absent channel's slot is zero.
pub open spec fn spec_dyn_data(data: Seq<u8>, base: int, mask: u16) -> Seq<u32> {
    Seq::new(
        DYNAMIC_DATA_COUNT as nat,
        |i: int|
            if mask & (1u16 << (i as u16)) != 0 {
                u32_be_of(
                    data.subrange(
                        base + 4 * bits_below(mask, i as nat),
                        base + 4 * bits_below(mask, i as nat) + 4,
                    ),
                )
            } else {
                0u32
            },
    )
}

/// The remaining stream decoded into segments, under the rolling
/// reference, given a segment possibly still open and the segments
/// finished so far. A start record opens a segment, each point joins the
/// open one, a sync only re-anchors the reference, and an end record
/// closes the open segment with the time it carries as the end time. A
/// point or an end with no segment open, and a start inside one, is a
/// format error; a stream that ends with a segment still open is
/// truncated. An exhausted stream with no segment open ends decoding
/// normally.
pub open spec fn spec_read_segments(
    data: Seq<u8>,
    pos: int,
    reference: Timestamp,
    open: Option<SpecSegment>,
    done: Seq<SpecSegment>,
) -> Result<Seq<SpecSegment>, CodecError>
    decreases data.len() - pos,
    when 0 <= pos <= data.len()
{
    if pos == data.len() {
        if open is Some {
            Err(CodecError::TruncatedStream)
        } else {
            Ok(done)
        }
    } else {
        match spec_read_record(data, pos, reference) {
            Err(e) => Err(e),
            Ok((ev, ref2, end)) => if !(pos < end <= data.len()) {
                Err(CodecError::TruncatedStream)
            } else {
                match ev {
                    SpecEvent::Point(p) => match open {
                        Some(s) => spec_read_segments(
                            data,
                            end,
                            ref2,
                            Some(SpecSegment { points: s.points.push(p), ..s }),
                            done,
                        ),
                        None => Err(CodecError::UnexpectedRecord),
                    },
                    SpecEvent::SegmentStart { time, activity_type } => match open {
                        None => spec_read_segments(
                            data,
                            end,
                            ref2,
                            Some(
                                SpecSegment {
                                    activity_type,
                                    start_time: time,
                                    end_time: time,
                                    points: Seq::empty(),
                                },
                            ),
                            done,
                        ),
                        Some(_) => Err(CodecError::UnexpectedRecord),
                    },
                    SpecEvent::SegmentEnd { time } => match open {
                        Some(s) => spec_read_segments(
                            data,
                            end,
                            ref2,
                            None,
                            done.push(SpecSegment { end_time: time, ..s }),
                        ),
                        None => Err(CodecError::UnexpectedRecord),
                    },
                    SpecEvent::Sync { .. } => spec_read_segments(data, end, ref2, open, done),
                }
            },
        }
    }
}

/// One decoded record, at the specification level.
pub enum SpecEvent {
    Point(SpecPoint),
    SegmentStart { time: Timestamp, activity_type: ActivityType },
    SegmentEnd { time: Timestamp },
    Sync { time: Timestamp },
}

/// One record at a position, under the rolling reference: the decoded
/// event, the reference after it, and the position after it; or the
/// exact decode error. A decoded point's instant is the reference plus
/// the record's delta byte, carrying the reference's offset.
pub open spec fn spec_read_record(data: Seq<u8>, pos: int, reference: Timestamp) -> Result<
    (SpecEvent, Timestamp, int),
    CodecError,
>
    recommends
        0 <= pos < data.len(),
{
    let marker = data[pos];
    if marker == DataPoint::TrackPoint.ordinal() {
        if pos + 12 <= data.len() {
            let lon = u32_be_of(data.subrange(pos + 1, pos + 5));
            let lat = u32_be_of(data.subrange(pos + 5, pos + 9));
            let delta = data[pos + 9];
            let mask = u16_be_of(data.subrange(pos + 10, pos + 12));
            if mask >= DYNAMIC_DATA_MASK_LIMIT {
                Err(CodecError::InvalidMask(mask))
            } else {
                let k = bits_below(mask, DYNAMIC_DATA_COUNT as nat);
                if pos + 12 + 4 * k <= data.len() {
                    let p = SpecPoint {
                        point: QuantizedPoint { lon, lat },
                        timestamp: Timestamp {
                            epoch_seconds: (reference.epoch_seconds + delta) as u64,
                            offset_minutes: reference.offset_minutes,
                        },
                        mask,
                        data: spec_dyn_data(data, pos + 12, mask),
                    };
                    Ok((SpecEvent::Point(p), reference, pos + 12 + 4 * k))
                } else {
                    Err(CodecError::TruncatedStream)
                }
            }
        } else {
            Err(CodecError::TruncatedStream)
        }
    } else if marker == DataPoint::StartSegment.ordinal() {
        match spec_read_fat_time(data, pos + 1) {
            None => Err(CodecError::TruncatedStream),
            Some((time, p1)) => {
                if p1 < data.len() {
                    let b = data[p1];
                    if b < ACTIVITY_TYPE_COUNT {
                        Ok(
                            (
                                SpecEvent::SegmentStart {
                                    time,
                                    activity_type: ActivityType::spec_from_byte(b),
                                },
                                time,
                                p1 + 1,
                            ),
                        )
                    } else {
                        Err(CodecError::InvalidActivityType(b))
                    }
                } else {
                    Err(CodecError::TruncatedStream)
                }
            },
        }
    } else if marker == DataPoint::EndSegment.ordinal() {
        match spec_read_fat_time(data, pos + 1) {
            None => Err(CodecError::TruncatedStream),
            Some((time, p1)) => Ok((SpecEvent::SegmentEnd { time }, reference, p1)),
        }
    } else if marker == DataPoint::TimeSync.ordinal() {
        match spec_read_fat_time(data, pos + 1) {
            None => Err(CodecError::TruncatedStream),
            Some((time, p1)) => Ok((SpecEvent::Sync { time }, time, p1)),
        }
    } else {
        Err(CodecError::InvalidDataPoint(marker))
    }
}

/// Unfold one step of the segment-assembly recursion (for the decode
/// loop's invariant).
proof fn lemma_step(
    data: Seq<u8>,
    pos: int,
    reference: Timestamp,
    open: Option<SpecSegment>,
    done: Seq<SpecSegment>,
)
    requires
        0 <= pos < data.len(),
    ensures
        spec_read_segments(data, pos, reference, open, done) == (match spec_read_record(
            data,
            pos,
            reference,
        ) {
            Err(e) => Err::<Seq<SpecSegment>, CodecError>(e),
            Ok((ev, ref2, end)) => if !(pos < end <= data.len()) {
                Err(CodecError::TruncatedStream)
            } else {
                match ev {
                    SpecEvent::Point(p) => match open {
                        Some(s) => spec_read_segments(
                            data,
                            end,
                            ref2,
                            Some(SpecSegment { points: s.points.push(p), ..s }),
                            done,
                        ),
                        None => Err(CodecError::UnexpectedRecord),
                    },
                    SpecEvent::SegmentStart { time, activity_type } => match open {
                        None => spec_read_segments(
                            data,
                            end,
                            ref2,
                            Some(
                                SpecSegment {
                                    activity_type,
                                    start_time: time,
                                    end_time: time,
                                    points: Seq::empty(),
                                },
                            ),
                            done,
                        ),
                        Some(_) => Err(CodecError::UnexpectedRecord),
                    },
                    SpecEvent::SegmentEnd { time } => match open {
                        Some(s) => spec_read_segments(
                            data,
                            end,
                            ref2,
                            None,
                            done.push(SpecSegment { end_time: time, ..s }),
                        ),
                        None => Err(CodecError::UnexpectedRecord),
                    },
                    SpecEvent::Sync { .. } => spec_read_segments(data, end, ref2, open, done),
                }
            },
        }),
{
}

/// The open segment of the decode loop, at the specification level.
pub open spec fn open_view(open: Option<Segment>) -> Option<SpecSegment> {
    match open {
        Some(s) => Some(s@),
        None => None,
    }
}

/// The segments of a vector, at the specification level.
pub open spec fn segments_view(v: Vec<Segment>) -> Seq<SpecSegment> {
    v@.map_values(|s: Segment| s@)
}

/// One decoded record: a point to append, a segment boundary, or a time
/// re-anchoring (which yields no point of its own).
#[derive(Debug)]
pub enum RecordEvent {
    Point(TrackPoint),
    SegmentStart { time: Timestamp, activity_type: ActivityType },
    SegmentEnd { time: Timestamp },
    Sync { time: Timestamp },
}

impl View for RecordEvent {
    type V = SpecEvent;

    open spec fn view(&self) -> SpecEvent {
        match self {
            RecordEvent::Point(p) => SpecEvent::Point(p@),
            RecordEvent::SegmentStart { time, activity_type } => SpecEvent::SegmentStart {
                time: *time,
                activity_type: *activity_type,
            },
            RecordEvent::SegmentEnd { time } => SpecEvent::SegmentEnd { time: *time },
            RecordEvent::Sync { time } => SpecEvent::Sync { time: *time },
        }
    }
}

/// The stateful decoder: holds the rolling reference time for one
/// stream. One instance serves exactly one stream on one thread; it is
/// not safe to share across threads without outside synchronization.
pub struct TrackReader {
    reference_time: Timestamp,
}

impl TrackReader {
    /// The rolling reference the next delta byte is resolved against.
    pub closed spec fn reference(self) -> Timestamp {
        self.reference_time
    }

    /// The reference always comes off a fat time, so it fits the
    /// five-byte seconds field.
    pub open spec fn wf(self) -> bool {
        self.reference().wf()
    }

    /// Read seven fat-time bytes at the cursor; fails exactly when fewer
    /// than seven are left.
    pub fn read_fat_time(data: &[u8], pos: &mut usize) -> (r: Result<Timestamp, CodecError>)
        requires
            *old(pos) <= data@.len(),
        ensures
            match r {
                Ok(t) => spec_read_fat_time(data@, *old(pos) as int) matches Some(ft) && t == ft.0
                    && *final (pos) == ft.1 && t.wf(),
                Err(e) => spec_read_fat_time(data@, *old(pos) as int) is None && e
                    == CodecError::TruncatedStream && *final (pos) == *old(pos),
            },
    {
        if data.len() - *pos < 7 {
            return Err(CodecError::TruncatedStream);
        }
        let p = *pos;
        let e = ((data[p] as u64) << 32) | ((data[p + 1] as u64) << 24) | ((data[p
            + 2] as u64) << 16) | ((data[p + 3] as u64) << 8) | (data[p + 4] as u64);
        let o = ((data[p + 5] as u16) << 8) | (data[p + 6] as u16);
        let t = Timestamp { epoch_seconds: e, offset_minutes: o };
        proof {
            crate::time::lemma_fat_time_of_wf(data@.subrange(p as int, p + 7));
            assert(t == fat_time_of(data@.subrange(p as int, p + 7)));
        }
        *pos = p + 7;
        Ok(t)
    }

    /// Read one activity-type byte at the cursor.
    pub fn read_activity_type(data: &[u8], pos: &mut usize) -> (r: Result<
        ActivityType,
        CodecError,
    >)
        requires
            *old(pos) <= data@.len(),
        ensures
            match r {
                Ok(a) => *old(pos) < data@.len() && data@[*old(pos) as int] < ACTIVITY_TYPE_COUNT
                    && a == ActivityType::spec_from_byte(data@[*old(pos) as int]) && *final (pos)
                    == *old(pos) + 1,
                Err(e) => *final (pos) == *old(pos) && (if *old(pos) == data@.len() {
                    e == CodecError::TruncatedStream
                } else {
                    data@[*old(pos) as int] >= ACTIVITY_TYPE_COUNT && e
                        == CodecError::InvalidActivityType(data@[*old(pos) as int])
                }),
            },
    {
        let mut p = *pos;
        let b = match read_u8(data, &mut p) {
            Ok(b) => b,
            Err(e) => {
                return Err(e);
            },
        };
        match ActivityType::from_byte(b) {
            Ok(a) => {
                *pos = p;
                Ok(a)
            },
            Err(e) => Err(e),
        }
    }

    /// Read one length-prefixed string record at the cursor and decode
    /// its text bytes lossily: invalid sequences become replacement
    /// characters, never an error.
    pub fn read_string(data: &[u8], pos: &mut usize) -> (r: Result<String, CodecError>)
        requires
            *old(pos) <= data@.len(),
        ensures
            match r {
                Ok(s) => spec_read_string(data@, *old(pos) as int) matches Some(t) && s@
                    == lossy_utf8(t.0) && (vstd::utf8::valid_utf8(t.0) ==> s@
                    == vstd::utf8::decode_utf8(t.0)) && *final (pos) == t.1,
                Err(e) => spec_read_string(data@, *old(pos) as int) is None && e
                    == CodecError::TruncatedStream && *final (pos) == *old(pos),
            },
    {
        let mut p = *pos;
        let n = match read_u8(data, &mut p) {
            Ok(b) => b,
            Err(e) => {
                return Err(e);
            },
        };
        if data.len() - p < n as usize {
            return Err(CodecError::TruncatedStream);
        }
        let chunk = vstd::slice::slice_subrange(data, p, p + n as usize);
        let s = bytes_to_string_lossy(chunk);
        *pos = p + n as usize;
        Ok(s)
    }

    /// Read the header at the cursor and hand back a live reader
    /// anchored at the header's time, together with the header.
    pub fn start_reading(data: &[u8], pos: &mut usize) -> (r: Result<
        (TrackReader, Header),
        CodecError,
    >)
        requires
            *old(pos) <= data@.len(),
        ensures
            match r {
                Ok((reader, header)) => spec_read_header(data@, *old(pos) as int) matches Ok(h)
                    && header.time == h.0 && header.activity_type == ActivityType::spec_from_byte(
                    h.1,
                ) && header.title@ == lossy_utf8(h.2) && header.description@ == lossy_utf8(h.3)
                    && header.device@ == lossy_utf8(h.4) && (vstd::utf8::valid_utf8(h.2)
                    ==> header.title@ == vstd::utf8::decode_utf8(h.2)) && (vstd::utf8::valid_utf8(
                    h.3,
                ) ==> header.description@ == vstd::utf8::decode_utf8(h.3)) && (
                vstd::utf8::valid_utf8(h.4) ==> header.device@ == vstd::utf8::decode_utf8(h.4))
                    && *final (pos) == h.5 && reader.reference() == h.0 && reader.wf(),
                Err(e) => spec_read_header(data@, *old(pos) as int) == Err::<
                    (Timestamp, u8, Seq<u8>, Seq<u8>, Seq<u8>, int),
                    CodecError,
                >(e) && *final (pos) == *old(pos),
            },
    {
        let mut p = *pos;
        let time = match Self::read_fat_time(data, &mut p) {
            Ok(t) => t,
            Err(e) => {
                return Err(e);
            },
        };
        let activity_type = match Self::read_activity_type(data, &mut p) {
            Ok(a) => a,
            Err(e) => {
                return Err(e);
            },
        };
        let title = match Self::read_string(data, &mut p) {
            Ok(s) => s,
            Err(e) => {
                return Err(e);
            },
        };
        let description = match Self::read_string(data, &mut p) {
            Ok(s) => s,
            Err(e) => {
                return Err(e);
            },
        };
        let device = match Self::read_string(data, &mut p) {
            Ok(s) => s,
            Err(e) => {
                return Err(e);
            },
        };
        let header = Header { time, activity_type, title, description, device };
        *pos = p;
        Ok((TrackReader { reference_time: time }, header))
    }

    /// Read one record at the cursor and apply its effect on the rolling
    /// reference. At the end of the stream (no marker byte left) nothing
    /// is read; a marker followed by an incomplete record is a format
    /// error, not an end of stream.
    pub fn read_record(&mut self, data: &[u8], pos: &mut usize) -> (r: Result<
        Option<RecordEvent>,
        CodecError,
    >)
        requires
            old(self).wf(),
            *old(pos) <= data@.len(),
        ensures
            final (self).wf(),
            match r {
                Ok(opt) => match opt {
                    None => *old(pos) == data@.len() && *final (pos) == *old(pos) && *final (self)
                        == *old(self),
                    Some(ev) => {
                        &&& *old(pos) < data@.len()
                        &&& spec_read_record(data@, *old(pos) as int, old(self).reference())
                            matches Ok(t)
                        &&& ev@ == t.0
                        &&& final (self).reference() == t.1
                        &&& *final (pos) == t.2
                        &&& *old(pos) < t.2 <= data@.len()
                        &&& (ev@ matches SpecEvent::Point(p) ==> p.wf())
                    },
                },
                Err(e) => *old(pos) < data@.len() && spec_read_record(
                    data@,
                    *old(pos) as int,
                    old(self).reference(),
                ) == Err::<(SpecEvent, Timestamp, int), CodecError>(e) && *final (pos) == *old(pos)
                    && *final (self) == *old(self),
            },
    {
        if *pos == data.len() {
            return Ok(None);
        }
        let ghost s = *pos as int;
        let mut p = *pos;
        let marker = data[p];
        p += 1;
        let dp = match DataPoint::from_byte(marker) {
            Ok(d) => d,
            Err(e) => {
                return Err(e);
            },
        };
        match dp {
            DataPoint::TrackPoint => {
                if data.len() - p < 11 {
                    return Err(CodecError::TruncatedStream);
                }
                let lon = ((data[p] as u32) << 24) | ((data[p + 1] as u32) << 16) | ((data[p
                    + 2] as u32) << 8) | (data[p + 3] as u32);
                let lat = ((data[p + 4] as u32) << 24) | ((data[p + 5] as u32) << 16) | ((data[p
                    + 6] as u32) << 8) | (data[p + 7] as u32);
                let delta = data[p + 8];
                let mask = ((data[p + 9] as u16) << 8) | (data[p + 10] as u16);
                p += 11;
                proof {
                    assert(lon == u32_be_of(data@.subrange(s + 1, s + 5)));
                    assert(lat == u32_be_of(data@.subrange(s + 5, s + 9)));
                    assert(mask == u16_be_of(data@.subrange(s + 10, s + 12)));
                }
                if mask >= DYNAMIC_DATA_MASK_LIMIT {
                    return Err(CodecError::InvalidMask(mask));
                }
                let mut k: usize = 0;
                let mut i: u16 = 0;
                while i < DYNAMIC_DATA_COUNT as u16
                    invariant
                        i <= DYNAMIC_DATA_COUNT as u16,
                        k == bits_below(mask, i as nat),
                        k <= i,
                    decreases DYNAMIC_DATA_COUNT - i,
                {
                    if mask & (1u16 << i) != 0 {
                        k += 1;
                    }
                    i += 1;
                }
                if data.len() - p < 4 * k {
                    return Err(CodecError::TruncatedStream);
                }
                let ts = Timestamp {
                    epoch_seconds: self.reference_time.epoch_seconds + delta as u64,
                    offset_minutes: self.reference_time.offset_minutes,
                };
                let mut slots: Vec<u32> = vec![0u32; DYNAMIC_DATA_COUNT];
                let ghost base = p as int;
                let mut j: usize = 0;
                while j < DYNAMIC_DATA_COUNT
                    invariant
                        j <= DYNAMIC_DATA_COUNT,
                        slots@.len() == DYNAMIC_DATA_COUNT,
                        mask < DYNAMIC_DATA_MASK_LIMIT,
                        p == base + 4 * bits_below(mask, j as nat),
                        base + 4 * bits_below(mask, DYNAMIC_DATA_COUNT as nat) <= data@.len(),
                        p <= data@.len(),
                        forall|t: int|
                            0 <= t < j ==> slots@[t] == spec_dyn_data(data@, base, mask)[t],
                        forall|t: int| j <= t < DYNAMIC_DATA_COUNT ==> slots@[t] == 0,
                    decreases DYNAMIC_DATA_COUNT - j,
                {
                    if mask & (1u16 << (j as u16)) != 0 {
                        proof {
                            lemma_bits_below_mono(mask, (j + 1) as nat, DYNAMIC_DATA_COUNT as nat);
                        }
                        let w = ((data[p] as u32) << 24) | ((data[p + 1] as u32) << 16) | ((data[p
                            + 2] as u32) << 8) | (data[p + 3] as u32);
                        slots.set(j, w);
                        p += 4;
                        proof {
                            let lo = base + 4 * bits_below(mask, j as nat);
                            assert(w == u32_be_of(data@.subrange(lo, lo + 4)));
                        }
                    }
                    j += 1;
                }
                let point = TrackPoint::from_wire(QuantizedPoint { lon, lat }, ts, mask, slots);
                proof {
                    assert(point@.data =~= spec_dyn_data(data@, base, mask));
                }
                *pos = p;
                Ok(Some(RecordEvent::Point(point)))
            },
            DataPoint::StartSegment => {
                let time = match Self::read_fat_time(data, &mut p) {
                    Ok(t) => t,
                    Err(e) => {
                        return Err(e);
                    },
                };
                let activity_type = match Self::read_activity_type(data, &mut p) {
                    Ok(a) => a,
                    Err(e) => {
                        return Err(e);
                    },
                };
                self.reference_time = time;
                *pos = p;
                Ok(Some(RecordEvent::SegmentStart { time, activity_type }))
            },
            DataPoint::EndSegment => {
                let time = match Self::read_fat_time(data, &mut p) {
                    Ok(t) => t,
                    Err(e) => {
                        return Err(e);
                    },
                };
                *pos = p;
                Ok(Some(RecordEvent::SegmentEnd { time }))
            },
            DataPoint::TimeSync => {
                let time = match Self::read_fat_time(data, &mut p) {
                    Ok(t) => t,
                    Err(e) => {
                        return Err(e);
                    },
                };
                self.reference_time = time;
                *pos = p;
                Ok(Some(RecordEvent::Sync { time }))
            },
        }
    }

    /// Decode records until the end of the stream, assembling the
    /// segments in order. On success the whole input from the cursor on
    /// was consumed and every returned segment is well formed.
    #[verifier::loop_isolation(false)]
    pub fn read_segments(&mut self, data: &[u8], pos: &mut usize) -> (r: Result<
        Vec<Segment>,
        CodecError,
    >)
        requires
            old(self).wf(),
            *old(pos) <= data@.len(),
        ensures
            final (self).wf(),
            match r {
                Ok(segments) => {
                    &&& spec_read_segments(
                        data@,
                        *old(pos) as int,
                        old(self).reference(),
                        None::<SpecSegment>,
                        Seq::empty(),
                    ) == Ok::<Seq<SpecSegment>, CodecError>(segments_view(segments))
                    &&& *final (pos) == data@.len()
                    &&& forall|i: int| 0 <= i < segments@.len() ==> (#[trigger] segments@[i]).wf()
                },
                Err(e) => spec_read_segments(
                    data@,
                    *old(pos) as int,
                    old(self).reference(),
                    None::<SpecSegment>,
                    Seq::empty(),
                ) == Err::<Seq<SpecSegment>, CodecError>(e),
            },
    {
        let ghost pos0 = *pos as int;
        let ghost ref0 = self.reference();
        proof {
            assert(pos0 == *old(pos) as int);
            assert(ref0 == old(self).reference());
        }
        let mut segments: Vec<Segment> = Vec::new();
        let mut open: Option<Segment> = None;
        proof {
            assert(segments_view(segments) =~= Seq::<SpecSegment>::empty());
        }
        loop
            invariant
                self.wf(),
                *pos <= data@.len(),
                spec_read_segments(data@, pos0, ref0, None::<SpecSegment>, Seq::empty())
                    == spec_read_segments(
                    data@,
                    *pos as int,
                    self.reference(),
                    open_view(open),
                    segments_view(segments),
                ),
                open matches Some(s) ==> s.wf(),
                forall|i: int| 0 <= i < segments@.len() ==> (#[trigger] segments@[i]).wf(),
            decreases data@.len() - *pos,
        {
            let ghost prev_pos = *pos as int;
            let ghost prev_ref = self.reference();
            let ghost prev_open = open_view(open);
            let ghost prev_done = segments_view(segments);
            match self.read_record(data, pos) {
                Err(e) => {
                    proof {
                        assert(spec_read_segments(data@, prev_pos, prev_ref, prev_open, prev_done)
                            == Err::<Seq<SpecSegment>, CodecError>(e));
                    }
                    return Err(e);
                },
                Ok(None) => {
                    match open {
                        Some(_) => {
                            proof {
                                assert(spec_read_segments(
                                    data@,
                                    prev_pos,
                                    prev_ref,
                                    prev_open,
                                    prev_done,
                                ) == Err::<Seq<SpecSegment>, CodecError>(
                                    CodecError::TruncatedStream,
                                ));
                            }
                            return Err(CodecError::TruncatedStream);
                        },
                        None => {
                            proof {
                                assert(spec_read_segments(
                                    data@,
                                    prev_pos,
                                    prev_ref,
                                    prev_open,
                                    prev_done,
                                ) == Ok::<Seq<SpecSegment>, CodecError>(prev_done));
                            }
                            return Ok(segments);
                        },
                    }
                },
                Ok(Some(ev)) => {
                    proof {
                        let t = spec_read_record(data@, prev_pos, prev_ref)->Ok_0;
                        assert(ev@ == t.0 && self.reference() == t.1 && *pos == t.2);
                    }
                    match ev {
                        RecordEvent::Point(p) => {
                            match open {
                                Some(mut s) => {
                                    let ghost sv = s@;
                                    s.points.push(p);
                                    proof {
                                        assert(s@.points =~= sv.points.push(p@));
                                        assert(s@ == SpecSegment { points: sv.points.push(p@), ..sv });
                                    }
                                    open = Some(s);
                                    proof {
                                        lemma_step(data@, prev_pos, prev_ref, prev_open, prev_done);
                                        assert(spec_read_segments(
                                            data@,
                                            prev_pos,
                                            prev_ref,
                                            prev_open,
                                            prev_done,
                                        ) == spec_read_segments(
                                            data@,
                                            *pos as int,
                                            self.reference(),
                                            open_view(open),
                                            segments_view(segments),
                                        ));
                                    }
                                },
                                None => {
                                    proof {
                                        lemma_step(data@, prev_pos, prev_ref, prev_open, prev_done);
                                    }
                                    return Err(CodecError::UnexpectedRecord);
                                },
                            }
                        },
                        RecordEvent::SegmentStart { time, activity_type } => {
                            match open {
                                None => {
                                    let fresh = Segment {
                                        activity_type,
                                        start_time: time,
                                        end_time: time,
                                        points: Vec::new(),
                                    };
                                    proof {
                                        assert(fresh@.points =~= Seq::<SpecPoint>::empty());
                                    }
                                    open = Some(fresh);
                                    proof {
                                        lemma_step(data@, prev_pos, prev_ref, prev_open, prev_done);
                                        assert(spec_read_segments(
                                            data@,
                                            prev_pos,
                                            prev_ref,
                                            prev_open,
                                            prev_done,
                                        ) == spec_read_segments(
                                            data@,
                                            *pos as int,
                                            self.reference(),
                                            open_view(open),
                                            segments_view(segments),
                                        ));
                                    }
                                },
                                Some(_) => {
                                    proof {
                                        lemma_step(data@, prev_pos, prev_ref, prev_open, prev_done);
                                    }
                                    return Err(CodecError::UnexpectedRecord);
                                },
                            }
                        },
                        RecordEvent::SegmentEnd { time } => {
                            match open {
                                Some(mut s) => {
                                    let ghost sv = s@;
                                    s.end_time = time;
                                    segments.push(s);
                                    open = None;
                                    proof {
                                        assert(segments_view(segments) =~= prev_done.push(
                                            SpecSegment { end_time: time, ..sv },
                                        ));
                                        lemma_step(data@, prev_pos, prev_ref, prev_open, prev_done);
                                        assert(spec_read_segments(
                                            data@,
                                            prev_pos,
                                            prev_ref,
                                            prev_open,
                                            prev_done,
                                        ) == spec_read_segments(
                                            data@,
                                            *pos as int,
                                            self.reference(),
                                            open_view(open),
                                            segments_view(segments),
                                        ));
                                    }
                                },
                                None => {
                                    proof {
                                        lemma_step(data@, prev_pos, prev_ref, prev_open, prev_done);
                                    }
                                    return Err(CodecError::UnexpectedRecord);
                                },
                            }
                        },
                        RecordEvent::Sync { .. } => {
                            proof {
                                lemma_step(data@, prev_pos, prev_ref, prev_open, prev_done);
                                assert(spec_read_segments(
                                    data@,
                                    prev_pos,
                                    prev_ref,
                                    prev_open,
                                    prev_done,
                                ) == spec_read_segments(
                                    data@,
                                    *pos as int,
                                    self.reference(),
                                    open_view(open),
                                    segments_view(segments),
                                ));
                            }
                        },
                    }
                },
            }
        }
    }
}

/// What the header writer emits, the header parse recovers: for an
/// anchor time that fits the five-byte seconds field and string fields
/// of at most 255 text bytes each, parsing the written header yields the
/// same time, the activity-type byte and the exact text bytes, and
/// consumes the whole record.
pub proof fn lemma_header_round_trip(time: Timestamp, h: Header)
    requires
        time.wf(),
        vstd::utf8::encode_utf8(h.title@).len() <= 255,
        vstd::utf8::encode_utf8(h.description@).len() <= 255,
        vstd::utf8::encode_utf8(h.device@).len() <= 255,
    ensures
        spec_read_header(crate::writer::header_bytes(time, h), 0) == Ok::<
            (Timestamp, u8, Seq<u8>, Seq<u8>, Seq<u8>, int),
            CodecError,
        >(
            (
                time,
                h.activity_type.ordinal(),
                vstd::utf8::encode_utf8(h.title@),
                vstd::utf8::encode_utf8(h.description@),
                vstd::utf8::encode_utf8(h.device@),
                crate::writer::header_bytes(time, h).len() as int,
            ),
        ),
{
    let b = crate::writer::header_bytes(time, h);
    let tb = vstd::utf8::encode_utf8(h.title@);
    let db = vstd::utf8::encode_utf8(h.description@);
    let vb = vstd::utf8::encode_utf8(h.device@);
    assert(string_record(tb) =~= seq![tb.len() as u8] + tb);
    assert(string_record(db) =~= seq![db.len() as u8] + db);
    assert(string_record(vb) =~= seq![vb.len() as u8] + vb);
    assert(fat_time_bytes(time).len() == 7);
    assert(string_record(tb).len() == 1 + tb.len());
    assert(string_record(db).len() == 1 + db.len());
    assert(string_record(vb).len() == 1 + vb.len());
    assert(b.len() == 11 + tb.len() + db.len() + vb.len());
    assert(b.subrange(0, 7) =~= fat_time_bytes(time));
    crate::time::lemma_fat_time_round_trip(time);
    assert(b[7] == h.activity_type.ordinal());
    assert(h.activity_type.ordinal() < ACTIVITY_TYPE_COUNT);
    assert(b[8] == tb.len() as u8);
    assert(b.subrange(9, 9 + tb.len() as int) =~= tb);
    let p2 = 9 + tb.len() as int;
    assert(b[p2] == db.len() as u8);
    assert(b.subrange(p2 + 1, p2 + 1 + db.len() as int) =~= db);
    let p3 = p2 + 1 + db.len() as int;
    assert(b[p3] == vb.len() as u8);
    assert(b.subrange(p3 + 1, p3 + 1 + vb.len() as int) =~= vb);
}

/// A point as the decoder returns it: the same position, instant and
/// mask; absent channel slots zeroed, whatever leftover data they held.
pub open spec fn decoded_point(p: SpecPoint) -> SpecPoint {
    SpecPoint {
        point: p.point,
        timestamp: p.timestamp,
        mask: p.mask,
        data: Seq::new(
            DYNAMIC_DATA_COUNT as nat,
            |i: int|
                if p.mask & (1u16 << (i as u16)) != 0 {
                    p.data[i]
                } else {
                    0u32
                },
        ),
    }
}

/// The channel bytes from ordinal `i` up hold four bytes for each
/// remaining present channel.
proof fn lemma_dyn_from_len(mask: u16, data: Seq<u32>, i: nat)
    requires
        i <= DYNAMIC_DATA_COUNT,
    ensures
        bits_below(mask, i) <= bits_below(mask, DYNAMIC_DATA_COUNT as nat),
        dyn_data_bytes_from(mask, data, i).len() == 4 * (bits_below(
            mask,
            DYNAMIC_DATA_COUNT as nat,
        ) - bits_below(mask, i)),
    decreases DYNAMIC_DATA_COUNT - i,
{
    if i < DYNAMIC_DATA_COUNT as nat {
        lemma_dyn_from_len(mask, data, i + 1);
    }
}

/// Where a stream holds the writer's channel bytes, each present
/// channel's word reads back from its slot's offset.
proof fn lemma_dyn_parse(s: Seq<u8>, base: int, mask: u16, d: Seq<u32>, i: nat)
    requires
        i <= DYNAMIC_DATA_COUNT,
        0 <= base + 4 * bits_below(mask, i),
        base + 4 * bits_below(mask, DYNAMIC_DATA_COUNT as nat) <= s.len(),
        s.subrange(
            base + 4 * bits_below(mask, i),
            base + 4 * bits_below(mask, DYNAMIC_DATA_COUNT as nat),
        ) == dyn_data_bytes_from(mask, d, i),
    ensures
        forall|j: nat|
            i <= j < DYNAMIC_DATA_COUNT && mask & (1u16 << (j as u16)) != 0 ==> u32_be_of(
                s.subrange(base + 4 * bits_below(mask, j), base + 4 * bits_below(mask, j) + 4),
            ) == d[j as int],
    decreases DYNAMIC_DATA_COUNT - i,
{
    if i < DYNAMIC_DATA_COUNT as nat {
        let lo = base + 4 * bits_below(mask, i);
        let lo1 = base + 4 * bits_below(mask, i + 1);
        let hi = base + 4 * bits_below(mask, DYNAMIC_DATA_COUNT as nat);
        lemma_dyn_from_len(mask, d, i);
        lemma_dyn_from_len(mask, d, i + 1);
        if mask & (1u16 << (i as u16)) != 0 {
            assert(s.subrange(lo, hi) == u32_be_bytes(d[i as int]) + dyn_data_bytes_from(
                mask,
                d,
                i + 1,
            ));
            assert(s.subrange(lo, lo + 4) =~= u32_be_bytes(d[i as int]));
            crate::records::lemma_u32_be_round_trip(d[i as int]);
            assert forall|m: int| 0 <= m < hi - lo1 implies s.subrange(lo1, hi)[m]
                == dyn_data_bytes_from(mask, d, i + 1)[m] by {
                assert(s.subrange(lo, hi)[m + 4] == (u32_be_bytes(d[i as int])
                    + dyn_data_bytes_from(mask, d, i + 1))[m + 4]);
            }
        }
        assert(s.subrange(lo1, hi) =~= dyn_data_bytes_from(mask, d, i + 1));
        lemma_dyn_parse(s, base, mask, d, i + 1);
    }
}

/// A present channel's bit sits below the mask limit exactly when the
/// mask does; spelled out for the decoder's slot description.
proof fn lemma_decoded_point_data(s: Seq<u8>, base: int, p: SpecPoint)
    requires
        p.wf(),
        0 <= base,
        base + 4 * bits_below(p.mask, DYNAMIC_DATA_COUNT as nat) <= s.len(),
        s.subrange(base, base + 4 * bits_below(p.mask, DYNAMIC_DATA_COUNT as nat))
            == dyn_data_bytes(p.mask, p.data),
    ensures
        spec_dyn_data(s, base, p.mask) == decoded_point(p).data,
{
    lemma_dyn_parse(s, base, p.mask, p.data, 0);
    assert(spec_dyn_data(s, base, p.mask) =~= decoded_point(p).data);
}

/// Whether the delta-time encoding can recover the point's instant from
/// the given reference: a time sync carries it exactly; otherwise the
/// delta must fit its byte without clamping and the point must share the
/// reference's offset (thin time carries no offset of its own).
pub open spec fn point_recoverable(p: SpecPoint, reference: Timestamp) -> bool {
    p.wf() && p.timestamp.wf() && (needs_sync(p, reference) || (0 <= spec_delta(
        p,
        reference,
    ) && p.timestamp.offset_minutes == reference.offset_minutes))
}

/// The track-point record proper parses back to the point it encodes,
/// when the reference and delta recover the point's instant.
proof fn lemma_point_body_parse(s: Seq<u8>, pos: int, p: SpecPoint, delta: u8, reference: Timestamp)
    requires
        p.wf(),
        reference.wf(),
        reference.epoch_seconds + delta == p.timestamp.epoch_seconds,
        reference.offset_minutes == p.timestamp.offset_minutes,
        0 <= pos,
        pos + point_body_bytes(p, delta).len() <= s.len(),
        s.subrange(pos, pos + point_body_bytes(p, delta).len() as int) == point_body_bytes(
            p,
            delta,
        ),
    ensures
        spec_read_record(s, pos, reference) == Ok::<(SpecEvent, Timestamp, int), CodecError>(
            (
                SpecEvent::Point(decoded_point(p)),
                reference,
                pos + point_body_bytes(p, delta).len() as int,
            ),
        ),
{
    let body = point_body_bytes(p, delta);
    let k = bits_below(p.mask, DYNAMIC_DATA_COUNT as nat);
    lemma_dyn_from_len(p.mask, p.data, 0);
    assert(body.len() == 12 + 4 * k);
    assert forall|n: int| pos <= n < pos + body.len() implies s[n] == body[n - pos] by {
        assert(s.subrange(pos, pos + body.len() as int)[n - pos] == body[n - pos]);
    }
    assert(s[pos] == DataPoint::TrackPoint.ordinal());
    assert(s.subrange(pos + 1, pos + 5) =~= u32_be_bytes(p.point.lon));
    assert(s.subrange(pos + 5, pos + 9) =~= u32_be_bytes(p.point.lat));
    crate::records::lemma_u32_be_round_trip(p.point.lon);
    crate::records::lemma_u32_be_round_trip(p.point.lat);
    assert(s[pos + 9] == delta);
    assert(s.subrange(pos + 10, pos + 12) =~= u16_be_bytes(p.mask));
    crate::records::lemma_u16_be_round_trip(p.mask);
    assert(s.subrange(pos + 12, pos + 12 + 4 * k) =~= dyn_data_bytes(p.mask, p.data));
    lemma_decoded_point_data(s, pos + 12, p);
    assert(decoded_point(p).timestamp == Timestamp {
        epoch_seconds: (reference.epoch_seconds + delta) as u64,
        offset_minutes: reference.offset_minutes,
    });
}

/// What the point writer emits, the record parse recovers: under a
/// reference the point is recoverable from, the stream yields the point
/// back (absent slots zeroed), behind a time sync exactly when the
/// writer emitted one.
pub proof fn lemma_point_record_parse(s: Seq<u8>, pos: int, p: SpecPoint, reference: Timestamp)
    requires
        point_recoverable(p, reference),
        reference.wf(),
        0 <= pos,
        pos + point_record_bytes(p, reference).len() <= s.len(),
        s.subrange(pos, pos + point_record_bytes(p, reference).len() as int) == point_record_bytes(
            p,
            reference,
        ),
    ensures
        needs_sync(p, reference) ==> spec_read_record(s, pos, reference) == Ok::<
            (SpecEvent, Timestamp, int),
            CodecError,
        >((SpecEvent::Sync { time: p.timestamp }, p.timestamp, pos + 8)),
        needs_sync(p, reference) ==> spec_read_record(s, pos + 8, p.timestamp)
            == Ok::<(SpecEvent, Timestamp, int), CodecError>(
            (
                SpecEvent::Point(decoded_point(p)),
                p.timestamp,
                pos + point_record_bytes(p, reference).len() as int,
            ),
        ),
        !needs_sync(p, reference) ==> spec_read_record(s, pos, reference) == Ok::<
            (SpecEvent, Timestamp, int),
            CodecError,
        >(
            (
                SpecEvent::Point(decoded_point(p)),
                reference,
                pos + point_record_bytes(p, reference).len() as int,
            ),
        ),
{
    let rec = point_record_bytes(p, reference);
    assert forall|n: int| pos <= n < pos + rec.len() implies s[n] == rec[n - pos] by {
        assert(s.subrange(pos, pos + rec.len() as int)[n - pos] == rec[n - pos]);
    }
    if needs_sync(p, reference) {
        let body = point_body_bytes(p, 0);
        assert(s[pos] == DataPoint::TimeSync.ordinal());
        assert(s.subrange(pos + 1, pos + 8) =~= fat_time_bytes(p.timestamp));
        crate::time::lemma_fat_time_round_trip(p.timestamp);
        assert(s.subrange(pos + 8, pos + 8 + body.len() as int) =~= body);
        lemma_point_body_parse(s, pos + 8, p, 0, p.timestamp);
    } else {
        let delta = crate::writer::delta_byte(p, reference);
        lemma_point_body_parse(s, pos, p, delta, reference);
    }
}

/// Whether the delta-time encoding can recover every point of a run,
/// each against the rolling reference the writer would hold for it.
pub open spec fn points_recoverable(points: Seq<SpecPoint>, reference: Timestamp) -> bool
    decreases points.len(),
{
    if points.len() == 0 {
        true
    } else {
        points_recoverable(points.drop_last(), reference) && point_recoverable(
            points.last(),
            points_final_reference(points.drop_last(), reference),
        )
    }
}

/// A segment as the decoder returns it: the same activity type and start
/// time, every point rebased (absent slots zeroed), and the end time
/// read off the end record — the segment's start time, as the writer
/// puts it there.
pub open spec fn decoded_segment(seg: SpecSegment) -> SpecSegment {
    SpecSegment {
        activity_type: seg.activity_type,
        start_time: seg.start_time,
        end_time: seg.start_time,
        points: seg.points.map_values(|q: SpecPoint| decoded_point(q)),
    }
}

/// Parsing a written run of points appends their rebased forms to the
/// open segment and leaves the reference where the writer left it.
#[verifier::rlimit(100)]
#[verifier::spinoff_prover]
proof fn lemma_points_parse(
    s: Seq<u8>,
    pos: int,
    points: Seq<SpecPoint>,
    reference: Timestamp,
    open: SpecSegment,
    done: Seq<SpecSegment>,
)
    requires
        reference.wf(),
        points_recoverable(points, reference),
        0 <= pos,
        pos + points_bytes(points, reference).len() <= s.len(),
        s.subrange(pos, pos + points_bytes(points, reference).len() as int) == points_bytes(
            points,
            reference,
        ),
    ensures
        points_final_reference(points, reference).wf(),
        spec_read_segments(s, pos, reference, Some(open), done) == spec_read_segments(
            s,
            pos + points_bytes(points, reference).len() as int,
            points_final_reference(points, reference),
            Some(
                SpecSegment {
                    points: open.points + points.map_values(|q: SpecPoint| decoded_point(q)),
                    ..open
                },
            ),
            done,
        ),
    decreases points.len(),
{
    let pb = points_bytes(points, reference);
    let dec = points.map_values(|q: SpecPoint| decoded_point(q));
    if points.len() == 0 {
        assert(dec =~= Seq::<SpecPoint>::empty());
        assert(open.points + dec =~= open.points);
        assert(SpecSegment { points: open.points + dec, ..open } == open);
    } else {
        let init = points.drop_last();
        let lastp = points.last();
        let ib = points_bytes(init, reference);
        let iref = points_final_reference(init, reference);
        let rec = point_record_bytes(lastp, iref);
        let mid = pos + ib.len() as int;
        let end = pos + pb.len() as int;
        assert(pb == ib + rec);
        assert forall|n: int| pos <= n < end implies s[n] == pb[n - pos] by {
            assert(s.subrange(pos, end)[n - pos] == pb[n - pos]);
        }
        assert(s.subrange(pos, mid) =~= ib);
        lemma_points_parse(s, pos, init, reference, open, done);
        let open2 = SpecSegment {
            points: open.points + init.map_values(|q: SpecPoint| decoded_point(q)),
            ..open
        };
        assert(s.subrange(mid, mid + rec.len() as int) =~= rec);
        lemma_point_record_parse(s, mid, lastp, iref);
        if needs_sync(lastp, iref) {
            lemma_step(s, mid, iref, Some(open2), done);
            lemma_step(s, mid + 8, lastp.timestamp, Some(open2), done);
        } else {
            lemma_step(s, mid, iref, Some(open2), done);
        }
        assert(open2.points.push(decoded_point(lastp)) =~= open.points + dec);
        assert(points_final_reference(points, reference) == point_new_reference(lastp, iref));
    }
}

/// Parsing a written segment closes it exactly as written: the decoded
/// segment joins the finished ones and the reference stays where the
/// last point (or the segment start) put it.
#[verifier::rlimit(100)]
#[verifier::spinoff_prover]
pub proof fn lemma_segment_stream_parse(
    s: Seq<u8>,
    pos: int,
    seg: SpecSegment,
    reference: Timestamp,
    done: Seq<SpecSegment>,
)
    requires
        reference.wf(),
        seg.start_time.wf(),
        points_recoverable(seg.points, seg.start_time),
        0 <= pos,
        pos + segment_bytes(seg).len() <= s.len(),
        s.subrange(pos, pos + segment_bytes(seg).len() as int) == segment_bytes(seg),
    ensures
        points_final_reference(seg.points, seg.start_time).wf(),
        spec_read_segments(s, pos, reference, None::<SpecSegment>, done) == spec_read_segments(
            s,
            pos + segment_bytes(seg).len() as int,
            points_final_reference(seg.points, seg.start_time),
            None::<SpecSegment>,
            done.push(decoded_segment(seg)),
        ),
{
    let sb = segment_bytes(seg);
    let end = pos + sb.len() as int;
    let pb = points_bytes(seg.points, seg.start_time);
    assert forall|n: int| pos <= n < end implies s[n] == sb[n - pos] by {
        assert(s.subrange(pos, end)[n - pos] == sb[n - pos]);
    }
    // the start record: marker, fat start time, activity byte
    assert(s[pos] == DataPoint::StartSegment.ordinal());
    assert(s.subrange(pos + 1, pos + 8) =~= fat_time_bytes(seg.start_time));
    crate::time::lemma_fat_time_round_trip(seg.start_time);
    assert(s[pos + 8] == seg.activity_type.ordinal());
    assert(ActivityType::spec_from_byte(seg.activity_type.ordinal()) == seg.activity_type);
    let fresh = SpecSegment {
        activity_type: seg.activity_type,
        start_time: seg.start_time,
        end_time: seg.start_time,
        points: Seq::empty(),
    };
    lemma_step(s, pos, reference, None::<SpecSegment>, done);
    // the points
    let mid = pos + 9;
    assert(s.subrange(mid, mid + pb.len() as int) =~= pb);
    lemma_points_parse(s, mid, seg.points, seg.start_time, fresh, done);
    let fref = points_final_reference(seg.points, seg.start_time);
    let filled = SpecSegment {
        points: fresh.points + seg.points.map_values(|q: SpecPoint| decoded_point(q)),
        ..fresh
    };
    // the end record: marker and the start time again
    let emid = mid + pb.len() as int;
    assert(s[emid] == DataPoint::EndSegment.ordinal());
    assert(s.subrange(emid + 1, emid + 8) =~= fat_time_bytes(seg.start_time));
    lemma_step(s, emid, fref, Some(filled), done);
    assert(SpecSegment { end_time: seg.start_time, ..filled } == decoded_segment(seg)) by {
        assert(filled.points =~= decoded_segment(seg).points);
    }
}

/// Round trip of a whole segment: a stream holding exactly what the
/// writer emits for one segment decodes to that segment, its points
/// rebased, its end time the start time the writer wrote into the end
/// record, whatever reference the reader starts from.
pub proof fn lemma_segment_round_trip(seg: SpecSegment, reference: Timestamp)
    requires
        reference.wf(),
        seg.start_time.wf(),
        points_recoverable(seg.points, seg.start_time),
    ensures
        spec_read_segments(segment_bytes(seg), 0, reference, None::<SpecSegment>, Seq::empty())
            == Ok::<Seq<SpecSegment>, CodecError>(seq![decoded_segment(seg)]),
{
    let s = segment_bytes(seg);
    assert(s.subrange(0, s.len() as int) =~= s);
    lemma_segment_stream_parse(s, 0, seg, reference, Seq::empty());
    assert(Seq::<SpecSegment>::empty().push(decoded_segment(seg)) =~= seq![
        decoded_segment(seg),
    ]);
}

} // verus!
