use crate::activity_type::ActivityType;
use crate::time::Timestamp;
use vstd::prelude::*;

verus! {

/// Number of sensor channels. Each owns one bit of a track point's
/// 16-bit presence mask, so at most 16 channels can ever exist.
pub const DYNAMIC_DATA_COUNT: usize = 9;

/// First mask value with a bit that belongs to no channel (1 shifted
/// left by the channel count).
pub const DYNAMIC_DATA_MASK_LIMIT: u16 = 0x200;

/// A sensor channel a track point may carry a value for. The channel's
/// bit in the presence mask, and the slot its value lives in, is the
/// declaration ordinal.
#[derive(Clone, Copy, Debug, PartialEq, Eq, Structural)]
pub enum DynamicDataType {
    /// Meters above sea level
    Altitude,
    /// Km/H
    Speed,
    /// Celsius
    Tempretature,
    /// BPM
    HeartRate,
    /// Steps/min
    Cadence,
    /// Watts
    Power,
    /// Total cumulative steps
    StepCount,
    /// km/liter
    FuelMilage,
    /// RPM
    RPM,
}

impl DynamicDataType {
    /// The declaration ordinal: the channel's bit position and slot index.
    pub open spec fn ordinal(self) -> u16 {
        match self {
            DynamicDataType::Altitude => 0,
            DynamicDataType::Speed => 1,
            DynamicDataType::Tempretature => 2,
            DynamicDataType::HeartRate => 3,
            DynamicDataType::Cadence => 4,
            DynamicDataType::Power => 5,
            DynamicDataType::StepCount => 6,
            DynamicDataType::FuelMilage => 7,
            DynamicDataType::RPM => 8,
        }
    }

    /// The channel's bit in the 16-bit presence mask.
    pub open spec fn mask_spec(self) -> u16 {
        1u16 << self.ordinal()
    }

    /// The declaration ordinal as a value.
    pub fn ordinal_index(self) -> (i: u16)
        ensures
            i == self.ordinal(),
            i < DYNAMIC_DATA_COUNT as u16,
    {
        match self {
            DynamicDataType::Altitude => 0,
            DynamicDataType::Speed => 1,
            DynamicDataType::Tempretature => 2,
            DynamicDataType::HeartRate => 3,
            DynamicDataType::Cadence => 4,
            DynamicDataType::Power => 5,
            DynamicDataType::StepCount => 6,
            DynamicDataType::FuelMilage => 7,
            DynamicDataType::RPM => 8,
        }
    }

    /// The channel's bit in the 16-bit presence mask: 1 shifted left by
    /// the ordinal.
    pub fn mask(&self) -> (m: u16)
        ensures
            m == self.mask_spec(),
    {
        1u16 << self.ordinal_index()
    }
}

/// A geographic position with longitude and latitude each already
/// quantized to the unsigned 32-bit wire scale (degrees in [-180, 180]
/// mapped linearly onto the full 32-bit range).
#[derive(Clone, Copy, Debug, PartialEq, Eq, Structural)]
pub struct QuantizedPoint {
    pub lon: u32,
    pub lat: u32,
}

/// The mathematical content of a track point: its position, its
/// instant, the presence mask, and the nine channel slots.
pub struct SpecPoint {
    pub point: QuantizedPoint,
    pub timestamp: Timestamp,
    pub mask: u16,
    pub data: Seq<u32>,
}

impl SpecPoint {
    /// All nine slots exist and only channel bits are set in the mask.
    pub open spec fn wf(self) -> bool {
        self.data.len() == DYNAMIC_DATA_COUNT && self.mask < DYNAMIC_DATA_MASK_LIMIT
    }

    /// The channel's value: present exactly when its mask bit is set.
    pub open spec fn get(self, data_type: DynamicDataType) -> Option<u32> {
        if self.mask & data_type.mask_spec() == 0 {
            None
        } else {
            Some(self.data[data_type.ordinal() as int])
        }
    }
}

/// One geo-tagged, time-stamped sample, with a 16-bit presence mask
/// saying which sensor channels carry a value. A channel value is held
/// as the 32-bit word that goes on the wire (for sensor readings, the
/// big-endian bit pattern of a 32-bit float; conversion from and to
/// floats lives with the caller).
#[derive(Clone, Debug, PartialEq)]
pub struct TrackPoint {
    point: QuantizedPoint,
    timestamp: Timestamp,
    dynamic_data_mask: u16,
    dynamic_data: Vec<u32>,
}

impl View for TrackPoint {
    type V = SpecPoint;

    closed spec fn view(&self) -> SpecPoint {
        SpecPoint {
            point: self.point,
            timestamp: self.timestamp,
            mask: self.dynamic_data_mask,
            data: self.dynamic_data@,
        }
    }
}

impl TrackPoint {
    pub open spec fn wf(self) -> bool {
        self@.wf()
    }

    /// A fresh sample at a position and instant, with no channel set and
    /// every slot zero.
    pub fn new(point: QuantizedPoint, timestamp: Timestamp) -> (p: TrackPoint)
        ensures
            p.wf(),
            p@.point == point,
            p@.timestamp == timestamp,
            p@.mask == 0,
            p@.data == Seq::new(DYNAMIC_DATA_COUNT as nat, |i: int| 0u32),
    {
        let p = TrackPoint {
            point,
            timestamp,
            dynamic_data_mask: 0,
            dynamic_data: vec![0u32; DYNAMIC_DATA_COUNT],
        };
        proof {
            assert(p@.data =~= Seq::new(DYNAMIC_DATA_COUNT as nat, |i: int| 0u32));
        }
        p
    }

    /// The sample's quantized position.
    pub fn point(&self) -> (r: QuantizedPoint)
        ensures
            r == self@.point,
    {
        self.point
    }

    /// The sample's instant.
    pub fn timestamp(&self) -> (r: Timestamp)
        ensures
            r == self@.timestamp,
    {
        self.timestamp
    }

    /// Store a channel's value in its slot and set its presence bit;
    /// nothing else changes.
    pub fn with_data(&mut self, data_type: DynamicDataType, data: u32)
        requires
            old(self).wf(),
        ensures
            final (self).wf(),
            final (self)@.mask == old(self)@.mask | data_type.mask_spec(),
            final (self)@.data == old(self)@.data.update(data_type.ordinal() as int, data),
            final (self)@.point == old(self)@.point,
            final (self)@.timestamp == old(self)@.timestamp,
    {
        let i = data_type.ordinal_index();
        proof {
            let m = self.dynamic_data_mask;
            let ord = data_type.ordinal();
            assert((m | (1u16 << ord)) < 0x200) by (bit_vector)
                requires
                    m < 0x200 && ord < 9,
            ;
        }
        self.dynamic_data_mask = self.dynamic_data_mask | data_type.mask();
        self.dynamic_data.set(i as usize, data);
    }

    /// The channel's value, present exactly when its presence bit is
    /// set; a clear bit yields nothing even if the slot holds leftover
    /// data.
    pub fn get_dynamic_data(&self, data_type: DynamicDataType) -> (r: Option<u32>)
        requires
            self.wf(),
        ensures
            r == self@.get(data_type),
    {
        if self.dynamic_data_mask & data_type.mask() == 0 {
            None
        } else {
            Some(self.dynamic_data[data_type.ordinal_index() as usize])
        }
    }

    /// The 16-bit presence mask.
    pub fn get_dynamic_data_mask(&self) -> (m: u16)
        ensures
            m == self@.mask,
    {
        self.dynamic_data_mask
    }

    /// Assemble a point read off the wire (for the decoder).
    pub(crate) fn from_wire(
        point: QuantizedPoint,
        timestamp: Timestamp,
        mask: u16,
        data: Vec<u32>,
    ) -> (p: TrackPoint)
        requires
            mask < DYNAMIC_DATA_MASK_LIMIT,
            data@.len() == DYNAMIC_DATA_COUNT,
        ensures
            p.wf(),
            p@ == (SpecPoint { point, timestamp, mask, data: data@ }),
    {
        TrackPoint { point, timestamp, dynamic_data_mask: mask, dynamic_data: data }
    }

    /// The wire word in a slot, set or not (for the encoder's loop).
    pub(crate) fn data_at(&self, i: usize) -> (r: u32)
        requires
            self.wf(),
            i < DYNAMIC_DATA_COUNT,
        ensures
            r == self@.data[i as int],
    {
        self.dynamic_data[i]
    }
}

/// A contiguous span of track points sharing one activity type, assumed
/// chronological by the delta-time encoding.
#[derive(Clone, Debug, PartialEq)]
pub struct Segment {
    pub activity_type: ActivityType,
    pub start_time: Timestamp,
    pub end_time: Timestamp,
    pub points: Vec<TrackPoint>,
}

/// The mathematical content of a segment.
pub struct SpecSegment {
    pub activity_type: ActivityType,
    pub start_time: Timestamp,
    pub end_time: Timestamp,
    pub points: Seq<SpecPoint>,
}

impl View for Segment {
    type V = SpecSegment;

    open spec fn view(&self) -> SpecSegment {
        SpecSegment {
            activity_type: self.activity_type,
            start_time: self.start_time,
            end_time: self.end_time,
            points: self.points@.map_values(|p: TrackPoint| p@),
        }
    }
}

impl Segment {
    pub open spec fn wf(self) -> bool {
        forall|i: int| 0 <= i < self@.points.len() ==> (#[trigger] self@.points[i]).wf()
    }
}

/// Identifier of a stored session.
#[derive(Debug, PartialEq, Eq, Structural)]
pub struct SessionId(i64);

/// Lifecycle tag carried by a session; never serialized by this codec.
#[derive(Clone, Debug, PartialEq, Eq, Structural)]
pub enum SessionStatus {
    Live,
    Paused,
    Finished,
    /// If connection was lost, or the state is otherwise unknown
    Unknown,
}

/// The top-level recording: metadata plus an ordered sequence of
/// segments.
#[derive(Clone, Debug, PartialEq)]
pub struct TrackSession {
    pub id: i64,
    pub time: Timestamp,
    pub activity_type: ActivityType,
    pub title: String,
    pub description: String,
    pub device: String,
    pub session_status: SessionStatus,
    pub segments: Vec<Segment>,
}

} // verus!
