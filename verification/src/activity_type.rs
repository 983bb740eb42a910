use crate::records::CodecError;
use vstd::prelude::*;

verus! {

/// Number of activity categories; their wire bytes are 0 up to this
/// count, exclusive.
pub const ACTIVITY_TYPE_COUNT: u8 = 12;

/// The category of a recorded activity, stored on the wire as one byte
/// holding the declaration ordinal. `Combination` and `Unknown` are
/// ordinary encodable categories, not decode fallbacks.
#[derive(Clone, Copy, Debug, PartialEq, Eq, Structural)]
pub enum ActivityType {
    Walk,
    Run,
    Bike,
    Swim,
    EBike,
    Motorbike,
    Car,
    Train,
    Boat,
    Plane,
    Combination,
    Unknown,
}

impl ActivityType {
    /// The declaration ordinal: the byte this category is stored as.
    pub open spec fn ordinal(self) -> u8 {
        match self {
            ActivityType::Walk => 0,
            ActivityType::Run => 1,
            ActivityType::Bike => 2,
            ActivityType::Swim => 3,
            ActivityType::EBike => 4,
            ActivityType::Motorbike => 5,
            ActivityType::Car => 6,
            ActivityType::Train => 7,
            ActivityType::Boat => 8,
            ActivityType::Plane => 9,
            ActivityType::Combination => 10,
            ActivityType::Unknown => 11,
        }
    }

    /// Encode the category as its one wire byte.
    pub fn to_byte(self) -> (b: u8)
        ensures
            b == self.ordinal(),
            b < ACTIVITY_TYPE_COUNT,
    {
        match self {
            ActivityType::Walk => 0,
            ActivityType::Run => 1,
            ActivityType::Bike => 2,
            ActivityType::Swim => 3,
            ActivityType::EBike => 4,
            ActivityType::Motorbike => 5,
            ActivityType::Car => 6,
            ActivityType::Train => 7,
            ActivityType::Boat => 8,
            ActivityType::Plane => 9,
            ActivityType::Combination => 10,
            ActivityType::Unknown => 11,
        }
    }

    /// The category a wire byte decodes to (meaningful for bytes below
    /// `ACTIVITY_TYPE_COUNT`).
    pub open spec fn spec_from_byte(byte: u8) -> ActivityType {
        if byte == 0 {
            ActivityType::Walk
        } else if byte == 1 {
            ActivityType::Run
        } else if byte == 2 {
            ActivityType::Bike
        } else if byte == 3 {
            ActivityType::Swim
        } else if byte == 4 {
            ActivityType::EBike
        } else if byte == 5 {
            ActivityType::Motorbike
        } else if byte == 6 {
            ActivityType::Car
        } else if byte == 7 {
            ActivityType::Train
        } else if byte == 8 {
            ActivityType::Boat
        } else if byte == 9 {
            ActivityType::Plane
        } else if byte == 10 {
            ActivityType::Combination
        } else {
            ActivityType::Unknown
        }
    }

    /// Decode one wire byte: succeeds exactly on the bytes below
    /// `ACTIVITY_TYPE_COUNT`, with the category of that ordinal; every
    /// other byte is a format error naming the byte.
    pub fn from_byte(byte: u8) -> (r: Result<Self, CodecError>)
        ensures
            byte < ACTIVITY_TYPE_COUNT ==> (r matches Ok(a) && a.ordinal() == byte && a
                == ActivityType::spec_from_byte(byte)),
            byte >= ACTIVITY_TYPE_COUNT ==> r == Err::<ActivityType, CodecError>(
                CodecError::InvalidActivityType(byte),
            ),
    {
        match byte {
            0 => Ok(ActivityType::Walk),
            1 => Ok(ActivityType::Run),
            2 => Ok(ActivityType::Bike),
            3 => Ok(ActivityType::Swim),
            4 => Ok(ActivityType::EBike),
            5 => Ok(ActivityType::Motorbike),
            6 => Ok(ActivityType::Car),
            7 => Ok(ActivityType::Train),
            8 => Ok(ActivityType::Boat),
            9 => Ok(ActivityType::Plane),
            10 => Ok(ActivityType::Combination),
            11 => Ok(ActivityType::Unknown),
            _ => Err(CodecError::InvalidActivityType(byte)),
        }
    }
}

} // verus!
