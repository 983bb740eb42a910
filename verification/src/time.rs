use vstd::prelude::*;

verus! {

/// Epoch-seconds values at or above this limit (2^40) do not fit in the
/// five-byte seconds field of the fat-time encoding.
pub const EPOCH_SECONDS_LIMIT: u64 = 0x100_0000_0000;

/// An instant together with the fixed UTC offset it was recorded in:
/// whole seconds since the Unix epoch, and minutes east of UTC.
///
/// Sub-second precision is outside the model: the wire format only ever
/// carries whole seconds. The offset is unsigned, so offsets west of UTC
/// are not representable; this mirrors the wire format, which stores the
/// offset as an unsigned 16-bit minute count.
#[derive(Clone, Copy, Debug, PartialEq, Eq, Structural)]
pub struct Timestamp {
    pub epoch_seconds: u64,
    pub offset_minutes: u16,
}

impl Timestamp {
    /// The instant fits the five epoch-seconds bytes of a fat time.
    pub open spec fn wf(self) -> bool {
        self.epoch_seconds < EPOCH_SECONDS_LIMIT
    }
}

/// The seven-byte fat-time encoding: the low five bytes of the epoch
/// seconds, big endian (the top three bytes of a 64-bit value are
/// dropped), then the offset minutes in two bytes, big endian.
pub open spec fn fat_time_bytes(t: Timestamp) -> Seq<u8> {
    seq![
        ((t.epoch_seconds >> 32) & 0xff) as u8,
        ((t.epoch_seconds >> 24) & 0xff) as u8,
        ((t.epoch_seconds >> 16) & 0xff) as u8,
        ((t.epoch_seconds >> 8) & 0xff) as u8,
        (t.epoch_seconds & 0xff) as u8,
        ((t.offset_minutes >> 8) & 0xff) as u8,
        (t.offset_minutes & 0xff) as u8,
    ]
}

/// The timestamp read back from seven fat-time bytes.
pub open spec fn fat_time_of(b: Seq<u8>) -> Timestamp
    recommends
        b.len() == 7,
{
    Timestamp {
        epoch_seconds: ((b[0] as u64) << 32) | ((b[1] as u64) << 24) | ((b[2] as u64) << 16) | (
        (b[3] as u64) << 8) | (b[4] as u64),
        offset_minutes: ((b[5] as u16) << 8) | (b[6] as u16),
    }
}

/// Whatever the bytes, a timestamp read back from a fat time fits the
/// five-byte seconds field again.
pub proof fn lemma_fat_time_of_wf(b: Seq<u8>)
    ensures
        fat_time_of(b).wf(),
{
    let b0 = b[0];
    let b1 = b[1];
    let b2 = b[2];
    let b3 = b[3];
    let b4 = b[4];
    assert((((b0 as u64) << 32) | ((b1 as u64) << 24) | ((b2 as u64) << 16) | ((b3 as u64) << 8)
        | (b4 as u64)) < 0x100_0000_0000) by (bit_vector);
}

/// Decoding after encoding is the identity on every timestamp whose
/// epoch seconds fit the five-byte field; the offset always survives.
pub proof fn lemma_fat_time_round_trip(t: Timestamp)
    requires
        t.wf(),
    ensures
        fat_time_of(fat_time_bytes(t)) == t,
{
    let e = t.epoch_seconds;
    let o = t.offset_minutes;
    assert(((((e >> 32) & 0xff) as u8 as u64) << 32) | ((((e >> 24) & 0xff) as u8 as u64) << 24)
        | ((((e >> 16) & 0xff) as u8 as u64) << 16) | ((((e >> 8) & 0xff) as u8 as u64) << 8) | ((
    (e & 0xff) as u8) as u64) == e) by (bit_vector)
        requires
            e < 0x100_0000_0000,
    ;
    assert(((((o >> 8) & 0xff) as u8 as u16) << 8) | (((o & 0xff) as u8) as u16) == o)
        by (bit_vector);
}

} // verus!
