use crate::activity_type::ActivityType;
use crate::time::Timestamp;
use vstd::prelude::*;

verus! {

/// Why a decode failed. Encoding into a byte vector cannot fail;
/// feeding the stream to or from an actual sink or source, and the
/// failures of that sink or source, are the caller's concern.
#[derive(Clone, Copy, Debug, PartialEq, Eq, Structural)]
pub enum CodecError {
    /// An activity-type byte with no matching category.
    InvalidActivityType(u8),
    /// A record-marker byte with no matching record kind.
    InvalidDataPoint(u8),
    /// A presence mask with a bit set for which no sensor channel exists.
    InvalidMask(u16),
    /// A record began but the stream ended before its last byte.
    TruncatedStream,
    /// A record that cannot appear here: a track point or a segment end
    /// with no segment open, or a segment start inside an open segment.
    UnexpectedRecord,
}

/// Number of record kinds; their marker bytes are 0 up to this count,
/// exclusive.
pub const DATA_POINT_COUNT: u8 = 4;

/// The one-byte marker that tells the records of the stream apart,
/// stored as the declaration ordinal.
#[derive(Clone, Copy, Debug, PartialEq, Eq, Structural)]
pub enum DataPoint {
    TrackPoint,
    StartSegment,
    EndSegment,
    TimeSync,
}

impl DataPoint {
    /// The declaration ordinal: the marker byte this record kind is
    /// stored as.
    pub open spec fn ordinal(self) -> u8 {
        match self {
            DataPoint::TrackPoint => 0,
            DataPoint::StartSegment => 1,
            DataPoint::EndSegment => 2,
            DataPoint::TimeSync => 3,
        }
    }

    /// Encode the record kind as its one marker byte.
    pub fn to_byte(self) -> (b: u8)
        ensures
            b == self.ordinal(),
            b < DATA_POINT_COUNT,
    {
        match self {
            DataPoint::TrackPoint => 0,
            DataPoint::StartSegment => 1,
            DataPoint::EndSegment => 2,
            DataPoint::TimeSync => 3,
        }
    }

    /// Decode one marker byte: succeeds exactly on the bytes below
    /// `DATA_POINT_COUNT`, with the record kind of that ordinal; every
    /// other byte is a format error naming the byte.
    pub fn from_byte(byte: u8) -> (r: Result<Self, CodecError>)
        ensures
            byte < DATA_POINT_COUNT ==> (r matches Ok(d) && d.ordinal() == byte),
            byte >= DATA_POINT_COUNT ==> r == Err::<DataPoint, CodecError>(
                CodecError::InvalidDataPoint(byte),
            ),
    {
        match byte {
            0 => Ok(DataPoint::TrackPoint),
            1 => Ok(DataPoint::StartSegment),
            2 => Ok(DataPoint::EndSegment),
            3 => Ok(DataPoint::TimeSync),
            _ => Err(CodecError::InvalidDataPoint(byte)),
        }
    }
}

/// The per-session metadata written once, at the front of the stream.
#[derive(Clone, Debug, PartialEq)]
pub struct Header {
    pub time: Timestamp,
    pub activity_type: ActivityType,
    pub title: String,
    pub description: String,
    pub device: String,
}

/// A 16-bit value as two big-endian bytes.
pub open spec fn u16_be_bytes(x: u16) -> Seq<u8> {
    seq![((x >> 8) & 0xff) as u8, (x & 0xff) as u8]
}

/// The 16-bit value read back from two big-endian bytes.
pub open spec fn u16_be_of(b: Seq<u8>) -> u16
    recommends
        b.len() == 2,
{
    ((b[0] as u16) << 8) | (b[1] as u16)
}

/// A 32-bit value as four big-endian bytes.
pub open spec fn u32_be_bytes(x: u32) -> Seq<u8> {
    seq![
        ((x >> 24) & 0xff) as u8,
        ((x >> 16) & 0xff) as u8,
        ((x >> 8) & 0xff) as u8,
        (x & 0xff) as u8,
    ]
}

/// The 32-bit value read back from four big-endian bytes.
pub open spec fn u32_be_of(b: Seq<u8>) -> u32
    recommends
        b.len() == 4,
{
    ((b[0] as u32) << 24) | ((b[1] as u32) << 16) | ((b[2] as u32) << 8) | (b[3] as u32)
}

/// Reading two big-endian bytes back gives the value they encode.
pub proof fn lemma_u16_be_round_trip(x: u16)
    ensures
        u16_be_of(u16_be_bytes(x)) == x,
{
    assert(((((x >> 8) & 0xff) as u8 as u16) << 8) | (((x & 0xff) as u8) as u16) == x)
        by (bit_vector);
}

/// Reading four big-endian bytes back gives the value they encode.
pub proof fn lemma_u32_be_round_trip(x: u32)
    ensures
        u32_be_of(u32_be_bytes(x)) == x,
{
    assert(((((x >> 24) & 0xff) as u8 as u32) << 24) | ((((x >> 16) & 0xff) as u8 as u32) << 16)
        | ((((x >> 8) & 0xff) as u8 as u32) << 8) | (((x & 0xff) as u8) as u32) == x)
        by (bit_vector);
}

/// Append a 16-bit value as two big-endian bytes.
pub fn push_u16_be(sink: &mut Vec<u8>, x: u16)
    ensures
        final (sink)@ == old(sink)@ + u16_be_bytes(x),
{
    proof {
        assert((x >> 8) & 0xff < 256 && x & 0xff < 256) by (bit_vector);
    }
    sink.push(((x >> 8) & 0xff) as u8);
    sink.push((x & 0xff) as u8);
    assert(sink@ =~= old(sink)@ + u16_be_bytes(x));
}

/// Append a 32-bit value as four big-endian bytes.
pub fn push_u32_be(sink: &mut Vec<u8>, x: u32)
    ensures
        final (sink)@ == old(sink)@ + u32_be_bytes(x),
{
    proof {
        assert((x >> 24) & 0xff < 256 && (x >> 16) & 0xff < 256 && (x >> 8) & 0xff < 256 && x
            & 0xff < 256) by (bit_vector);
    }
    sink.push(((x >> 24) & 0xff) as u8);
    sink.push(((x >> 16) & 0xff) as u8);
    sink.push(((x >> 8) & 0xff) as u8);
    sink.push((x & 0xff) as u8);
    assert(sink@ =~= old(sink)@ + u32_be_bytes(x));
}

/// Read one byte at the cursor; fails exactly when none is left.
pub fn read_u8(data: &[u8], pos: &mut usize) -> (r: Result<u8, CodecError>)
    requires
        *old(pos) <= data@.len(),
    ensures
        match r {
            Ok(b) => *old(pos) < data@.len() && *final (pos) == *old(pos) + 1 && b == data@[*old(
                pos,
            ) as int],
            Err(e) => *old(pos) == data@.len() && *final (pos) == *old(pos) && e
                == CodecError::TruncatedStream,
        },
{
    if *pos < data.len() {
        let b = data[*pos];
        *pos = *pos + 1;
        Ok(b)
    } else {
        Err(CodecError::TruncatedStream)
    }
}

/// Read two big-endian bytes at the cursor; fails exactly when fewer
/// than two are left.
pub fn read_u16_be(data: &[u8], pos: &mut usize) -> (r: Result<u16, CodecError>)
    requires
        *old(pos) <= data@.len(),
    ensures
        match r {
            Ok(x) => *old(pos) + 2 <= data@.len() && *final (pos) == *old(pos) + 2 && x == u16_be_of(
                data@.subrange(*old(pos) as int, *final (pos) as int),
            ),
            Err(e) => data@.len() < *old(pos) + 2 && *final (pos) == *old(pos) && e
                == CodecError::TruncatedStream,
        },
{
    if data.len() - *pos >= 2 {
        let b0 = data[*pos];
        let b1 = data[*pos + 1];
        *pos = *pos + 2;
        Ok(((b0 as u16) << 8) | (b1 as u16))
    } else {
        Err(CodecError::TruncatedStream)
    }
}

/// Read four big-endian bytes at the cursor; fails exactly when fewer
/// than four are left.
pub fn read_u32_be(data: &[u8], pos: &mut usize) -> (r: Result<u32, CodecError>)
    requires
        *old(pos) <= data@.len(),
    ensures
        match r {
            Ok(x) => *old(pos) + 4 <= data@.len() && *final (pos) == *old(pos) + 4 && x == u32_be_of(
                data@.subrange(*old(pos) as int, *final (pos) as int),
            ),
            Err(e) => data@.len() < *old(pos) + 4 && *final (pos) == *old(pos) && e
                == CodecError::TruncatedStream,
        },
{
    if data.len() - *pos >= 4 {
        let b0 = data[*pos];
        let b1 = data[*pos + 1];
        let b2 = data[*pos + 2];
        let b3 = data[*pos + 3];
        *pos = *pos + 4;
        Ok(((b0 as u32) << 24) | ((b1 as u32) << 16) | ((b2 as u32) << 8) | (b3 as u32))
    } else {
        Err(CodecError::TruncatedStream)
    }
}

/// A string field's text bytes as they go on the wire: clipped to at
/// most 255 bytes. The cut may fall inside a multi-byte character; the
/// decoder recovers with replacement characters.
pub open spec fn clipped_bytes(b: Seq<u8>) -> Seq<u8> {
    if b.len() <= 255 {
        b
    } else {
        b.subrange(0, 255)
    }
}

/// A length-prefixed string record: one byte holding the clipped text's
/// byte length, then the clipped text bytes themselves.
pub open spec fn string_record(b: Seq<u8>) -> Seq<u8> {
    seq![clipped_bytes(b).len() as u8] + clipped_bytes(b)
}

/// Reading a length-prefixed string record at a position: the text bytes
/// and the position after them, if the whole record is present.
pub open spec fn spec_read_string(data: Seq<u8>, pos: int) -> Option<(Seq<u8>, int)> {
    if 0 <= pos < data.len() {
        let n = data[pos] as int;
        if pos + 1 + n <= data.len() {
            Some((data.subrange(pos + 1, pos + 1 + n), pos + 1 + n))
        } else {
            None
        }
    } else {
        None
    }
}

/// The character sequence that lossy UTF-8 decoding yields for the given
/// bytes. It depends on the bytes alone.
pub uninterp spec fn lossy_utf8(b: Seq<u8>) -> Seq<char>;

/// Relies on String::from_utf8_lossy: its result depends on the bytes
/// alone, and bytes that are valid UTF-8 decode to exactly the character
/// sequence they encode (invalid sequences are replaced, never an error).
#[verifier::external_body]
pub(crate) fn bytes_to_string_lossy(b: &[u8]) -> (r: String)
    ensures
        r@ == lossy_utf8(b@),
        vstd::utf8::valid_utf8(b@) ==> r@ == vstd::utf8::decode_utf8(b@),
{
    String::from_utf8_lossy(b).into_owned()
}

} // verus!
