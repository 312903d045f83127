//! Wire-level constants and the packet-type alphabet of the MXS protocol
//! (a mixed-stream framing: `MARKER(2) | TYPE(1) | LEN(1) | PAYLOAD(LEN)`).

use vstd::prelude::*;

verus! {

/// First byte of the two-byte frame marker.
pub const MARKER_0: u8 = 0xAA;

/// Second byte of the two-byte frame marker.
pub const MARKER_1: u8 = 0x55;

/// Length of the frame marker in bytes.
pub const MARKER_LEN: usize = 2;

/// Length of the type field in bytes.
pub const TYPE_LEN: usize = 1;

/// Length of the payload-size field in bytes.
pub const SIZE_LEN: usize = 1;

/// Largest payload a single frame can carry.
pub const MAX_DATA_LEN: usize = 255;

/// Size of a frame with an empty payload.
pub const MIN_PACKET_SIZE: usize = MARKER_LEN + TYPE_LEN + SIZE_LEN;

/// Size of a frame with a full payload.
pub const MAX_PACKET_SIZE: usize = MIN_PACKET_SIZE + MAX_DATA_LEN;

/// The closed set of packet kinds carried on the wire.
#[derive(Debug, Clone, Copy, PartialEq, Eq, Structural)]
pub enum MxsPacketType {
    Start,
    End,
    Heartbeat,
    Data,
    Error,
}

/// The byte that encodes a packet type on the wire.
pub open spec fn spec_type_byte(t: MxsPacketType) -> u8 {
    match t {
        MxsPacketType::Start => 1,
        MxsPacketType::End => 2,
        MxsPacketType::Heartbeat => 3,
        MxsPacketType::Data => 4,
        MxsPacketType::Error => 5,
    }
}

/// Whether a byte encodes some packet type.
pub open spec fn spec_valid_type_byte(b: u8) -> bool {
    1 <= b <= 5
}

/// The packet type a (valid) byte encodes.
pub open spec fn spec_type_of_byte(b: u8) -> MxsPacketType
    recommends
        spec_valid_type_byte(b),
{
    if b == 1 {
        MxsPacketType::Start
    } else if b == 2 {
        MxsPacketType::End
    } else if b == 3 {
        MxsPacketType::Heartbeat
    } else if b == 4 {
        MxsPacketType::Data
    } else {
        MxsPacketType::Error
    }
}

/// The wire form of one frame: marker, type byte, payload length, payload.
pub open spec fn spec_frame(t: MxsPacketType, payload: Seq<u8>) -> Seq<u8>
    recommends
        payload.len() <= MAX_DATA_LEN,
{
    seq![MARKER_0, MARKER_1, spec_type_byte(t), payload.len() as u8] + payload
}

impl MxsPacketType {
    /// The wire encoding round-trips through the byte domain.
    pub proof fn lemma_type_byte_round_trip(t: MxsPacketType)
        ensures
            spec_valid_type_byte(spec_type_byte(t)),
            spec_type_of_byte(spec_type_byte(t)) == t,
    {
    }

    /// Decode a type byte; any byte outside the closed set is refused,
    /// which is what lets the stream decoder treat a marker followed by
    /// such a byte as a false marker.
    pub fn try_from(value: u8) -> (r: Result<Self, ()>)
        ensures
            r is Ok <==> spec_valid_type_byte(value),
            r is Ok ==> r->Ok_0 == spec_type_of_byte(value),
    {
        match value {
            1 => Ok(MxsPacketType::Start),
            2 => Ok(MxsPacketType::End),
            3 => Ok(MxsPacketType::Heartbeat),
            4 => Ok(MxsPacketType::Data),
            5 => Ok(MxsPacketType::Error),
            _ => Err(()),
        }
    }

    /// The wire byte of this packet type.
    pub fn to_byte(self) -> (r: u8)
        ensures
            r == spec_type_byte(self),
    {
        match self {
            MxsPacketType::Start => 1,
            MxsPacketType::End => 2,
            MxsPacketType::Heartbeat => 3,
            MxsPacketType::Data => 4,
            MxsPacketType::Error => 5,
        }
    }
}

} // verus!
