//! The fixed data record carried in a `Data` frame: three signed 16-bit
//! integers, little-endian, exactly six bytes on the wire.

use vstd::prelude::*;

verus! {

/// Number of payload bytes a data record occupies.
pub const DATA_RECORD_LEN: usize = 6;

/// An ordered triple of signed 16-bit integers `(x, y, z)`.
#[derive(Debug, Default, Clone, Copy, PartialEq, Eq, Structural)]
pub struct Data(pub i16, pub i16, pub i16);

/// Low byte of the little-endian encoding of `x`.
pub open spec fn spec_le_lo(x: i16) -> u8 {
    (x as u16) as u8
}

/// High byte of the little-endian encoding of `x`.
pub open spec fn spec_le_hi(x: i16) -> u8 {
    ((x as u16) >> 8) as u8
}

/// The signed 16-bit value whose little-endian bytes are `lo`, `hi`.
pub open spec fn spec_i16_le(lo: u8, hi: u8) -> i16 {
    (((hi as u16) << 8) | (lo as u16)) as i16
}

/// What parsing a payload into a record yields: a record exactly when the
/// payload is six bytes long, each field read little-endian in order.
pub open spec fn spec_decode_data(b: Seq<u8>) -> Option<Data> {
    if b.len() == 6 {
        Some(Data(spec_i16_le(b[0], b[1]), spec_i16_le(b[2], b[3]), spec_i16_le(b[4], b[5])))
    } else {
        None
    }
}

/// The six-byte wire form of a record: each field little-endian, in order.
pub open spec fn spec_encode_data(d: Data) -> Seq<u8> {
    seq![
        spec_le_lo(d.0),
        spec_le_hi(d.0),
        spec_le_lo(d.1),
        spec_le_hi(d.1),
        spec_le_lo(d.2),
        spec_le_hi(d.2),
    ]
}

/// A signed 16-bit value survives the trip through its two little-endian bytes.
pub proof fn lemma_i16_le_round_trip(x: i16)
    ensures
        spec_i16_le(spec_le_lo(x), spec_le_hi(x)) == x,
{
    assert((((((x as u16) >> 8) as u8 as u16) << 8) | ((x as u16) as u8 as u16)) as i16 == x)
        by (bit_vector);
}

/// Decoding an encoded record gives the record back, over the whole signed
/// 16-bit range of each field.
pub proof fn lemma_data_codec_round_trip(x: i16, y: i16, z: i16)
    ensures
        spec_decode_data(spec_encode_data(Data(x, y, z))) == Some(Data(x, y, z)),
{
    lemma_i16_le_round_trip(x);
    lemma_i16_le_round_trip(y);
    lemma_i16_le_round_trip(z);
    assert(spec_encode_data(Data(x, y, z)).len() == 6);
}

fn i16_from_le_pair(lo: u8, hi: u8) -> (r: i16)
    ensures
        r == spec_i16_le(lo, hi),
{
    (((hi as u16) << 8) | (lo as u16)) as i16
}

impl Data {
    /// Parse a payload into a record. Succeeds exactly when the payload is
    /// six bytes long; the frame that carried a wrong-sized payload has
    /// already been consumed from the stream, so rejection surfaces as an
    /// error message, not as a decoder retry.
    pub fn try_from(buf: &[u8]) -> (r: Option<Self>)
        ensures
            r == spec_decode_data(buf@),
            r is Some <==> buf@.len() == 6,
    {
        if buf.len() != DATA_RECORD_LEN {
            return None;
        }
        let x = i16_from_le_pair(buf[0], buf[1]);
        let y = i16_from_le_pair(buf[2], buf[3]);
        let z = i16_from_le_pair(buf[4], buf[5]);
        Some(Data(x, y, z))
    }

    /// The six-byte wire form of this record.
    pub fn encode(&self) -> (r: Vec<u8>)
        ensures
            r@ == spec_encode_data(*self),
            r@.len() == 6,
    {
        let mut out: Vec<u8> = Vec::new();
        out.push((self.0 as u16) as u8);
        out.push(((self.0 as u16) >> 8) as u8);
        out.push((self.1 as u16) as u8);
        out.push(((self.1 as u16) >> 8) as u8);
        out.push((self.2 as u16) as u8);
        out.push(((self.2 as u16) >> 8) as u8);
        proof {
            assert(out@ =~= spec_encode_data(*self));
        }
        out
    }
}

} // verus!
