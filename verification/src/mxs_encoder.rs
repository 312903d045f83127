//! Building outgoing MXS frames into a fixed-capacity buffer.
//!
//! The buffer type comes from the `heapless` crate so frames can be built
//! without allocation, as on the embedded peer; its operations stand behind
//! trusted wrappers whose contracts say how the buffer's byte contents
//! change.

use vstd::prelude::*;

use crate::mxs_shared::{
    MxsPacketType, MARKER_0, MARKER_1, MAX_DATA_LEN, MAX_PACKET_SIZE, spec_frame,
};

verus! {

#[verifier::external_type_specification]
#[verifier::external_body]
#[verifier::reject_recursive_types(T)]
pub struct ExHeaplessVec<T, const N: usize>(heapless::Vec<T, N>);

/// The bytes a frame buffer holds, oldest first.
pub uninterp spec fn frame_buf_bytes(v: heapless::Vec<u8, MAX_PACKET_SIZE>) -> Seq<u8>;

/// Relies on heapless::Vec::new: a new vector is empty.
#[verifier::external_body]
fn frame_buf_new() -> (v: heapless::Vec<u8, MAX_PACKET_SIZE>)
    ensures
        frame_buf_bytes(v) == Seq::<u8>::empty(),
{
    heapless::Vec::new()
}

/// Relies on heapless::Vec::push: appends one item while the vector is
/// below its capacity, and hands the item back unappended once it is full.
#[verifier::external_body]
fn frame_buf_push(v: &mut heapless::Vec<u8, MAX_PACKET_SIZE>, b: u8) -> (r: Result<(), u8>)
    ensures
        frame_buf_bytes(*old(v)).len() < MAX_PACKET_SIZE ==> r is Ok && frame_buf_bytes(*final(v))
            == frame_buf_bytes(*old(v)).push(b),
        frame_buf_bytes(*old(v)).len() >= MAX_PACKET_SIZE ==> r is Err && frame_buf_bytes(
            *final(v),
        ) == frame_buf_bytes(*old(v)),
{
    v.push(b)
}

/// Relies on heapless::Vec::extend_from_slice: appends the whole slice when
/// it fits in the spare capacity, and leaves the vector unchanged otherwise.
#[verifier::external_body]
fn frame_buf_extend(v: &mut heapless::Vec<u8, MAX_PACKET_SIZE>, s: &[u8]) -> (r: Result<(), ()>)
    ensures
        frame_buf_bytes(*old(v)).len() + s@.len() <= MAX_PACKET_SIZE ==> r is Ok
            && frame_buf_bytes(*final(v)) == frame_buf_bytes(*old(v)) + s@,
        frame_buf_bytes(*old(v)).len() + s@.len() > MAX_PACKET_SIZE ==> r is Err
            && frame_buf_bytes(*final(v)) == frame_buf_bytes(*old(v)),
{
    v.extend_from_slice(s)
}

/// Relies on heapless::Vec::as_slice: a view of the stored items, in order.
#[verifier::external_body]
pub fn frame_buf_as_slice(v: &heapless::Vec<u8, MAX_PACKET_SIZE>) -> (r: &[u8])
    ensures
        r@ == frame_buf_bytes(*v),
{
    v.as_slice()
}

/// Builder of outgoing frames.
pub struct MxsEncoder;

impl MxsEncoder {
    /// Build one frame around `data`: marker, type byte, payload length,
    /// payload. The payload must fit the one-byte length field.
    pub fn create_data_package(p_type: MxsPacketType, data: &[u8]) -> (r: heapless::Vec<
        u8,
        MAX_PACKET_SIZE,
    >)
        requires
            data@.len() <= MAX_DATA_LEN,
        ensures
            frame_buf_bytes(r) == spec_frame(p_type, data@),
    {
        let mut packet: heapless::Vec<u8, MAX_PACKET_SIZE> = frame_buf_new();

        let _ = frame_buf_push(&mut packet, MARKER_0);
        let _ = frame_buf_push(&mut packet, MARKER_1);
        let _ = frame_buf_push(&mut packet, p_type.to_byte());
        let _ = frame_buf_push(&mut packet, data.len() as u8);
        let _ = frame_buf_extend(&mut packet, data);

        proof {
            assert(frame_buf_bytes(packet) =~= spec_frame(p_type, data@));
        }
        packet
    }

    /// Build one frame with an empty payload.
    pub fn create_package(p_type: MxsPacketType) -> (r: heapless::Vec<u8, MAX_PACKET_SIZE>)
        ensures
            frame_buf_bytes(r) == spec_frame(p_type, Seq::<u8>::empty()),
    {
        let empty: [u8; 0] = [];
        Self::create_data_package(p_type, &empty)
    }
}

} // verus!
