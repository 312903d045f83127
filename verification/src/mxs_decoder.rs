//! Incremental extraction of MXS frames from a rolling buffer of mixed
//! text and binary.
//!
//! One call scans an immutable view of the buffer and yields the bytes
//! skipped before the first accepted frame start, the count of bytes the
//! caller must drain from the head, and the complete packets found, in wire
//! order. A marker followed by an unknown type byte is a false marker: the
//! scan resumes right after the two marker bytes. An incomplete frame is
//! left in the buffer so the next call, after more bytes arrive, can retry.

use vstd::prelude::*;

use crate::mxs_shared::{
    MxsPacketType, MARKER_0, MARKER_1, MIN_PACKET_SIZE, spec_valid_type_byte, spec_type_of_byte,
    spec_type_byte, spec_frame,
};
use vstd::slice::slice_subrange;

verus! {

/// A decoded packet: its type and a view of its payload bytes.
#[derive(Debug)]
pub struct MxsPacket<'a> {
    pub packet_type: MxsPacketType,
    pub data: &'a [u8],
}

/// Mathematical form of a packet: type plus payload byte sequence.
pub struct SpecPacket {
    pub packet_type: MxsPacketType,
    pub payload: Seq<u8>,
}

impl<'a> View for MxsPacket<'a> {
    type V = SpecPacket;

    open spec fn view(&self) -> SpecPacket {
        SpecPacket { packet_type: self.packet_type, payload: self.data@ }
    }
}

/// Whether the two-byte marker pattern sits at position `i` of `data`.
pub open spec fn spec_is_marker_at(data: Seq<u8>, i: int) -> bool {
    &&& 0 <= i
    &&& i + 2 <= data.len()
    &&& data[i] == MARKER_0
    &&& data[i + 1] == MARKER_1
}

/// Position of the first marker at or after `from`, if any.
pub open spec fn spec_find_marker(data: Seq<u8>, from: int) -> Option<int>
    decreases data.len() - from,
{
    if from < 0 || from + 2 > data.len() {
        None::<int>
    } else if data[from] == MARKER_0 && data[from + 1] == MARKER_1 {
        Some(from)
    } else {
        spec_find_marker(data, from + 1)
    }
}

/// What `spec_find_marker` returns: the first marker position, or nothing
/// when no marker fits.
pub proof fn lemma_find_marker_props(data: Seq<u8>, from: int)
    requires
        0 <= from,
    ensures
        match spec_find_marker(data, from) {
            Some(start) => {
                &&& from <= start
                &&& spec_is_marker_at(data, start)
                &&& forall|i: int| from <= i < start ==> !spec_is_marker_at(data, i)
            },
            None => forall|i: int| from <= i ==> !spec_is_marker_at(data, i),
        },
    decreases data.len() - from,
{
    if from + 2 > data.len() {
        assert(forall|i: int| from <= i ==> !spec_is_marker_at(data, i));
    } else if data[from] == MARKER_0 && data[from + 1] == MARKER_1 {
    } else {
        lemma_find_marker_props(data, from + 1);
    }
}

/// The first marker at or after a known marker position `k`, with none
/// between `from` and `k`, is `k` itself.
pub proof fn lemma_find_marker_at(data: Seq<u8>, from: int, k: int)
    requires
        0 <= from <= k,
        spec_is_marker_at(data, k),
        forall|i: int| from <= i < k ==> !spec_is_marker_at(data, i),
    ensures
        spec_find_marker(data, from) == Some(k),
    decreases k - from,
{
    if from == k {
    } else {
        assert(!spec_is_marker_at(data, from));
        lemma_find_marker_at(data, from + 1, k);
    }
}

/// One pass of the scan from `cursor`: the packets it emits, in order, and
/// the cursor position where it stops. A marker whose type byte is unknown
/// is stepped over (resync); a frame whose header or payload runs past the
/// end of the buffer stops the pass without being consumed.
pub open spec fn spec_scan(data: Seq<u8>, cursor: int) -> (Seq<SpecPacket>, int)
    decreases data.len() - cursor when 0 <= cursor
{
    if cursor + 2 > data.len() {
        (Seq::<SpecPacket>::empty(), cursor)
    } else {
        match spec_find_marker(data, cursor) {
            None => (Seq::<SpecPacket>::empty(), cursor),
            Some(start) => {
                if start + MIN_PACKET_SIZE > data.len() {
                    (Seq::<SpecPacket>::empty(), cursor)
                } else if !spec_valid_type_byte(data[start + 2]) {
                    proof {
                        lemma_find_marker_props(data, cursor);
                    }
                    spec_scan(data, start + 2)
                } else {
                    let data_end = start + MIN_PACKET_SIZE + data[start + 3];
                    if data_end > data.len() {
                        (Seq::<SpecPacket>::empty(), start)
                    } else {
                        proof {
                            lemma_find_marker_props(data, cursor);
                        }
                        let rest = spec_scan(data, data_end);
                        (
                            seq![
                                SpecPacket {
                                    packet_type: spec_type_of_byte(data[start + 2]),
                                    payload: data.subrange(start + MIN_PACKET_SIZE, data_end),
                                },
                            ] + rest.0,
                            rest.1,
                        )
                    }
                }
            },
        }
    }
}

/// The packets one decoder call on `data` emits.
pub open spec fn spec_packets(data: Seq<u8>) -> Seq<SpecPacket> {
    spec_scan(data, 0).0
}

/// Where the first event of a scan starting at `cursor` happens: the
/// position recorded as "first skipped" — a packet start, the resume point
/// after a false marker, or all-but-one byte of a marker-free buffer.
pub open spec fn spec_first_event(data: Seq<u8>, cursor: int) -> Option<int> {
    if cursor + 2 > data.len() {
        None::<int>
    } else {
        match spec_find_marker(data, cursor) {
            None => Some(data.len() - 1),
            Some(start) => {
                if start + MIN_PACKET_SIZE > data.len() {
                    Some(start)
                } else if !spec_valid_type_byte(data[start + 2]) {
                    Some(start + 2)
                } else {
                    Some(start)
                }
            },
        }
    }
}

/// Length of the prefix a decoder call on `data` reports as skipped text.
pub open spec fn spec_skip(data: Seq<u8>) -> int {
    match spec_first_event(data, 0) {
        None => 0,
        Some(s) => s,
    }
}

/// Bytes the caller must drain from the head of the buffer after one
/// decoder call on `data`: everything up to the end of the last emitted
/// packet, or just the skipped prefix when nothing was emitted.
pub open spec fn spec_trim(data: Seq<u8>) -> int {
    if spec_packets(data).len() == 0 {
        spec_skip(data)
    } else {
        spec_scan(data, 0).1
    }
}

/// The first event position stays inside the buffer.
pub proof fn lemma_first_event_in_range(data: Seq<u8>, cursor: int)
    requires
        0 <= cursor,
    ensures
        match spec_first_event(data, cursor) {
            Some(s) => 0 <= s <= data.len(),
            None => true,
        },
        0 <= spec_skip(data) <= data.len(),
{
    if cursor + 2 <= data.len() {
        lemma_find_marker_props(data, cursor);
    }
    if 2 <= data.len() {
        lemma_find_marker_props(data, 0);
    }
}

/// The scan never moves backwards nor past the end of the buffer.
pub proof fn lemma_scan_cursor_in_range(data: Seq<u8>, cursor: int)
    requires
        0 <= cursor <= data.len(),
    ensures
        cursor <= spec_scan(data, cursor).1 <= data.len(),
    decreases data.len() - cursor,
{
    if cursor + 2 > data.len() {
    } else {
        lemma_find_marker_props(data, cursor);
        match spec_find_marker(data, cursor) {
            None => {},
            Some(start) => {
                if start + MIN_PACKET_SIZE > data.len() {
                } else if !spec_valid_type_byte(data[start + 2]) {
                    lemma_scan_cursor_in_range(data, start + 2);
                } else {
                    let data_end = start + MIN_PACKET_SIZE + data[start + 3];
                    if data_end <= data.len() {
                        lemma_scan_cursor_in_range(data, data_end);
                    }
                }
            },
        }
    }
}

/// The drained byte count stays inside the buffer.
pub proof fn lemma_trim_in_range(data: Seq<u8>)
    ensures
        0 <= spec_trim(data) <= data.len(),
{
    lemma_first_event_in_range(data, 0);
    lemma_scan_cursor_in_range(data, 0);
}

/// Position of the first marker at or after `from`, executed.
fn find_marker(data: &[u8], from: usize) -> (r: Option<usize>)
    requires
        from <= data@.len(),
    ensures
        match r {
            Some(i) => spec_find_marker(data@, from as int) == Some(i as int) && from <= i && i + 2
                <= data@.len(),
            None => spec_find_marker(data@, from as int) is None,
        },
{
    let len = data.len();
    if len < 2 || from > len - 2 {
        return None;
    }
    let mut i = from;
    while i <= len - 2
        invariant
            from <= i <= len - 1,
            2 <= len == data@.len(),
            spec_find_marker(data@, from as int) == spec_find_marker(data@, i as int),
        decreases len - i,
    {
        if data[i] == MARKER_0 && data[i + 1] == MARKER_1 {
            return Some(i);
        }
        i = i + 1;
    }
    None
}

/// What one decoder call returns: the prefix to surface as text, the byte
/// count to drain, and the packets found.
#[derive(Debug)]
pub struct MxsFilterResult<'a> {
    pub skipped_data: &'a [u8],
    pub trim_index: usize,
    pub packets: Vec<MxsPacket<'a>>,
}

/// Scan state over one immutable view of the rolling buffer.
pub struct MxsDecoder<'a> {
    pub data: &'a [u8],
    pub cursor: usize,
    pub skip_pos: Option<usize>,
}

impl<'a> MxsDecoder<'a> {
    /// Zero-copy packet filter.
    ///
    /// Scans the input buffer, extracts all complete packets, and returns
    /// the bytes skipped before the first accepted frame start, the count of
    /// bytes to drain from the head, and the decoded packets in wire order.
    /// All returned slices borrow from the input.
    pub fn filter_buffer(data: &'a [u8]) -> (r: MxsFilterResult<'a>)
        ensures
            r.packets@.map_values(|p: MxsPacket| p@) == spec_packets(data@),
            r.trim_index == spec_trim(data@),
            r.trim_index <= data@.len(),
            r.skipped_data@ == data@.subrange(0, spec_skip(data@)),
    {
        let buffer_len = data.len();
        let mut decoder = Self { data, cursor: 0, skip_pos: None };
        let mut packets: Vec<MxsPacket<'a>> = Vec::new();

        loop
            invariant_except_break
                spec_scan(data@, 0).0 == packets@.map_values(|p: MxsPacket| p@) + spec_scan(
                    data@,
                    decoder.cursor as int,
                ).0,
                spec_scan(data@, 0).1 == spec_scan(data@, decoder.cursor as int).1,
                decoder.skip_pos is None ==> decoder.cursor == 0 && packets@.len() == 0,
            invariant
                decoder.data == data,
                decoder.cursor <= data@.len(),
                buffer_len == data@.len(),
                match decoder.skip_pos {
                    Some(s) => spec_first_event(data@, 0) == Some(s as int),
                    None => true,
                },
            ensures
                decoder.data == data,
                packets@.map_values(|p: MxsPacket| p@) == spec_packets(data@),
                decoder.cursor as int == spec_scan(data@, 0).1,
                match decoder.skip_pos {
                    Some(s) => spec_first_event(data@, 0) == Some(s as int),
                    None => spec_first_event(data@, 0) is None,
                },
            decreases data@.len() - decoder.cursor,
        {
            proof {
                lemma_first_event_in_range(data@, 0);
            }
            let ghost packets_before = packets@;
            match decoder.extract_packet() {
                Some(packet) => {
                    packets.push(packet);
                    proof {
                        assert(packets@.map_values(|p: MxsPacket| p@) =~= packets_before
                            .map_values(|p: MxsPacket| p@).push(packets@.last()@));
                    }
                },
                None => {
                    break ;
                },
            }
        }

        let first_pos = match decoder.skip_pos {
            Some(s) => s,
            None => 0,
        };
        proof {
            lemma_first_event_in_range(data@, 0);
        }
        let skipped_data = slice_subrange(data, 0, first_pos);
        let trim_index = if packets.is_empty() {
            first_pos
        } else {
            decoder.cursor
        };

        MxsFilterResult { skipped_data, trim_index, packets }
    }

    /// Extract the next complete packet, stepping over false markers.
    ///
    /// Returns the packet and leaves the cursor just past it; returns
    /// nothing once no complete packet remains from the cursor, leaving the
    /// cursor where the next call (on a refilled buffer) must resume. The
    /// first skipped position is recorded the first time anything other
    /// than an immediate packet start is seen.
    pub fn extract_packet(&mut self) -> (r: Option<MxsPacket<'a>>)
        requires
            old(self).cursor <= old(self).data@.len(),
        ensures
            final(self).data == old(self).data,
            final(self).cursor <= final(self).data@.len(),
            match r {
                Some(p) => {
                    &&& spec_scan(final(self).data@, old(self).cursor as int).0 == seq![p@] + spec_scan(
                        final(self).data@,
                        final(self).cursor as int,
                    ).0
                    &&& spec_scan(final(self).data@, old(self).cursor as int).1 == spec_scan(
                        final(self).data@,
                        final(self).cursor as int,
                    ).1
                    &&& old(self).cursor < final(self).cursor
                },
                None => {
                    &&& spec_scan(final(self).data@, old(self).cursor as int).0
                        == Seq::<SpecPacket>::empty()
                    &&& final(self).cursor as int == spec_scan(final(self).data@, old(self).cursor as int).1
                },
            },
            final(self).skip_pos == (if old(self).skip_pos is Some {
                old(self).skip_pos
            } else {
                match spec_first_event(final(self).data@, old(self).cursor as int) {
                    Some(s) => Some(s as usize),
                    None => None::<usize>,
                }
            }),
    {
        let len = self.data.len();
        loop
            invariant
                self.data == old(self).data,
                old(self).cursor <= self.cursor <= len,
                len == self.data@.len(),
                spec_scan(self.data@, old(self).cursor as int).0 == spec_scan(
                    self.data@,
                    self.cursor as int,
                ).0,
                spec_scan(self.data@, old(self).cursor as int).1 == spec_scan(
                    self.data@,
                    self.cursor as int,
                ).1,
                self.skip_pos is None ==> old(self).skip_pos is None && self.cursor == old(
                    self,
                ).cursor,
                self.skip_pos is Some ==> self.skip_pos == (if old(self).skip_pos is Some {
                    old(self).skip_pos
                } else {
                    match spec_first_event(self.data@, old(self).cursor as int) {
                        Some(s) => Some(s as usize),
                        None => None::<usize>,
                    }
                }),
            decreases len - self.cursor,
        {
            // Buffer too short from the cursor to hold even a marker.
            if len < 2 || self.cursor > len - 2 {
                return None;
            }

            // ---- Find packet start
            let start = match find_marker(self.data, self.cursor) {
                Some(s) => s,
                None => {
                    // No marker anywhere: all but the last byte is text; the
                    // last byte may be the first half of a split marker.
                    if self.skip_pos.is_none() {
                        self.skip_pos = Some(len - 1);
                    }
                    return None;
                },
            };

            // Not enough bytes from the marker for a full header: retry the
            // header on the next call.
            if len - start < MIN_PACKET_SIZE {
                if self.skip_pos.is_none() {
                    self.skip_pos = Some(start);
                }
                return None;
            }

            // ---- Extract packet type
            let packet_type = match MxsPacketType::try_from(self.data[start + 2]) {
                Ok(pt) => pt,
                Err(_) => {
                    // Unknown type: a false marker. Resume right after the
                    // two marker bytes, which may themselves precede a
                    // genuine frame.
                    let resume = start + 2;
                    if self.skip_pos.is_none() {
                        self.skip_pos = Some(resume);
                    }
                    self.cursor = resume;
                    continue ;
                },
            };

            // ---- Extract payload length
            let data_len = self.data[start + 3] as usize;

            // ---- Extract payload
            let data_start = start + MIN_PACKET_SIZE;
            if data_len > len - data_start {
                // Declared payload runs past the buffer: keep the whole
                // frame head for the next call.
                self.cursor = start;
                if self.skip_pos.is_none() {
                    self.skip_pos = Some(start);
                }
                return None;
            }
            let data_end = data_start + data_len;

            let payload = slice_subrange(self.data, data_start, data_end);
            self.cursor = data_end;

            // Track the first packet position.
            if self.skip_pos.is_none() {
                self.skip_pos = Some(start);
            }

            return Some(MxsPacket { packet_type, data: payload });
        }
    }
}

/// A scan that reaches a whole frame filling the rest of the buffer emits
/// exactly that frame's packet and stops at the end of the buffer.
pub proof fn lemma_scan_frame_tail(data: Seq<u8>, start: int, t: MxsPacketType, payload: Seq<u8>)
    requires
        0 <= start,
        payload.len() <= 255,
        data.len() == start + MIN_PACKET_SIZE + payload.len(),
        data.subrange(start, data.len() as int) == spec_frame(t, payload),
    ensures
        spec_scan(data, start).0 == seq![SpecPacket { packet_type: t, payload }],
        spec_scan(data, start).1 == data.len(),
{
    let len = data.len() as int;
    let frame = spec_frame(t, payload);
    assert(data[start] == frame[0] && data[start + 1] == frame[1] && data[start + 2] == frame[2]
        && data[start + 3] == frame[3]) by {
        assert(data.subrange(start, len)[0] == data[start]);
        assert(data.subrange(start, len)[1] == data[start + 1]);
        assert(data.subrange(start, len)[2] == data[start + 2]);
        assert(data.subrange(start, len)[3] == data[start + 3]);
    }
    MxsPacketType::lemma_type_byte_round_trip(t);
    assert(data[start + 3] == payload.len() as u8);
    let data_end = start + MIN_PACKET_SIZE + data[start + 3];
    assert(data_end == len);
    assert forall|i: int| 0 <= i < payload.len() implies data.subrange(
        start + MIN_PACKET_SIZE,
        data_end,
    )[i] == payload[i] by {
        assert(data.subrange(start, len)[MIN_PACKET_SIZE + i] == data[start + MIN_PACKET_SIZE
            + i]);
        assert(frame[MIN_PACKET_SIZE + i] == payload[i]);
        assert(data.subrange(start + MIN_PACKET_SIZE, data_end)[i] == data[start + MIN_PACKET_SIZE
            + i]);
    }
    assert(data.subrange(start + MIN_PACKET_SIZE, data_end) =~= payload);
    assert(spec_scan(data, data_end).0 == Seq::<SpecPacket>::empty());
    assert(spec_scan(data, start).0 =~= seq![SpecPacket { packet_type: t, payload }]);
}

/// Round trip: framing a payload of any valid type and decoding the frame
/// yields exactly that packet, an empty skipped prefix, and a drain count
/// equal to the whole frame.
pub proof fn lemma_frame_round_trip(t: MxsPacketType, payload: Seq<u8>)
    requires
        payload.len() <= 255,
    ensures
        spec_packets(spec_frame(t, payload)) == seq![SpecPacket { packet_type: t, payload }],
        spec_skip(spec_frame(t, payload)) == 0,
        spec_trim(spec_frame(t, payload)) == payload.len() + MIN_PACKET_SIZE,
{
    let data = spec_frame(t, payload);
    assert(data.subrange(0, data.len() as int) =~= data);
    lemma_scan_frame_tail(data, 0, t, payload);
    MxsPacketType::lemma_type_byte_round_trip(t);
    assert(spec_find_marker(data, 0) == Some(0int));
}

/// When a call emits no packet, the drained bytes are exactly the bytes
/// surfaced as skipped text: across feed-and-trim cycles no byte of a
/// frame-free stream is lost or duplicated.
pub proof fn lemma_no_packets_preserves_bytes(data: Seq<u8>)
    requires
        spec_packets(data).len() == 0,
    ensures
        spec_trim(data) == spec_skip(data),
        0 <= spec_trim(data) <= data.len(),
        data.subrange(0, spec_skip(data)) + data.skip(spec_trim(data)) == data,
{
    lemma_trim_in_range(data);
    assert(data.subrange(0, spec_skip(data)) + data.skip(spec_trim(data)) =~= data);
}

/// A buffer with no marker anywhere yields no packets; everything but the
/// final byte is skipped text, and that byte stays in the buffer in case a
/// marker spans the read boundary.
pub proof fn lemma_no_marker_scan(data: Seq<u8>)
    requires
        data.len() >= 2,
        forall|i: int| !spec_is_marker_at(data, i),
    ensures
        spec_packets(data) == Seq::<SpecPacket>::empty(),
        spec_skip(data) == data.len() - 1,
        spec_trim(data) == data.len() - 1,
{
    lemma_find_marker_props(data, 0);
    assert(spec_find_marker(data, 0) is None);
}

/// Resync: a false marker (unknown type byte) followed by marker-free bytes
/// and then one whole frame still yields exactly that frame's packet; the
/// scan steps past the false marker rather than consuming the real frame.
pub proof fn lemma_resync_past_false_marker(junk: Seq<u8>, t: MxsPacketType, payload: Seq<u8>)
    requires
        payload.len() <= 255,
        junk.len() >= 3,
        junk[0] == MARKER_0,
        junk[1] == MARKER_1,
        !spec_valid_type_byte(junk[2]),
        forall|i: int|
            2 <= i < junk.len() ==> !spec_is_marker_at(junk + spec_frame(t, payload), i),
    ensures
        spec_packets(junk + spec_frame(t, payload)) == seq![
            SpecPacket { packet_type: t, payload },
        ],
{
    let data = junk + spec_frame(t, payload);
    let jl = junk.len() as int;
    let len = data.len() as int;
    assert(data[0] == MARKER_0 && data[1] == MARKER_1);
    assert(!spec_valid_type_byte(data[2]));
    assert(spec_find_marker(data, 0) == Some(0int));
    // The scan steps to position 2; the next marker it can find is the
    // frame start.
    assert(spec_is_marker_at(data, jl));
    lemma_find_marker_at(data, 2, jl);
    assert(data.subrange(jl, len) =~= spec_frame(t, payload));
    lemma_scan_frame_tail(data, jl, t, payload);
    MxsPacketType::lemma_type_byte_round_trip(t);
    let data_end = jl + MIN_PACKET_SIZE + data[jl + 3];
    assert(data[jl + 3] == spec_frame(t, payload)[3]);
    assert(data_end == len);
    assert(data.subrange(2 + MIN_PACKET_SIZE as int - 4, len) == data.subrange(2, len));
    assert(spec_scan(data, 0) == spec_scan(data, 2));
    assert(spec_scan(data, 2).0 =~= spec_scan(data, jl).0);
}

/// Truncated-frame carry-over: a buffer holding a frame head whose declared
/// payload is not all there yet yields no packet and drains nothing, and
/// once the missing bytes arrive the single frame is emitted whole.
pub proof fn lemma_truncated_frame_carry_over(t: MxsPacketType, prefix: Seq<u8>, rest: Seq<u8>)
    requires
        prefix.len() + rest.len() <= 255,
        rest.len() > 0,
    ensures
        ({
            let head = seq![
                MARKER_0,
                MARKER_1,
                spec_type_byte(t),
                (prefix.len() + rest.len()) as u8,
            ] + prefix;
            &&& spec_packets(head) == Seq::<SpecPacket>::empty()
            &&& spec_trim(head) == 0
            &&& spec_packets(head + rest) == seq![
                SpecPacket { packet_type: t, payload: prefix + rest },
            ]
            &&& spec_trim(head + rest) == MIN_PACKET_SIZE + prefix.len() + rest.len()
        }),
{
    let head = seq![
        MARKER_0,
        MARKER_1,
        spec_type_byte(t),
        (prefix.len() + rest.len()) as u8,
    ] + prefix;
    MxsPacketType::lemma_type_byte_round_trip(t);
    assert(spec_find_marker(head, 0) == Some(0int));
    assert(head[3] == (prefix.len() + rest.len()) as u8);
    assert(MIN_PACKET_SIZE + head[3] > head.len());
    assert(head + rest =~= spec_frame(t, prefix + rest));
    lemma_frame_round_trip(t, prefix + rest);
}

/// Dropping bytes the marker search never revisits does not change what it
/// finds.
pub proof fn lemma_find_marker_shift(data: Seq<u8>, base: int, from: int)
    requires
        0 <= base <= from,
        base <= data.len(),
    ensures
        spec_find_marker(data.skip(base), from - base) == match spec_find_marker(data, from) {
            None => None::<int>,
            Some(s) => Some(s - base),
        },
    decreases data.len() - from,
{
    let tail = data.skip(base);
    assert(tail.len() == data.len() - base);
    if from + 2 > data.len() {
    } else {
        assert(tail[from - base] == data[from]);
        assert(tail[from - base + 1] == data[from + 1]);
        if data[from] == MARKER_0 && data[from + 1] == MARKER_1 {
        } else {
            lemma_find_marker_shift(data, base, from + 1);
        }
    }
}

/// Draining an already-scanned prefix does not change what a scan from a
/// position inside the remainder emits.
pub proof fn lemma_scan_shift(data: Seq<u8>, base: int, cursor: int)
    requires
        0 <= base <= cursor <= data.len(),
    ensures
        spec_scan(data.skip(base), cursor - base).0 == spec_scan(data, cursor).0,
        spec_scan(data.skip(base), cursor - base).1 == spec_scan(data, cursor).1 - base,
    decreases data.len() - cursor,
{
    let tail = data.skip(base);
    assert(tail.len() == data.len() - base);
    lemma_find_marker_shift(data, base, cursor);
    lemma_find_marker_props(data, cursor);
    if cursor + 2 > data.len() {
    } else {
        match spec_find_marker(data, cursor) {
            None => {},
            Some(start) => {
                if start + MIN_PACKET_SIZE > data.len() {
                } else {
                    assert(tail[start - base + 2] == data[start + 2]);
                    assert(tail[start - base + 3] == data[start + 3]);
                    if !spec_valid_type_byte(data[start + 2]) {
                        lemma_scan_shift(data, base, start + 2);
                    } else {
                        let data_end = start + MIN_PACKET_SIZE + data[start + 3];
                        if data_end > data.len() {
                        } else {
                            lemma_scan_shift(data, base, data_end);
                            let shifted = tail.subrange(
                                start - base + MIN_PACKET_SIZE,
                                data_end - base,
                            );
                            let original = data.subrange(start + MIN_PACKET_SIZE, data_end);
                            assert forall|i: int| 0 <= i < original.len() implies shifted[i]
                                == original[i] by {
                                assert(tail[start - base + MIN_PACKET_SIZE + i] == data[start
                                    + MIN_PACKET_SIZE + i]);
                            }
                            assert(shifted =~= original);
                            assert(spec_scan(tail, cursor - base).0 =~= spec_scan(
                                data,
                                cursor,
                            ).0);
                        }
                    }
                }
            },
        }
    }
}

/// Scanning again from where a scan stopped finds nothing more.
pub proof fn lemma_scan_fixpoint(data: Seq<u8>, cursor: int)
    requires
        0 <= cursor <= data.len(),
    ensures
        spec_scan(data, spec_scan(data, cursor).1).0 == Seq::<SpecPacket>::empty(),
        spec_scan(data, spec_scan(data, cursor).1).1 == spec_scan(data, cursor).1,
    decreases data.len() - cursor,
{
    lemma_find_marker_props(data, cursor);
    if cursor + 2 > data.len() {
    } else {
        match spec_find_marker(data, cursor) {
            None => {},
            Some(start) => {
                if start + MIN_PACKET_SIZE > data.len() {
                } else if !spec_valid_type_byte(data[start + 2]) {
                    lemma_scan_fixpoint(data, start + 2);
                } else {
                    let data_end = start + MIN_PACKET_SIZE + data[start + 3];
                    if data_end > data.len() {
                        assert(spec_find_marker(data, start) == Some(start));
                    } else {
                        lemma_scan_fixpoint(data, data_end);
                    }
                }
            },
        }
    }
}

/// Idempotence of the tail: after draining what one call processed, a call
/// on the remainder emits nothing — no packet is emitted twice, and none
/// that the first call reported is lost.
pub proof fn lemma_tail_idempotent(data: Seq<u8>)
    ensures
        0 <= spec_trim(data) <= data.len(),
        spec_packets(data.skip(spec_trim(data))) == Seq::<SpecPacket>::empty(),
{
    lemma_trim_in_range(data);
    let trim = spec_trim(data);
    if spec_packets(data).len() == 0 {
        if data.len() < 2 {
        } else {
            lemma_find_marker_props(data, 0);
            match spec_find_marker(data, 0) {
                None => {},
                Some(start) => {
                    assert(spec_find_marker(data, start) == Some(start));
                    if start + MIN_PACKET_SIZE > data.len() {
                    } else if !spec_valid_type_byte(data[start + 2]) {
                    } else {
                        let data_end = start + MIN_PACKET_SIZE + data[start + 3];
                        if data_end <= data.len() {
                            assert(spec_packets(data).len() > 0);
                        }
                    }
                },
            }
        }
        assert(spec_scan(data, trim).0 == Seq::<SpecPacket>::empty());
    } else {
        lemma_scan_fixpoint(data, 0);
    }
    lemma_scan_shift(data, trim, trim);
}

/// All chunks joined into one byte sequence, in feed order.
pub open spec fn spec_concat_all(chunks: Seq<Seq<u8>>) -> Seq<u8>
    decreases chunks.len(),
{
    if chunks.len() == 0 {
        Seq::<u8>::empty()
    } else {
        spec_concat_all(chunks.drop_last()) + chunks.last()
    }
}

/// The feed-and-trim cycle: each call appends one chunk to the rolling
/// buffer, surfaces the skipped prefix as text, and drains the trim count.
/// The result is the buffer left over, the text surfaced so far, and
/// whether any call emitted a packet.
pub open spec fn spec_feed_run(chunks: Seq<Seq<u8>>) -> (Seq<u8>, Seq<u8>, bool)
    decreases chunks.len(),
{
    if chunks.len() == 0 {
        (Seq::<u8>::empty(), Seq::<u8>::empty(), false)
    } else {
        let prev = spec_feed_run(chunks.drop_last());
        let data = prev.0 + chunks.last();
        (
            data.skip(spec_trim(data)),
            prev.1 + data.subrange(0, spec_skip(data)),
            prev.2 || spec_packets(data).len() > 0,
        )
    }
}

/// Skipped-text preservation: over any frame-free feed (no call of the
/// cycle emits a packet), the text surfaced so far plus what still sits in
/// the buffer is exactly the bytes fed, in order — none lost, none
/// duplicated.
pub proof fn lemma_skipped_text_preservation(chunks: Seq<Seq<u8>>)
    requires
        !spec_feed_run(chunks).2,
    ensures
        spec_feed_run(chunks).1 + spec_feed_run(chunks).0 == spec_concat_all(chunks),
    decreases chunks.len(),
{
    if chunks.len() == 0 {
        assert(spec_feed_run(chunks).1 + spec_feed_run(chunks).0 =~= spec_concat_all(chunks));
    } else {
        lemma_skipped_text_preservation(chunks.drop_last());
        let prev = spec_feed_run(chunks.drop_last());
        let data = prev.0 + chunks.last();
        lemma_no_packets_preserves_bytes(data);
        assert(spec_feed_run(chunks).1 + spec_feed_run(chunks).0 =~= (prev.1 + prev.0)
            + chunks.last());
        assert((prev.1 + prev.0) + chunks.last() =~= spec_concat_all(chunks));
    }
}

} // verus!
