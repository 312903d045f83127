//! The serial worker's message protocol and its per-read processing.
//!
//! The worker owns the rolling buffer. Each time the port hands it bytes it
//! appends them, runs the decoder, turns the result into typed messages for
//! the foreground controller — skipped text first, then one message per
//! packet in wire order — and drains the processed head of the buffer. In
//! direct mode the decoder is bypassed and the whole buffer is surfaced as
//! text. The port itself, the threads and the channels live outside this
//! crate; they hand bytes in and carry the returned messages out in order.

use vstd::prelude::*;
use vstd::slice::{slice_subrange, slice_to_vec};
use vstd::string::StringExecFns;

use crate::data::{Data, spec_decode_data};
use crate::mxs_decoder::{MxsDecoder, MxsPacket, SpecPacket, spec_packets, spec_skip, spec_trim};
use crate::mxs_shared::MxsPacketType;

verus! {

/// A message from the serial worker to the foreground controller.
#[derive(Debug)]
pub enum ThreadMsg {
    /// Sent exactly once when the worker starts.
    Started,
    Done,
    /// Sent exactly once when the worker exits; ends the foreground loop.
    Exiting,
    /// A human-readable cause of a failure.
    Error(String),
    /// A run of free-form text to show in the scrolling region.
    Print(String),
    /// A successfully parsed data record.
    Data(Data),
}

/// Mathematical form of a worker message.
pub enum SpecMsg {
    Started,
    Done,
    Exiting,
    Error(Seq<char>),
    Print(Seq<char>),
    Data(Data),
}

impl View for ThreadMsg {
    type V = SpecMsg;

    open spec fn view(&self) -> SpecMsg {
        match self {
            ThreadMsg::Started => SpecMsg::Started,
            ThreadMsg::Done => SpecMsg::Done,
            ThreadMsg::Exiting => SpecMsg::Exiting,
            ThreadMsg::Error(s) => SpecMsg::Error(s@),
            ThreadMsg::Print(s) => SpecMsg::Print(s@),
            ThreadMsg::Data(d) => SpecMsg::Data(*d),
        }
    }
}

/// What `String::from_utf8_lossy` renders a byte run as; it depends on the
/// bytes alone.
pub uninterp spec fn utf8_lossy_of(b: Seq<u8>) -> Seq<char>;

/// Relies on String::from_utf8_lossy: a UTF-8-lossy rendering of the bytes.
#[verifier::external_body]
fn utf8_lossy(b: &[u8]) -> (r: String)
    ensures
        r@ == utf8_lossy_of(b@),
{
    String::from_utf8_lossy(b).into_owned()
}

/// The message one decoded packet gives rise to: a parsed record or a
/// conversion error for a `Data` packet, a one-line notice for the rest.
pub open spec fn spec_packet_msg(p: SpecPacket) -> SpecMsg {
    match p.packet_type {
        MxsPacketType::Data => match spec_decode_data(p.payload) {
            Some(d) => SpecMsg::Data(d),
            None => SpecMsg::Error("Couldn't convert byte stream into data"@),
        },
        MxsPacketType::End => SpecMsg::Print("Received: End\n"@),
        MxsPacketType::Start => SpecMsg::Print("Received: Start\n"@),
        MxsPacketType::Heartbeat => SpecMsg::Print("Received: Heartbeat\n"@),
        MxsPacketType::Error => SpecMsg::Print("Received: Error\n"@),
    }
}

/// The messages one decoder pass over `data` emits: the skipped prefix as
/// text when non-empty, then one message per packet in wire order.
pub open spec fn spec_worker_msgs(data: Seq<u8>) -> Seq<SpecMsg> {
    let skipped = data.subrange(0, spec_skip(data));
    let packet_msgs = spec_packets(data).map_values(|p: SpecPacket| spec_packet_msg(p));
    if skipped.len() > 0 {
        seq![SpecMsg::Print(utf8_lossy_of(skipped))] + packet_msgs
    } else {
        packet_msgs
    }
}

/// One worker read step: append the bytes just read to the rolling buffer,
/// then either surface the whole buffer as text (direct mode) or decode it,
/// message the results, and drain the processed head.
pub fn process_incoming(buffer: &mut Vec<u8>, incoming: &[u8], direct: bool) -> (msgs: Vec<
    ThreadMsg,
>)
    ensures
        direct ==> msgs@.map_values(|m: ThreadMsg| m@) == seq![
            SpecMsg::Print(utf8_lossy_of(old(buffer)@ + incoming@)),
        ] && final(buffer)@ == Seq::<u8>::empty(),
        !direct ==> msgs@.map_values(|m: ThreadMsg| m@) == spec_worker_msgs(
            old(buffer)@ + incoming@,
        ) && final(buffer)@ == (old(buffer)@ + incoming@).skip(
            spec_trim(old(buffer)@ + incoming@),
        ),
{
    let mut j: usize = 0;
    while j < incoming.len()
        invariant
            j <= incoming@.len(),
            buffer@ == old(buffer)@ + incoming@.subrange(0, j as int),
        decreases incoming@.len() - j,
    {
        buffer.push(incoming[j]);
        proof {
            assert(buffer@ =~= old(buffer)@ + incoming@.subrange(0, j + 1));
        }
        j = j + 1;
    }
    proof {
        assert(buffer@ =~= old(buffer)@ + incoming@);
    }
    let ghost combined = buffer@;

    let mut msgs: Vec<ThreadMsg> = Vec::new();

    if direct {
        msgs.push(ThreadMsg::Print(utf8_lossy(buffer.as_slice())));
        buffer.clear();
        proof {
            assert(msgs@.map_values(|m: ThreadMsg| m@) =~= seq![
                SpecMsg::Print(utf8_lossy_of(combined)),
            ]);
        }
        return msgs;
    }

    let result = MxsDecoder::filter_buffer(buffer.as_slice());

    // Surface the skipped non-packet prefix as text.
    if !result.skipped_data.is_empty() {
        msgs.push(ThreadMsg::Print(utf8_lossy(result.skipped_data)));
    }
    let ghost head_msgs = msgs@.map_values(|m: ThreadMsg| m@);

    // One message per packet, in wire order.
    let ghost spec_pkts = spec_packets(combined);
    let mut i: usize = 0;
    while i < result.packets.len()
        invariant
            result.packets@.map_values(|p: MxsPacket| p@) == spec_pkts,
            spec_pkts == spec_packets(combined),
            i <= result.packets@.len(),
            msgs@.map_values(|m: ThreadMsg| m@) == head_msgs + spec_pkts.subrange(
                0,
                i as int,
            ).map_values(|p: SpecPacket| spec_packet_msg(p)),
        decreases result.packets@.len() - i,
    {
        let ghost msgs_prev = msgs@.map_values(|m: ThreadMsg| m@);
        let packet = &result.packets[i];
        proof {
            assert(result.packets@.map_values(|p: MxsPacket| p@)[i as int] == packet@);
        }
        match packet.packet_type {
            MxsPacketType::Data => {
                match Data::try_from(packet.data) {
                    Some(d) => msgs.push(ThreadMsg::Data(d)),
                    None => msgs.push(
                        ThreadMsg::Error(
                            String::from_str("Couldn't convert byte stream into data"),
                        ),
                    ),
                }
            },
            MxsPacketType::End => msgs.push(ThreadMsg::Print(String::from_str("Received: End\n"))),
            MxsPacketType::Start => msgs.push(
                ThreadMsg::Print(String::from_str("Received: Start\n")),
            ),
            MxsPacketType::Heartbeat => msgs.push(
                ThreadMsg::Print(String::from_str("Received: Heartbeat\n")),
            ),
            MxsPacketType::Error => msgs.push(
                ThreadMsg::Print(String::from_str("Received: Error\n")),
            ),
        }
        proof {
            assert(msgs@.map_values(|m: ThreadMsg| m@) =~= msgs_prev.push(
                spec_packet_msg(spec_pkts[i as int]),
            ));
            assert(spec_pkts.subrange(0, i + 1).map_values(|p: SpecPacket| spec_packet_msg(p))
                =~= spec_pkts.subrange(0, i as int).map_values(
                |p: SpecPacket| spec_packet_msg(p),
            ).push(spec_packet_msg(spec_pkts[i as int])));
        }
        i = i + 1;
    }

    // Drain the processed head of the rolling buffer.
    let trim = result.trim_index;
    let tail = slice_to_vec(slice_subrange(buffer.as_slice(), trim, buffer.len()));
    *buffer = tail;

    proof {
        assert(spec_pkts.subrange(0, spec_pkts.len() as int) =~= spec_pkts);
        assert(msgs@.map_values(|m: ThreadMsg| m@) =~= spec_worker_msgs(combined));
    }
    msgs
}

} // verus!
