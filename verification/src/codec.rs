//! Framing: the byte stream of a connection as a sequence of frames.
use bytes::{Bytes, BytesMut};
use vstd::prelude::*;
use vstd::slice::slice_subrange;

use crate::buffer::{buffer_contents, buffer_slice, frozen_slice, has_room, put_slice};
use crate::error::{Error, Result};
use crate::octets::{be32, be32_round_trip, be32_value, read_u32};
use crate::pdu::{Frame, Pdu};
use crate::text::{decimal, push_decimal};
use crate::types::{CmppHeader, CMPP_HEADER_LENGTH, CMPP_MAX_MESSAGE_LENGTH};
use crate::wire::{parse_pdu, pdu_round_trip, received_unharmed, FrameView, Parsed};

verus! {

/// The text of the error for a length that no message can have.
pub open spec fn length_text(total: nat) -> Seq<char> {
    "message length 无效: "@ + decimal(total) + "，期望范围 ["@ + decimal(12) + ", "@ + decimal(65536)
        + "]"@
}

/// Whether a message can have the length `total`.
pub open spec fn is_message_length(total: nat) -> bool {
    CMPP_HEADER_LENGTH <= total <= CMPP_MAX_MESSAGE_LENGTH
}

/// The next frame at the front of a stream, and what is left of the stream behind it: no frame
/// and all of the stream while the frame is incomplete, an error and all of it where the length
/// is none that a message can have, and where the frame cannot be read an error and the bytes
/// behind that frame.
pub open spec fn next_frame(src: Seq<u8>) -> (Parsed<Option<FrameView>>, Seq<u8>) {
    let total = be32_value(src.subrange(0, 4)) as nat;
    if src.len() < CMPP_HEADER_LENGTH {
        (Ok(None), src)
    } else if !is_message_length(total) {
        (Err(length_text(total)), src)
    } else if src.len() < total {
        (Ok(None), src)
    } else {
        let read = parse_pdu(
            be32_value(src.subrange(4, 8)),
            src.subrange(CMPP_HEADER_LENGTH as int, total as int),
        );
        let outcome = match read {
            Ok(pdu) => Ok(
                Some(FrameView { sequence_id: be32_value(src.subrange(8, 12)), pdu }),
            ),
            Err(text) => Err(text),
        };
        (outcome, src.skip(total as int))
    }
}

/// Whether a result of the decoder is the outcome that the model gives.
pub open spec fn framed(result: Result<Option<Frame>>, outcome: Parsed<Option<FrameView>>) -> bool {
    match outcome {
        Ok(None) => result matches Ok(None),
        Ok(Some(frame)) => result matches Ok(Some(f)) && f@ == frame,
        Err(text) => result matches Err(e) && e.is_decode(text),
    }
}

/// Reads and writes frames at the two ends of a byte buffer.
#[derive(Debug, Clone, Copy)]
pub struct CmppFrameCodec;

impl Default for CmppFrameCodec {
    fn default() -> (codec: CmppFrameCodec)
        ensures
            codec == CmppFrameCodec,
    {
        CmppFrameCodec
    }
}

impl CmppFrameCodec {
    /// Takes the next frame off the front of `src`, once all of it is there.
    pub fn decode(&mut self, src: &mut BytesMut) -> (result: Result<Option<Frame>>)
        ensures
            framed(result, next_frame(buffer_contents(*old(src))).0),
            buffer_contents(*final(src)) == next_frame(buffer_contents(*old(src))).1,
    {
        let ghost stream = buffer_contents(*src);
        if src.len() < CMPP_HEADER_LENGTH {
            let missing: usize = CMPP_HEADER_LENGTH - src.len();
            src.reserve(missing);
            return Ok(None);
        }
        let bytes: &[u8] = buffer_slice(src);
        let total_length: u32 = read_u32(slice_subrange(bytes, 0, 4));
        let command_id: u32 = read_u32(slice_subrange(bytes, 4, 8));
        let sequence_id: u32 = read_u32(slice_subrange(bytes, 8, 12));
        let total: usize = total_length as usize;
        if total < CMPP_HEADER_LENGTH || total > CMPP_MAX_MESSAGE_LENGTH {
            let mut text: String = "message length 无效: ".to_string();
            push_decimal(&mut text, total as u64);
            text.append("，期望范围 [");
            push_decimal(&mut text, CMPP_HEADER_LENGTH as u64);
            text.append(", ");
            push_decimal(&mut text, CMPP_MAX_MESSAGE_LENGTH as u64);
            text.append("]");
            return Err(Error::Decode(text));
        }
        if src.len() < total {
            let needed: usize = total - src.len();
            src.reserve(needed);
            return Ok(None);
        }
        let header: CmppHeader = CmppHeader { total_length, command_id, sequence_id };
        let raw: BytesMut = src.split_to(total);
        let message: &[u8] = buffer_slice(&raw);
        let body: &[u8] = slice_subrange(message, CMPP_HEADER_LENGTH, total);
        assert(body@ =~= stream.subrange(CMPP_HEADER_LENGTH as int, total as int));
        let pdu: Pdu = Pdu::decode(header, body)?;
        Ok(Some(Frame::new(header.sequence_id, pdu)))
    }

    /// Appends a frame whose counts fit their fields.
    pub fn encode(&mut self, item: Frame, dst: &mut BytesMut) -> (result: Result<()>)
        requires
            item@.pdu.fault() is None,
            has_room(buffer_contents(*old(dst)).len(), item@.bytes().len()),
        ensures
            result is Ok,
            buffer_contents(*final(dst)) == buffer_contents(*old(dst)) + item@.bytes(),
    {
        let bytes: Bytes = item.encode();
        let encoded: &[u8] = frozen_slice(&bytes);
        dst.reserve(encoded.len());
        put_slice(dst, encoded);
        Ok(())
    }
}

/// Every frame that can be encoded has a length that a message can have.
pub proof fn encoded_length(frame: FrameView)
    requires
        frame.pdu.wf(),
        frame.pdu.fault() is None,
    ensures
        frame.bytes().len() == CMPP_HEADER_LENGTH + frame.pdu.body().len(),
        is_message_length(frame.bytes().len()),
        be32_value(frame.bytes().subrange(0, 4)) == frame.bytes().len(),
{
    let bytes = frame.bytes();
    let total = (CMPP_HEADER_LENGTH + frame.pdu.body().len()) as u32;
    assert(frame.pdu.body().len() <= 6000);
    be32_round_trip(total);
    assert(bytes.subrange(0, 4) =~= be32(total));
}

/// Decoding gives back what was encoded: from a stream that starts with a frame, that frame is
/// taken, its texts as fixed-width fields give them back, and the rest of the stream stays.
pub proof fn decode_encoded(frame: FrameView, rest: Seq<u8>)
    requires
        frame.pdu.wf(),
        frame.pdu.fault() is None,
    ensures
        next_frame(frame.bytes() + rest) == (
            Ok::<Option<FrameView>, Seq<char>>(
                Some(FrameView { pdu: frame.pdu.received(), ..frame }),
            ),
            rest,
        ),
        frame.pdu.fits() ==> frame.pdu.received() == frame.pdu,
{
    let bytes = frame.bytes();
    let src = bytes + rest;
    let total = bytes.len() as int;
    encoded_length(frame);
    pdu_round_trip(frame.pdu);
    be32_round_trip(frame.pdu.command_id());
    be32_round_trip(frame.sequence_id);
    assert(src.subrange(0, 4) =~= bytes.subrange(0, 4));
    assert(src.subrange(4, 8) =~= be32(frame.pdu.command_id()));
    assert(src.subrange(8, 12) =~= be32(frame.sequence_id));
    assert(src.subrange(12, total) =~= frame.pdu.body());
    assert(src.skip(total) =~= rest);
    if frame.pdu.fits() {
        received_unharmed(frame.pdu);
    }
}

/// As long as the last byte of a frame is missing, nothing is taken from the stream.
pub proof fn incomplete_waits(frame: FrameView, n: int)
    requires
        frame.pdu.wf(),
        frame.pdu.fault() is None,
        0 <= n < frame.bytes().len(),
    ensures
        next_frame(frame.bytes().take(n)) == (
            Ok::<Option<FrameView>, Seq<char>>(None),
            frame.bytes().take(n),
        ),
{
    encoded_length(frame);
    if n >= CMPP_HEADER_LENGTH {
        assert(frame.bytes().take(n).subrange(0, 4) =~= frame.bytes().subrange(0, 4));
    }
}

/// What arrives behind a frame, or behind a length that no message can have, changes nothing of
/// what the decoder makes of it.
pub proof fn decoding_is_local(src: Seq<u8>, more: Seq<u8>)
    requires
        next_frame(src).0 != Ok::<Option<FrameView>, Seq<char>>(None),
    ensures
        next_frame(src + more) == (next_frame(src).0, next_frame(src).1 + more),
{
    let total = be32_value(src.subrange(0, 4)) as int;
    let all = src + more;
    assert(all.subrange(0, 4) =~= src.subrange(0, 4));
    if is_message_length(total as nat) {
        assert(all.subrange(4, 8) =~= src.subrange(4, 8));
        assert(all.subrange(8, 12) =~= src.subrange(8, 12));
        assert(all.subrange(12, total) =~= src.subrange(12, total));
        assert(all.skip(total) =~= src.skip(total) + more);
    }
}

/// A stream of frames, one behind the other.
pub open spec fn stream_of(frames: Seq<FrameView>) -> Seq<u8>
    decreases frames.len(),
{
    if frames.len() == 0 {
        seq![]
    } else {
        frames[0].bytes() + stream_of(frames.drop_first())
    }
}

/// The frames that decoding `n` times takes off a stream, and what is left of it then; none if
/// one of them is incomplete or cannot be read.
pub open spec fn take_frames(src: Seq<u8>, n: nat) -> Option<(Seq<FrameView>, Seq<u8>)>
    decreases n,
{
    if n == 0 {
        Some((seq![], src))
    } else {
        match next_frame(src) {
            (Ok(Some(frame)), rest) => match take_frames(rest, (n - 1) as nat) {
                Some((frames, left)) => Some((seq![frame] + frames, left)),
                None => None,
            },
            _ => None,
        }
    }
}

/// Whether a frame can be encoded and no text of it is harmed on the wire.
pub open spec fn carries_whole(frame: FrameView) -> bool {
    frame.pdu.wf() && frame.pdu.fault() is None && frame.pdu.fits()
}

proof fn whole_frame_first(frame: FrameView, rest: Seq<u8>)
    requires
        carries_whole(frame),
    ensures
        next_frame(frame.bytes() + rest) == (
            Ok::<Option<FrameView>, Seq<char>>(Some(frame)),
            rest,
        ),
{
    decode_encoded(frame, rest);
}

proof fn take_one_more(
    src: Seq<u8>,
    frame: FrameView,
    rest: Seq<u8>,
    frames: Seq<FrameView>,
    left: Seq<u8>,
)
    requires
        next_frame(src) == (Ok::<Option<FrameView>, Seq<char>>(Some(frame)), rest),
        take_frames(rest, frames.len()) == Some((frames, left)),
    ensures
        take_frames(src, frames.len() + 1) == Some((seq![frame] + frames, left)),
{
}

/// Frames that were encoded one behind the other are decoded in that order, and nothing is left
/// over.
pub proof fn decode_stream(frames: Seq<FrameView>)
    requires
        forall|i: int| 0 <= i < frames.len() ==> carries_whole(#[trigger] frames[i]),
    ensures
        take_frames(stream_of(frames), frames.len()) == Some((frames, Seq::<u8>::empty())),
    decreases frames.len(),
{
    if frames.len() > 0 {
        let rest = frames.drop_first();
        decode_stream(rest);
        whole_frame_first(frames[0], stream_of(rest));
        take_one_more(stream_of(frames), frames[0], stream_of(rest), rest, Seq::empty());
        assert(seq![frames[0]] + rest =~= frames);
    } else {
        assert(frames =~= seq![]);
        assert(stream_of(frames) =~= Seq::<u8>::empty());
    }
}

/// A frame is told by its header. Nothing happens before its 12 bytes are there. A length below
/// 12 or above 65536 is an error, and the stream stays. Otherwise, once as many bytes are there
/// as the length tells, just those are taken: the body stands from byte 12 on and is read under
/// the command id of bytes 4 to 7, and the frame has the sequence id of bytes 8 to 11. A body
/// that cannot be read is an error, and its frame is gone all the same.
pub proof fn frames_are_told_by_their_header(src: Seq<u8>)
    ensures
        ({
            let total = src[0] * 16777216 + src[1] * 65536 + src[2] * 256 + src[3];
            let command_id = src[4] * 16777216 + src[5] * 65536 + src[6] * 256 + src[7];
            let sequence_id = src[8] * 16777216 + src[9] * 65536 + src[10] * 256 + src[11];
            let (outcome, left) = next_frame(src);
            if src.len() < 12 {
                outcome == Ok::<Option<FrameView>, Seq<char>>(None) && left == src
            } else if total < 12 || total > 65536 {
                outcome is Err && left == src
            } else if src.len() < total {
                outcome == Ok::<Option<FrameView>, Seq<char>>(None) && left == src
            } else {
                &&& left == src.subrange(total, src.len() as int)
                &&& match parse_pdu(command_id as u32, src.subrange(12, total)) {
                    Ok(p) => outcome matches Ok(Some(frame)) && frame.pdu == p
                        && frame.sequence_id == sequence_id,
                    Err(text) => outcome == Err::<Option<FrameView>, Seq<char>>(text),
                }
            }
        }),
{
}

/// What the decoder returns is the next frame, nothing, or a decode error, as the stream has it.
pub proof fn framing_is_exact(result: Result<Option<Frame>>, outcome: Parsed<Option<FrameView>>)
    requires
        framed(result, outcome),
    ensures
        result is Ok <==> outcome is Ok,
        result matches Ok(frame) ==> (frame is Some <==> outcome->Ok_0 is Some),
        result matches Ok(Some(frame)) ==> frame@ == outcome->Ok_0->0,
        result matches Err(e) ==> (e matches Error::Decode(text) && text@ == outcome->Err_0),
{
}

} // verus!
