//! Frames: a four-byte length field followed by that many bytes of payload.

use vstd::prelude::*;
use vstd::slice::slice_subrange;
use crate::byte_order::{
    ByteOrder, announced_length, byte_swapped, is_symmetric_length, length_field,
    lemma_length_field_cross_order, lemma_length_field_round_trip,
};

verus! {

/// Why a frame could not be written or read.
#[derive(Clone, Copy, Debug, PartialEq, Eq, Structural)]
pub enum FrameError {
    /// The payload is longer than a 32-bit length field can announce.
    FrameTooLarge,
    /// The stream ended before the length field, or before the payload that
    /// the length field announces, was complete.
    Truncated,
    /// The payload is not the JSON text of a message.
    MalformedPayload,
    /// The serializer did not produce a text for the message.
    NotSerializable,
}

/// The frame that carries `payload` with its length field in the given order.
pub open spec fn frame_bytes(payload: Seq<u8>, order: ByteOrder) -> Seq<u8>
    recommends
        payload.len() <= u32::MAX,
{
    length_field(payload.len() as u32, order) + payload
}

/// The first frame of a stream that has ended after `stream`: its payload and
/// the number of bytes that the frame takes up, or `Truncated` where the
/// stream holds no complete frame.
pub open spec fn first_frame(stream: Seq<u8>, order: ByteOrder) -> Result<(Seq<u8>, int), FrameError> {
    if stream.len() < 4 {
        Err(FrameError::Truncated)
    } else {
        let announced = announced_length(stream.subrange(0, 4), order);
        if stream.len() - 4 < announced {
            Err(FrameError::Truncated)
        } else {
            Ok((stream.subrange(4, 4 + announced), 4 + announced))
        }
    }
}

/// What writing a frame for `payload` gives: the frame, or `FrameTooLarge`
/// for a payload of more than `u32::MAX` bytes.
pub open spec fn encoded_frame(payload: Seq<u8>, order: ByteOrder) -> Result<Seq<u8>, FrameError> {
    if payload.len() > u32::MAX {
        Err(FrameError::FrameTooLarge)
    } else {
        Ok(frame_bytes(payload, order))
    }
}

/// The length of a payload as a length field can announce it: the length
/// itself where it fits in 32 bits, `FrameTooLarge` where it does not. No
/// length is ever cut down to fit.
pub fn checked_length(payload_len: usize) -> (result: Result<u32, FrameError>)
    ensures
        result == if payload_len <= u32::MAX {
            Ok::<u32, FrameError>(payload_len as u32)
        } else {
            Err::<u32, FrameError>(FrameError::FrameTooLarge)
        },
{
    if payload_len > u32::MAX as usize {
        Err(FrameError::FrameTooLarge)
    } else {
        Ok(payload_len as u32)
    }
}

/// Lays out one frame: the length of `payload` in the given byte order, then
/// the payload itself, in one buffer, so that a single write puts the frame on
/// the wire with nothing in between.
///
/// A payload of more than `u32::MAX` bytes is refused with `FrameTooLarge`.
pub fn encode_frame(payload: &[u8], order: ByteOrder) -> (result: Result<Vec<u8>, FrameError>)
    ensures
        match encoded_frame(payload@, order) {
            Ok(bytes) => result matches Ok(frame) && frame@ == bytes,
            Err(e) => result == Err::<Vec<u8>, FrameError>(e),
        },
{
    let len = payload.len();
    let announced = match checked_length(len) {
        Ok(announced) => announced,
        Err(e) => {
            return Err(e);
        },
    };
    let field = order.write_length(announced);
    let mut frame: Vec<u8> = Vec::new();
    frame.push(field[0]);
    frame.push(field[1]);
    frame.push(field[2]);
    frame.push(field[3]);
    assert(frame@ =~= length_field(len as u32, order));
    let mut i: usize = 0;
    while i < len
        invariant
            i <= len,
            len == payload@.len(),
            frame@ == length_field(len as u32, order) + payload@.subrange(0, i as int),
        decreases len - i,
    {
        frame.push(payload[i]);
        assert(payload@.subrange(0, i as int).push(payload@[i as int]) =~= payload@.subrange(
            0,
            i + 1,
        ));
        i = i + 1;
    }
    assert(payload@.subrange(0, len as int) =~= payload@);
    Ok(frame)
}

/// The number of payload bytes that a length field announces, for the caller
/// that reads a blocking stream: four bytes first, then as many as this.
pub fn payload_length(field: &[u8; 4], order: ByteOrder) -> (len: usize)
    ensures
        len == announced_length(field@, order),
{
    order.read_length(field) as usize
}

/// Reads the first frame of a stream that has ended after `stream`.
///
/// Gives the payload and the number of bytes that the frame takes up, so that
/// the next frame starts there. Where fewer than four bytes are left, or fewer
/// payload bytes than the length field announces, the result is `Truncated`.
pub fn decode_frame(stream: &[u8], order: ByteOrder) -> (result: Result<(Vec<u8>, usize), FrameError>)
    ensures
        match first_frame(stream@, order) {
            Ok((payload, taken)) => result matches Ok((bytes, end)) && bytes@ == payload && end
                == taken,
            Err(e) => result == Err::<(Vec<u8>, usize), FrameError>(e),
        },
{
    let total = stream.len();
    if total < 4 {
        return Err(FrameError::Truncated);
    }
    let field: [u8; 4] = [stream[0], stream[1], stream[2], stream[3]];
    assert(field@ =~= stream@.subrange(0, 4));
    let announced = payload_length(&field, order);
    if total - 4 < announced {
        return Err(FrameError::Truncated);
    }
    let end = 4 + announced;
    let mut payload: Vec<u8> = Vec::new();
    let mut i: usize = 4;
    while i < end
        invariant
            4 <= i <= end <= total,
            total == stream@.len(),
            payload@ == stream@.subrange(4, i as int),
        decreases end - i,
    {
        payload.push(stream[i]);
        assert(stream@.subrange(4, i as int).push(stream@[i as int]) =~= stream@.subrange(
            4,
            i + 1,
        ));
        i = i + 1;
    }
    Ok((payload, end))
}

/// The frames of several payloads, one after the other, as they stand on a
/// stream.
pub open spec fn stream_bytes(payloads: Seq<Seq<u8>>, order: ByteOrder) -> Seq<u8>
    decreases payloads.len(),
{
    if payloads.len() == 0 {
        Seq::empty()
    } else {
        frame_bytes(payloads.first(), order) + stream_bytes(payloads.drop_first(), order)
    }
}

/// The payloads of the complete frames with which a stream begins, in their
/// order, and the number of bytes that these frames take up. What is left
/// after them is no complete frame.
pub open spec fn leading_frames(stream: Seq<u8>, order: ByteOrder) -> (Seq<Seq<u8>>, int)
    decreases stream.len(),
{
    match first_frame(stream, order) {
        Ok((payload, taken)) => {
            let (more, further) = leading_frames(
                stream.subrange(taken, stream.len() as int),
                order,
            );
            (seq![payload] + more, taken + further)
        },
        Err(_) => (Seq::empty(), 0),
    }
}

/// The contents of a list of payloads.
pub open spec fn payload_views(payloads: Seq<Vec<u8>>) -> Seq<Seq<u8>> {
    payloads.map_values(|payload: Vec<u8>| payload@)
}

/// Reads the frames of a stream that has ended after `stream`, one after the
/// other, for as long as they are complete.
///
/// Gives the payloads in their order and the number of bytes that their
/// frames take up. A stream that ended between two frames is taken up whole;
/// where bytes are left over, the stream was cut off inside a frame.
pub fn decode_frames(stream: &[u8], order: ByteOrder) -> (result: (Vec<Vec<u8>>, usize))
    ensures
        payload_views(result.0@) == leading_frames(stream@, order).0,
        result.1 == leading_frames(stream@, order).1,
        result.1 <= stream@.len(),
{
    let total = stream.len();
    let mut payloads: Vec<Vec<u8>> = Vec::new();
    let mut at: usize = 0;
    assert(stream@.subrange(0, total as int) =~= stream@);
    assert(payload_views(payloads@) =~= Seq::<Seq<u8>>::empty());
    loop
        invariant
            at <= total,
            total == stream@.len(),
            leading_frames(stream@, order).0 == payload_views(payloads@) + leading_frames(
                stream@.subrange(at as int, total as int),
                order,
            ).0,
            leading_frames(stream@, order).1 == at + leading_frames(
                stream@.subrange(at as int, total as int),
                order,
            ).1,
        decreases total - at,
    {
        let rest = slice_subrange(stream, at, total);
        match decode_frame(rest, order) {
            Ok((payload, taken)) => {
                proof {
                    let tail = stream@.subrange(at as int, total as int);
                    assert(tail.subrange(taken as int, tail.len() as int) =~= stream@.subrange(
                        at + taken,
                        total as int,
                    ));
                    assert(payload_views(payloads@.push(payload)) =~= payload_views(payloads@)
                        + seq![payload@]);
                    assert(payload_views(payloads@) + (seq![payload@] + leading_frames(
                        stream@.subrange(at + taken, total as int),
                        order,
                    ).0) =~= payload_views(payloads@) + seq![payload@] + leading_frames(
                        stream@.subrange(at + taken, total as int),
                        order,
                    ).0);
                }
                payloads.push(payload);
                at = at + taken;
            },
            Err(_) => {
                assert(payload_views(payloads@) + Seq::<Seq<u8>>::empty() =~= payload_views(
                    payloads@,
                ));
                return (payloads, at);
            },
        }
    }
}

/// Reading back a frame gives the payload that it was written for, and takes
/// up the whole frame, whatever the byte order, as long as it is the same on
/// both sides.
pub proof fn lemma_frame_round_trip(payload: Seq<u8>, order: ByteOrder)
    requires
        payload.len() <= u32::MAX,
    ensures
        first_frame(frame_bytes(payload, order), order) == Ok::<(Seq<u8>, int), FrameError>(
            (payload, 4 + payload.len() as int),
        ),
{
    let frame = frame_bytes(payload, order);
    lemma_length_field_round_trip(payload.len() as u32, order);
    assert(frame.subrange(0, 4) =~= length_field(payload.len() as u32, order));
    assert(frame.subrange(4, 4 + payload.len() as int) =~= payload);
}

/// A frame followed by more of the stream reads back as the same frame: what
/// comes after it has no part in it.
pub proof fn lemma_frame_then_rest(payload: Seq<u8>, rest: Seq<u8>, order: ByteOrder)
    requires
        payload.len() <= u32::MAX,
    ensures
        first_frame(frame_bytes(payload, order) + rest, order) == Ok::<(Seq<u8>, int), FrameError>(
            (payload, 4 + payload.len() as int),
        ),
{
    let stream = frame_bytes(payload, order) + rest;
    lemma_length_field_round_trip(payload.len() as u32, order);
    assert(stream.subrange(0, 4) =~= length_field(payload.len() as u32, order));
    assert(stream.subrange(4, 4 + payload.len() as int) =~= payload);
}

/// A stream that ends before the payload that its length field announces is
/// complete holds no frame: reading it gives `Truncated`.
pub proof fn lemma_short_stream_is_truncated(
    announced: u32,
    delivered: Seq<u8>,
    order: ByteOrder,
)
    requires
        delivered.len() < announced,
    ensures
        first_frame(length_field(announced, order) + delivered, order) == Err::<
            (Seq<u8>, int),
            FrameError,
        >(FrameError::Truncated),
{
    let stream = length_field(announced, order) + delivered;
    lemma_length_field_round_trip(announced, order);
    assert(stream.subrange(0, 4) =~= length_field(announced, order));
}

/// A frame that is written in one byte order and read in the other never
/// reads back as what was written, unless the length of its payload is
/// symmetric. The reader takes the length with its bytes reversed: where that
/// is more than the payload holds, the frame is `Truncated`; where it is less,
/// the reader gets only the beginning of the payload and stops inside the
/// frame.
pub proof fn lemma_frame_cross_order(payload: Seq<u8>, written: ByteOrder, read: ByteOrder)
    requires
        payload.len() <= u32::MAX,
        written != read,
        !is_symmetric_length(payload.len() as u32),
    ensures
        first_frame(frame_bytes(payload, written), read) != Ok::<(Seq<u8>, int), FrameError>(
            (payload, 4 + payload.len() as int),
        ),
        byte_swapped(payload.len() as u32) > payload.len() ==> first_frame(
            frame_bytes(payload, written),
            read,
        ) == Err::<(Seq<u8>, int), FrameError>(FrameError::Truncated),
        byte_swapped(payload.len() as u32) < payload.len() ==> first_frame(
            frame_bytes(payload, written),
            read,
        ) == Ok::<(Seq<u8>, int), FrameError>(
            (
                payload.subrange(0, byte_swapped(payload.len() as u32)),
                4 + byte_swapped(payload.len() as u32),
            ),
        ),
{
    let n = payload.len() as u32;
    let frame = frame_bytes(payload, written);
    lemma_length_field_cross_order(n, written, read);
    lemma_length_field_round_trip(n, written);
    assert(frame.subrange(0, 4) =~= length_field(n, written));
    if byte_swapped(n) < payload.len() {
        assert(frame.subrange(4, 4 + byte_swapped(n)) =~= payload.subrange(0, byte_swapped(n)));
    }
}

/// Message boundaries are kept. The frames of any number of payloads, written
/// one after the other, read back as exactly these payloads, in their order,
/// and take up the whole stream. Where the stream goes on with the beginning
/// of a frame that is cut off, the payloads before it read back all the same,
/// and the reader stops where the cut-off frame begins.
pub proof fn lemma_stream_round_trip(payloads: Seq<Seq<u8>>, tail: Seq<u8>, order: ByteOrder)
    requires
        forall|i: int| 0 <= i < payloads.len() ==> (#[trigger] payloads[i]).len() <= u32::MAX,
        first_frame(tail, order) is Err,
    ensures
        leading_frames(stream_bytes(payloads, order) + tail, order) == (
            payloads,
            stream_bytes(payloads, order).len() as int,
        ),
    decreases payloads.len(),
{
    let stream = stream_bytes(payloads, order) + tail;
    if payloads.len() == 0 {
        assert(stream =~= tail);
        assert(leading_frames(stream, order).0 =~= payloads);
    } else {
        let head = payloads.first();
        let rest = payloads.drop_first();
        let after = stream_bytes(rest, order) + tail;
        assert(stream =~= frame_bytes(head, order) + after);
        lemma_frame_then_rest(head, after, order);
        lemma_length_field_round_trip(head.len() as u32, order);
        assert(stream.subrange(4 + head.len() as int, stream.len() as int) =~= after);
        assert forall|i: int| 0 <= i < rest.len() implies (#[trigger] rest[i]).len()
            <= u32::MAX by {
            assert(rest[i] == payloads[i + 1]);
        }
        lemma_stream_round_trip(rest, tail, order);
        assert(seq![head] + rest =~= payloads);
    }
}

} // verus!
