//! The frame codec: messages to frames and back, one codec per transport and
//! direction, each with a byte order of its own.

use vstd::prelude::*;
use crate::byte_order::ByteOrder;
use crate::frame::{
    FrameError, decode_frame, encode_frame, encoded_frame, first_frame, frame_bytes,
    lemma_frame_round_trip,
};
use crate::message::{Message, MessageView, message_payload, payload_message};

verus! {

/// The byte orders of a deployment: one for the local stream, one for the
/// network. They are set apart from each other and may differ.
#[derive(Clone, Copy, Debug, PartialEq, Eq, Structural)]
pub struct TransportOrders {
    /// The byte order of length fields on the local stream.
    pub local_stream: ByteOrder,
    /// The byte order of length fields on the network.
    pub network: ByteOrder,
}

/// A codec for the frames of one transport.
#[derive(Clone, Copy, Debug, PartialEq, Eq, Structural)]
pub struct FrameCodec {
    /// The byte order of the length field.
    pub order: ByteOrder,
}

/// What writing a message as a frame gives: `NotSerializable` where the
/// message has no payload, `FrameTooLarge` where the payload is too long for
/// the length field, and else the frame of its payload.
pub open spec fn encoded_message(message: MessageView, order: ByteOrder) -> Result<
    Seq<u8>,
    FrameError,
> {
    match message_payload(message) {
        Some(payload) => encoded_frame(payload, order),
        None => Err(FrameError::NotSerializable),
    }
}

/// What reading the first message of an ended stream gives: `Truncated` where
/// the stream holds no complete frame, `MalformedPayload` where the payload of
/// its first frame is not a message, and else the message with the number of
/// bytes that its frame takes up.
pub open spec fn decoded_message(stream: Seq<u8>, order: ByteOrder) -> Result<
    (MessageView, int),
    FrameError,
> {
    match first_frame(stream, order) {
        Ok((payload, taken)) => match payload_message(payload) {
            Some(message) => Ok((message, taken)),
            None => Err(FrameError::MalformedPayload),
        },
        Err(e) => Err(e),
    }
}

impl TransportOrders {
    /// The orders of a deployment whose local stream uses the byte order of
    /// the machine, with the given order on the network.
    pub fn with_native_local_stream(network: ByteOrder) -> (orders: TransportOrders)
        ensures
            orders.network == network,
    {
        TransportOrders { local_stream: ByteOrder::native(), network }
    }

    /// The codec of the local stream.
    pub fn local_codec(&self) -> (codec: FrameCodec)
        ensures
            codec.order == self.local_stream,
    {
        FrameCodec { order: self.local_stream }
    }

    /// The codec of the network.
    pub fn network_codec(&self) -> (codec: FrameCodec)
        ensures
            codec.order == self.network,
    {
        FrameCodec { order: self.network }
    }
}

impl FrameCodec {
    /// A codec whose length fields are in the given byte order.
    pub fn new(order: ByteOrder) -> (codec: FrameCodec)
        ensures
            codec.order == order,
    {
        FrameCodec { order }
    }

    /// Writes a message as one frame: its payload, with the length of the
    /// payload in front, in the byte order of this codec.
    pub fn encode(&self, message: &Message) -> (result: Result<Vec<u8>, FrameError>)
        ensures
            match encoded_message(message@, self.order) {
                Ok(bytes) => result matches Ok(frame) && frame@ == bytes,
                Err(e) => result == Err::<Vec<u8>, FrameError>(e),
            },
    {
        match message.to_payload() {
            Ok(payload) => encode_frame(payload.as_slice(), self.order),
            Err(e) => Err(e),
        }
    }

    /// Reads the first message of a stream that has ended after `stream`, and
    /// says how many bytes its frame takes up.
    pub fn decode(&self, stream: &[u8]) -> (result: Result<(Message, usize), FrameError>)
        ensures
            match decoded_message(stream@, self.order) {
                Ok((message, taken)) => result matches Ok((found, end)) && found@ == message
                    && end == taken,
                Err(e) => result == Err::<(Message, usize), FrameError>(e),
            },
    {
        match decode_frame(stream, self.order) {
            Ok((payload, end)) => match Message::from_payload(payload.as_slice()) {
                Ok(message) => Ok((message, end)),
                Err(e) => Err(e),
            },
            Err(e) => Err(e),
        }
    }
}

/// Framing adds nothing to a payload and takes nothing from it: the frame of a
/// message reads back, in the same byte order, as whatever message its payload
/// alone holds, and the reader takes up the whole frame. So a message whose
/// payload reads back as the message itself comes back from its frame
/// unchanged.
pub proof fn lemma_codec_round_trip(message: MessageView, payload: Seq<u8>, order: ByteOrder)
    requires
        message_payload(message) == Some(payload),
        payload.len() <= u32::MAX,
    ensures
        encoded_message(message, order) == Ok::<Seq<u8>, FrameError>(frame_bytes(payload, order)),
        decoded_message(frame_bytes(payload, order), order) == match payload_message(payload) {
            Some(read_back) => Ok::<(MessageView, int), FrameError>(
                (read_back, 4 + payload.len() as int),
            ),
            None => Err::<(MessageView, int), FrameError>(FrameError::MalformedPayload),
        },
        payload_message(payload) == Some(message) ==> decoded_message(
            frame_bytes(payload, order),
            order,
        ) == Ok::<(MessageView, int), FrameError>((message, 4 + payload.len() as int)),
{
    lemma_frame_round_trip(payload, order);
}

} // verus!
