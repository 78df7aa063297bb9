//! Messages and their JSON payload: `{"action":<string>,"data":<any value>}`.

use vstd::prelude::*;
use crate::frame::FrameError;
use crate::json::{
    json_document, json_member, json_quoted, json_string, json_text, member,
    parse_document, quoted, string_of, text_of,
};

verus! {

/// One message of the relay: what is asked for, and the data that goes with
/// it. The relay passes the data on and never looks into it.
#[derive(Clone, Debug)]
pub struct Message {
    /// The name of the action.
    pub action: String,
    /// Any JSON value.
    pub data: serde_json::Value,
}

/// A message as the contracts see it.
pub struct MessageView {
    /// The name of the action, as a sequence of characters.
    pub action: Seq<char>,
    /// The JSON value that the message carries.
    pub data: serde_json::Value,
}

impl View for Message {
    type V = MessageView;

    open spec fn view(&self) -> MessageView {
        MessageView { action: self.action@, data: self.data }
    }
}

/// The key under which a payload holds the action.
pub open spec fn action_key() -> Seq<char> {
    "action"@
}

/// The key under which a payload holds the data.
pub open spec fn data_key() -> Seq<char> {
    "data"@
}

/// The bytes `{"action":`, with which every payload begins.
pub open spec fn payload_opening() -> Seq<u8> {
    seq![0x7bu8, 0x22, 0x61, 0x63, 0x74, 0x69, 0x6f, 0x6e, 0x22, 0x3a]
}

/// The bytes `,"data":`, which stand between the action and the data.
pub open spec fn payload_middle() -> Seq<u8> {
    seq![0x2cu8, 0x22, 0x64, 0x61, 0x74, 0x61, 0x22, 0x3a]
}

/// The byte `}`, with which every payload ends.
pub open spec fn payload_closing() -> Seq<u8> {
    seq![0x7du8]
}

/// The payload made of an action, already written as a JSON string literal,
/// and of the JSON text of the data: the object with the two members `action`
/// and `data`, in that order, without any white space.
pub open spec fn payload_of_texts(action_text: Seq<u8>, data_text: Seq<u8>) -> Seq<u8> {
    payload_opening() + action_text + payload_middle() + data_text + payload_closing()
}

/// The payload of a message, or `None` where the serializer has no text for
/// its action or for its data.
pub open spec fn message_payload(message: MessageView) -> Option<Seq<u8>> {
    match (json_quoted(message.action), json_text(message.data)) {
        (Some(action_text), Some(data_text)) => Some(payload_of_texts(action_text, data_text)),
        _ => None,
    }
}

/// The message that a parsed payload holds: its member `action`, which has to
/// be a string, and its member `data`, which may be any value. `None` where
/// either is missing or the action is not a string.
pub open spec fn document_message(document: serde_json::Value) -> Option<MessageView> {
    match (json_member(document, action_key()), json_member(document, data_key())) {
        (Some(action), Some(data)) => match json_string(action) {
            Some(name) => Some(MessageView { action: name, data }),
            None => None,
        },
        _ => None,
    }
}

/// The message that a payload holds, or `None` where the payload is not the
/// JSON text of a message.
pub open spec fn payload_message(payload: Seq<u8>) -> Option<MessageView> {
    match json_document(payload) {
        Some(document) => document_message(document),
        None => None,
    }
}

/// Appends `bytes` to `out`.
fn append_bytes(out: &mut Vec<u8>, bytes: &[u8])
    ensures
        final(out)@ == old(out)@ + bytes@,
{
    let mut i: usize = 0;
    while i < bytes.len()
        invariant
            i <= bytes@.len(),
            out@ == old(out)@ + bytes@.subrange(0, i as int),
        decreases bytes@.len() - i,
    {
        out.push(bytes[i]);
        assert(bytes@.subrange(0, i as int).push(bytes@[i as int]) =~= bytes@.subrange(0, i + 1));
        i = i + 1;
    }
    assert(bytes@.subrange(0, bytes@.len() as int) =~= bytes@);
}

/// Puts a payload together from the JSON string literal of the action and the
/// JSON text of the data.
pub fn assemble_payload(action_text: &[u8], data_text: &[u8]) -> (payload: Vec<u8>)
    ensures
        payload@ == payload_of_texts(action_text@, data_text@),
{
    let opening: [u8; 10] = [0x7b, 0x22, 0x61, 0x63, 0x74, 0x69, 0x6f, 0x6e, 0x22, 0x3a];
    let middle: [u8; 8] = [0x2c, 0x22, 0x64, 0x61, 0x74, 0x61, 0x22, 0x3a];
    let mut payload: Vec<u8> = Vec::new();
    append_bytes(&mut payload, opening.as_slice());
    append_bytes(&mut payload, action_text);
    append_bytes(&mut payload, middle.as_slice());
    append_bytes(&mut payload, data_text);
    payload.push(0x7d);
    assert(opening@ =~= payload_opening());
    assert(middle@ =~= payload_middle());
    assert(payload@ =~= payload_of_texts(action_text@, data_text@));
    payload
}

impl Message {
    /// Makes a message of what was found in a payload under `action` and
    /// under `data`: the string of the one, if it is there and is a string,
    /// and the value of the other, if it is there.
    ///
    /// With both in hand the result is the message; with either missing it is
    /// `MalformedPayload`.
    pub fn from_parts(action: Option<&str>, data: Option<&serde_json::Value>) -> (result: Result<
        Message,
        FrameError,
    >)
        ensures
            match (action, data) {
                (Some(name), Some(value)) => result matches Ok(found) && found@ == (MessageView {
                    action: name@,
                    data: *value,
                }),
                _ => result == Err::<Message, FrameError>(FrameError::MalformedPayload),
            },
    {
        match (action, data) {
            (Some(name), Some(value)) => Ok(Message { action: name.to_owned(), data: value.clone() }),
            _ => Err(FrameError::MalformedPayload),
        }
    }

    /// Takes the message out of a parsed payload.
    ///
    /// The payload has to be a JSON object with a string under `action` and
    /// any value under `data`; other members are ignored. Anything else is a
    /// `MalformedPayload`.
    pub fn from_document(document: &serde_json::Value) -> (result: Result<Message, FrameError>)
        ensures
            match document_message(*document) {
                Some(message) => result matches Ok(found) && found@ == message,
                None => result == Err::<Message, FrameError>(FrameError::MalformedPayload),
            },
    {
        let action = match member(document, "action") {
            Some(action) => string_of(action),
            None => None,
        };
        Message::from_parts(action, member(document, "data"))
    }

    /// Reads a payload as a message.
    ///
    /// The payload has to be the JSON text of an object with a string under
    /// `action` and any value under `data`. Anything else, text that is not
    /// JSON included, is a `MalformedPayload`.
    pub fn from_payload(payload: &[u8]) -> (result: Result<Message, FrameError>)
        ensures
            match payload_message(payload@) {
                Some(message) => result matches Ok(found) && found@ == message,
                None => result == Err::<Message, FrameError>(FrameError::MalformedPayload),
            },
    {
        match parse_document(payload) {
            Ok(document) => Message::from_document(&document),
            Err(_) => Err(FrameError::MalformedPayload),
        }
    }

    /// Writes the message as its payload: the compact JSON object with the
    /// members `action` and `data`, in that order.
    ///
    /// Where the serializer gives no text for the action or for the data, the
    /// result is `NotSerializable`.
    pub fn to_payload(&self) -> (result: Result<Vec<u8>, FrameError>)
        ensures
            match message_payload(self@) {
                Some(payload) => result matches Ok(bytes) && bytes@ == payload,
                None => result == Err::<Vec<u8>, FrameError>(FrameError::NotSerializable),
            },
    {
        let action_text = match quoted(self.action.as_str()) {
            Ok(text) => text,
            Err(_) => {
                return Err(FrameError::NotSerializable);
            },
        };
        let data_text = match text_of(&self.data) {
            Ok(text) => text,
            Err(_) => {
                return Err(FrameError::NotSerializable);
            },
        };
        Ok(assemble_payload(action_text.as_slice(), data_text.as_slice()))
    }
}

} // verus!
