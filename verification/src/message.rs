//! The two closed message vocabularies and their wire frames.
//!
//! On the wire a message is a JSON object with a `type` member that names the
//! variant and, for a position, the numeric members `x` and `y`. Turning text
//! into members and back needs floating point and is left to the driver; a
//! [`Frame`] holds the members as plain values, and this module decides which
//! frames are messages.

use vstd::prelude::*;
use vstd::string::*;

verus! {

/// A position. Each axis is a binary64 value held by its IEEE 754 bit
/// pattern, so equality here is equality of bits.
#[derive(Clone, Copy, Debug, PartialEq, Eq, Structural)]
pub struct Coord {
    pub x: u64,
    pub y: u64,
}

/// What the server sends.
#[derive(Clone, Copy, Debug, PartialEq, Eq, Structural)]
pub enum ServerMsg {
    Ping,
    Coord(Coord),
}

/// What a client sends.
#[derive(Clone, Copy, Debug, PartialEq, Eq, Structural)]
pub enum ClientMsg {
    Pong,
    Coord(Coord),
}

/// Why an inbound payload is not a [`ClientMsg`].
#[derive(Clone, Copy, Debug, PartialEq, Eq, Structural)]
pub enum DecodeError {
    /// The payload is not an object with a textual `type` and numeric `x`, `y`
    /// where present: truncated text, a member of the wrong type. The driver
    /// finds this while it reads the payload.
    Malformed,
    /// The `type` member names no variant of [`ClientMsg`].
    UnknownVariant,
    /// The variant is known but a member it needs is absent.
    MissingField,
}

/// The members of one wire object that the schema looks at. Members with
/// other names are dropped by the driver and so are tolerated.
#[derive(Clone, Debug, PartialEq, Eq)]
pub struct Frame {
    /// The `type` member.
    pub tag: String,
    /// The `x` member as binary64 bits, if present.
    pub x: Option<u64>,
    /// The `y` member as binary64 bits, if present.
    pub y: Option<u64>,
}

/// Mathematical value of a [`Frame`].
pub struct FrameView {
    pub tag: Seq<char>,
    pub x: Option<u64>,
    pub y: Option<u64>,
}

impl View for Frame {
    type V = FrameView;

    open spec fn view(&self) -> FrameView {
        FrameView { tag: self.tag@, x: self.x, y: self.y }
    }
}

/// The frame that carries `msg`: its variant's name as the tag and exactly
/// the members of its payload.
pub open spec fn encode_spec(msg: ServerMsg) -> FrameView {
    match msg {
        ServerMsg::Ping => FrameView { tag: "Ping"@, x: None, y: None },
        ServerMsg::Coord(c) => FrameView { tag: "Coord"@, x: Some(c.x), y: Some(c.y) },
    }
}

/// The message that `frame` carries. The tag decides the variant, `Pong`
/// ignores `x` and `y`, `Coord` needs both.
pub open spec fn decode_spec(frame: FrameView) -> Result<ClientMsg, DecodeError> {
    if frame.tag == "Pong"@ {
        Ok(ClientMsg::Pong)
    } else if frame.tag == "Coord"@ {
        match (frame.x, frame.y) {
            (Some(x), Some(y)) => Ok(ClientMsg::Coord(Coord { x, y })),
            _ => Err(DecodeError::MissingField),
        }
    } else {
        Err(DecodeError::UnknownVariant)
    }
}

/// The frame a client builds for `msg`.
pub open spec fn client_frame(msg: ClientMsg) -> FrameView {
    match msg {
        ClientMsg::Pong => FrameView { tag: "Pong"@, x: None, y: None },
        ClientMsg::Coord(c) => FrameView { tag: "Coord"@, x: Some(c.x), y: Some(c.y) },
    }
}

/// Builds the frame for an outbound message.
pub fn encode(msg: &ServerMsg) -> (frame: Frame)
    ensures
        frame@ == encode_spec(*msg),
{
    match msg {
        ServerMsg::Ping => Frame { tag: String::from_str("Ping"), x: None, y: None },
        ServerMsg::Coord(c) => Frame { tag: String::from_str("Coord"), x: Some(c.x), y: Some(c.y) },
    }
}

/// Reads an inbound frame.
pub fn decode(frame: &Frame) -> (res: Result<ClientMsg, DecodeError>)
    ensures
        res == decode_spec(frame@),
{
    if frame.tag == String::from_str("Pong") {
        Ok(ClientMsg::Pong)
    } else if frame.tag == String::from_str("Coord") {
        match (frame.x, frame.y) {
            (Some(x), Some(y)) => Ok(ClientMsg::Coord(Coord { x, y })),
            _ => Err(DecodeError::MissingField),
        }
    } else {
        Err(DecodeError::UnknownVariant)
    }
}

/// Encoding loses nothing: two messages with the same frame are the same
/// message. In particular the tag alone tells the variants apart.
pub proof fn encode_is_lossless(a: ServerMsg, b: ServerMsg)
    requires
        encode_spec(a) == encode_spec(b),
    ensures
        a == b,
{
    reveal_strlit("Ping");
    reveal_strlit("Coord");
    assert("Ping"@.len() != "Coord"@.len());
}

/// Every client message has a frame, and decoding that frame gives the
/// message back.
pub proof fn decode_inverts_client_frame(msg: ClientMsg)
    ensures
        decode_spec(client_frame(msg)) == Ok::<ClientMsg, DecodeError>(msg),
{
    reveal_strlit("Pong");
    reveal_strlit("Coord");
    assert("Pong"@.len() != "Coord"@.len());
}

/// A tag other than the two known ones is an unknown variant, whatever else
/// the frame holds.
pub proof fn unknown_tag_is_rejected(frame: FrameView)
    requires
        frame.tag != "Pong"@,
        frame.tag != "Coord"@,
    ensures
        decode_spec(frame) == Err::<ClientMsg, DecodeError>(DecodeError::UnknownVariant),
{
}

} // verus!
