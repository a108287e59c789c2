//! What a reader does with each read from its client: the identification
//! message first, then one frame per read.

use crate::frame::{
    buffer_after, decode_frame, unpack_client_frame, OPCODE_CLOSE, OPCODE_PING, OPCODE_TEXT,
};
use crate::text::{lossy_text, parse_decimal, parse_u32};
use vstd::prelude::*;
use vstd::string::*;
use vstd::utf8::*;

verus! {

/// What the reader does after a read.
#[derive(Debug, PartialEq, Eq)]
pub enum ReaderAction {
    /// A text frame came: put its payload on the bus as a routing instruction.
    Publish(String),
    /// A ping came: answer with a pong, then read on.
    Pong,
    /// A close frame came: end the loop in good order.
    Close,
    /// Anything else: end the loop. The peer closed the connection, the
    /// frame was refused, or its opcode is none that the server handles.
    Terminate,
}

/// Whether `action` is the one that a decoded frame calls for.
pub open spec fn action_for(
    opcode: Option<u8>,
    text: Option<Seq<char>>,
    action: ReaderAction,
) -> bool {
    match opcode {
        Some(op) => if op == OPCODE_CLOSE {
            action is Close
        } else if op == OPCODE_PING {
            action is Pong
        } else if op == OPCODE_TEXT && text is Some {
            action matches ReaderAction::Publish(t) && t@ == text->0
        } else {
            action is Terminate
        },
        None => action is Terminate,
    }
}

/// The text of a decoded payload.
pub open spec fn text_of(payload: Option<Seq<u8>>) -> Option<Seq<char>> {
    match payload {
        Some(bytes) => Some(lossy_text(bytes)),
        None => None,
    }
}

/// The id that an identification message declares: the decimal number that
/// is the whole payload of a text frame.
pub open spec fn declared_id(buf: Seq<u8>) -> Option<u32> {
    match decode_frame(buf) {
        (Some(op), Some(payload)) => if op == OPCODE_TEXT {
            parse_u32(encode_utf8(lossy_text(payload)))
        } else {
            None
        },
        _ => None,
    }
}

/// Chooses the action for a decoded frame.
pub fn dispatch(opcode: Option<u8>, payload: Option<String>) -> (action: ReaderAction)
    ensures
        action_for(
            opcode,
            match payload {
                Some(t) => Some(t@),
                None => None,
            },
            action,
        ),
{
    match opcode {
        Some(op) => {
            if op == OPCODE_CLOSE {
                ReaderAction::Close
            } else if op == OPCODE_PING {
                ReaderAction::Pong
            } else if op == OPCODE_TEXT {
                match payload {
                    Some(text) => ReaderAction::Publish(text),
                    None => ReaderAction::Terminate,
                }
            } else {
                ReaderAction::Terminate
            }
        },
        None => ReaderAction::Terminate,
    }
}

/// Handles one read of `bytes_read` bytes into `buf`. A read of nothing
/// means that the peer has closed the connection; otherwise the frame at
/// the start of `buf` is decoded and dispatched.
pub fn read_message(bytes_read: usize, buf: &mut Vec<u8>) -> (action: ReaderAction)
    ensures
        bytes_read == 0 ==> action is Terminate && final(buf)@ == old(buf)@,
        bytes_read != 0 ==> action_for(
            decode_frame(old(buf)@).0,
            text_of(decode_frame(old(buf)@).1),
            action,
        ) && final(buf)@ == buffer_after(old(buf)@),
        bytes_read != 0 ==> match decode_frame(old(buf)@).1 {
            Some(payload) => valid_utf8(payload) ==> match action {
                ReaderAction::Publish(t) => t@ == decode_utf8(payload),
                _ => false,
            },
            None => true,
        },
{
    if bytes_read == 0 {
        return ReaderAction::Terminate;
    }
    let (opcode, payload) = unpack_client_frame(buf);
    dispatch(opcode, payload)
}

/// Reads a client's id from the text of its identification message.
pub fn parse_client_id(text: &str) -> (id: Option<u32>)
    ensures
        id == parse_u32(encode_utf8(text@)),
{
    parse_decimal(text.as_bytes())
}

/// Reads a client's id from the first frame after the handshake. Anything
/// but a text frame whose payload is a 32-bit unsigned decimal number gives
/// no id, and the connection is to be dropped.
pub fn extract_client_id(buf: &mut Vec<u8>) -> (id: Option<u32>)
    ensures
        id == declared_id(old(buf)@),
        match decode_frame(old(buf)@).1 {
            Some(payload) => valid_utf8(payload) ==> id == parse_u32(payload),
            None => true,
        },
        final(buf)@ == buffer_after(old(buf)@),
{
    let (opcode, payload) = unpack_client_frame(buf);
    proof {
        if let Some(bytes) = decode_frame(old(buf)@).1 {
            if valid_utf8(bytes) {
                decode_utf8_encode_utf8(bytes);
            }
        }
    }
    match (opcode, payload) {
        (Some(op), Some(text)) => {
            if op == OPCODE_TEXT {
                parse_client_id(text.as_str())
            } else {
                None
            }
        },
        _ => None,
    }
}

} // verus!
