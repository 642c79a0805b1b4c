//! The sending side of the serial pump: an outgoing record gets its
//! authentication and becomes the line that is written to the device.

use vstd::prelude::*;
use vstd::string::*;
use crate::auth::{SessionState, SessionView};
use crate::protocol::{decode, encode, MessageType, ProtocolMessage, RecordView};
use crate::text::{has_prefix, starts_with};

verus! {

/// Whether `data` is part of a handshake: it starts with `HDSHK_` or with
/// `HANDSHAKE_`.
pub open spec fn is_handshake_data(data: Seq<char>) -> bool {
    has_prefix(data, "HDSHK_"@) || has_prefix(data, "HANDSHAKE_"@)
}

/// Whether an outgoing record gets a hash of the session attached: every
/// record does but those of kind `AUTH` and those of a handshake.
pub open spec fn takes_auth(r: RecordView) -> bool {
    r.kind != MessageType::AUTH && !is_handshake_data(r.data)
}

/// The line that goes to the device for `r`, and the session after it. A
/// record that takes a hash gets the value of the chain as its `auth`, and the
/// chain moves on by one step; where the chain is exhausted there is no line,
/// and the chain stays. Any other record goes out as it is.
pub open spec fn outgoing(r: RecordView, key: Seq<char>, session: SessionView) -> (
    Option<Seq<char>>,
    SessionView,
) {
    if takes_auth(r) {
        let sending = session.directed(true);
        if sending.exhausted() {
            (None, sending)
        } else {
            (
                Some(encode(RecordView { auth: sending.value(key), ..r }) + seq!['\n']),
                sending.advanced(),
            )
        }
    } else {
        (Some(encode(r) + seq!['\n']), session)
    }
}

/// Whether `message` gets a hash of the session attached before it is sent.
pub fn needs_auth(message: &ProtocolMessage) -> (b: bool)
    ensures
        b == takes_auth(message@),
{
    if message.message_type != MessageType::AUTH {
        let is_handshake_message = starts_with(message.data.as_str(), "HDSHK_") || starts_with(
            message.data.as_str(),
            "HANDSHAKE_",
        );
        !is_handshake_message
    } else {
        false
    }
}

/// The line for `message` once `auth_hash` has taken the place of its
/// `auth`: the text of the record and a newline.
pub fn signed_line(message: ProtocolMessage, auth_hash: String) -> (line: String)
    ensures
        line@ == encode(RecordView { auth: auth_hash@, ..message@ }) + seq!['\n'],
{
    let mut message = message;
    message.auth = auth_hash;
    let mut line = message.to_string();
    line.push('\n');
    line
}

/// The line that is written to the device for `message`: its text and a
/// newline, with a fresh hash of the session as its `auth` where it takes
/// one. `None` where it takes one and the chain of the session is exhausted.
pub fn write_command_to_serial(
    message: ProtocolMessage,
    session: &mut SessionState,
    secret_key: &str,
) -> (line: Option<String>)
    ensures
        match line {
            Some(l) => outgoing(message@, secret_key@, old(session)@).0 == Some(l@),
            None => outgoing(message@, secret_key@, old(session)@).0 is None,
        },
        final(session)@ == outgoing(message@, secret_key@, old(session)@).1,
{
    if needs_auth(&message) {
        match session.for_sending().try_next_hash(secret_key, true) {
            Some(auth_hash) => Some(signed_line(message, auth_hash)),
            None => None,
        }
    } else {
        let mut line = message.to_string();
        line.push('\n');
        Some(line)
    }
}

/// The line that is written to the device for a command that a client sent,
/// where the command holds a record; `None`, and the session as it was, where
/// it holds none.
pub fn handle_commands(cmd: &str, session: &mut SessionState, secret_key: &str) -> (line: Option<
    String,
>)
    ensures
        match decode(cmd@) {
            Some(r) => {
                &&& final(session)@ == outgoing(r, secret_key@, old(session)@).1
                &&& match line {
                    Some(l) => outgoing(r, secret_key@, old(session)@).0 == Some(l@),
                    None => outgoing(r, secret_key@, old(session)@).0 is None,
                }
            },
            None => line is None && final(session)@ == old(session)@,
        },
{
    match ProtocolMessage::from_string(cmd) {
        Some(message) => write_command_to_serial(message, session, secret_key),
        None => None,
    }
}

} // verus!
