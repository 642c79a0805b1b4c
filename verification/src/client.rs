//! One client connection: what goes out to the client and what comes in from
//! it.

use vstd::prelude::*;
use vstd::string::*;
use crate::text::{chars_of, string_of_range, trim, trim_range};

verus! {

/// What a read from the client gave.
#[derive(Debug)]
pub enum ClientRead {
    /// The client closed the connection.
    Closed,
    /// A line, with or without its newline.
    Line(String),
    /// The read failed.
    Failed,
}

/// What the inbound task does after a read.
#[derive(Debug)]
pub enum InboundAction {
    /// The task ends.
    Stop,
    /// Nothing is forwarded; the next line is read.
    Skip,
    /// The command goes to the command queue.
    Forward(String),
}

/// The command that a line from a client holds: the line without the white
/// space around it; `None` where nothing is left.
pub fn client_command(line: &str) -> (cmd: Option<String>)
    ensures
        match cmd {
            Some(c) => c@ == trim(line@) && c@.len() > 0,
            None => trim(line@).len() == 0,
        },
{
    let v = chars_of(line);
    assert(v@.subrange(0, v.len() as int) =~= line@);
    let (a, b) = trim_range(&v, 0, v.len());
    if a < b {
        Some(string_of_range(&v, a, b))
    } else {
        None
    }
}

/// What the inbound task of a connection does with what it read: it ends
/// when the client has closed or the read failed, skips a line that is empty
/// once trimmed, and forwards any other line, trimmed.
pub fn inbound_step(read: ClientRead) -> (action: InboundAction)
    ensures
        match read {
            ClientRead::Closed => action is Stop,
            ClientRead::Failed => action is Stop,
            ClientRead::Line(line) => if trim(line@).len() == 0 {
                action is Skip
            } else {
                action is Forward && action->Forward_0@ == trim(line@)
            },
        },
{
    match read {
        ClientRead::Closed => InboundAction::Stop,
        ClientRead::Failed => InboundAction::Stop,
        ClientRead::Line(line) => match client_command(line.as_str()) {
            Some(cmd) => InboundAction::Forward(cmd),
            None => InboundAction::Skip,
        },
    }
}

/// What the outbound task writes to the client for a published record: the
/// record and a newline.
pub fn outbound_line(record: &str) -> (line: String)
    ensures
        line@ == record@ + seq!['\n'],
{
    let mut line = String::from_str(record);
    line.push('\n');
    assert(line@ =~= record@ + seq!['\n']);
    line
}

} // verus!
