//! What the client sends for a command, and what it makes of the reply.

use vstd::prelude::*;
use crate::command::Command;
use crate::error::{KvsError, KvsErrorKind};
use crate::protocol::{Message, Value};

verus! {

/// What the client shows for a reply.
#[derive(Debug, PartialEq, Eq)]
pub enum Output {
    /// Nothing.
    Silent,
    /// The line `Key not found`.
    KeyNotFound,
    /// The number.
    Number(i64),
    /// The text.
    Text(String),
}

/// `Output` as a mathematical value.
pub enum Shown {
    Silent,
    KeyNotFound,
    Number(i64),
    Text(Seq<char>),
}

impl View for Output {
    type V = Shown;

    open spec fn view(&self) -> Shown {
        match self {
            Output::Silent => Shown::Silent,
            Output::KeyNotFound => Shown::KeyNotFound,
            Output::Number(n) => Shown::Number(*n),
            Output::Text(text) => Shown::Text(text@),
        }
    }
}

/// The frame that asks the server to execute `command`.
pub fn request(command: Command) -> (frame: Vec<u8>)
    ensures
        frame@ == Message::Command(command@).frame(),
{
    Value::Command(command).encode()
}

/// What a reply means to the client that sent a command, `reading` telling
/// whether the command was a read: a text or a number is shown; no value is
/// shown as a missing key after a read, and not at all otherwise; an error
/// reply is `KeyNotFound`; a command in place of a reply is an
/// `UnknownError`.
pub open spec fn outcome_of(reply: Message, reading: bool) -> Result<Shown, KvsErrorKind> {
    match reply {
        Message::Nothing => if reading {
            Ok(Shown::KeyNotFound)
        } else {
            Ok(Shown::Silent)
        },
        Message::Integer(n) => Ok(Shown::Number(n)),
        Message::String(text) => Ok(Shown::Text(text)),
        Message::Error(_) => Err(KvsErrorKind::KeyNotFound),
        Message::Command(_) => Err(KvsErrorKind::UnknownError),
    }
}

/// What the client shows for `reply`, or the error that it ends with.
pub fn outcome(reply: Value, reading: bool) -> (shown: Result<Output, KvsError>)
    ensures
        match outcome_of(reply@, reading) {
            Ok(expected) => shown matches Ok(output) && output@ == expected,
            Err(kind) => shown matches Err(e) && e.kind() == kind,
        },
{
    match reply {
        Value::Nothing => if reading {
            Ok(Output::KeyNotFound)
        } else {
            Ok(Output::Silent)
        },
        Value::Integer(n) => Ok(Output::Number(n)),
        Value::String(text) => Ok(Output::Text(text)),
        Value::Error(_) => Err(KvsError::new(KvsErrorKind::KeyNotFound)),
        Value::Command(_) => Err(KvsError::new(KvsErrorKind::UnknownError)),
    }
}

/// What the outcome of a command on the store itself means to the one who
/// gave it, `reading` telling whether the command was a read: a value is
/// shown; no value is shown as a missing key after a read, and not at all
/// otherwise; a failure stays what it is.
pub open spec fn local_outcome_of(
    result: Result<Option<String>, KvsError>,
    reading: bool,
) -> Result<Shown, KvsErrorKind> {
    match result {
        Ok(Some(value)) => Ok(Shown::Text(value@)),
        Ok(None) => if reading {
            Ok(Shown::KeyNotFound)
        } else {
            Ok(Shown::Silent)
        },
        Err(e) => Err(e.kind()),
    }
}

/// What is shown for the outcome of a command on the store itself, or the
/// error that the program ends with.
pub fn local_outcome(result: Result<Option<String>, KvsError>, reading: bool) -> (shown: Result<
    Output,
    KvsError,
>)
    ensures
        match local_outcome_of(result, reading) {
            Ok(expected) => shown matches Ok(output) && output@ == expected,
            Err(kind) => shown matches Err(e) && e.kind() == kind,
        },
{
    match result {
        Ok(Some(value)) => Ok(Output::Text(value)),
        Ok(None) => if reading {
            Ok(Output::KeyNotFound)
        } else {
            Ok(Output::Silent)
        },
        Err(e) => Err(e),
    }
}

} // verus!
