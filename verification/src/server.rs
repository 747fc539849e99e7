//! What the server does with the bytes that a connection hands it.

use vstd::prelude::*;
use vstd::string::StringExecFns;
use crate::engines::{executed, KvsEngine};
use crate::error::{KvsError, KvsErrorKind};
use crate::protocol::{decode_stream, Message, Value};

verus! {

/// What the server does after one read from a connection.
#[derive(Debug, PartialEq, Eq)]
pub enum Action {
    /// Write these bytes back, and read on.
    Reply(Vec<u8>),
    /// Write nothing, and read on.
    Ignore,
    /// End the connection.
    Close,
}

/// The text of the error frame that answers the removal of a key that has
/// no value.
pub open spec fn key_not_found_text() -> Seq<char> {
    "KeyNotFound"@
}

/// The value that answers the outcome of a command: the value read, none
/// for a miss and for a write or removal that succeeded, the error text for
/// a key that was not found, and no answer to any other failure.
pub open spec fn reply_to(result: Result<Option<String>, KvsError>) -> Option<Message> {
    match result {
        Ok(Some(value)) => Some(Message::String(value@)),
        Ok(None) => Some(Message::Nothing),
        Err(e) => if e.kind() == KvsErrorKind::KeyNotFound {
            Some(Message::Error(key_not_found_text()))
        } else {
            None
        },
    }
}

/// The action that sends `reply`, or ignores the request where there is no
/// reply.
pub open spec fn sends(action: Action, reply: Option<Message>) -> bool {
    match reply {
        Some(message) => action matches Action::Reply(frame) && frame@ == message.frame(),
        None => action is Ignore,
    }
}

/// The value that answers the outcome of a command, if any does.
pub fn reply_for(result: Result<Option<String>, KvsError>) -> (reply: Option<Value>)
    ensures
        match reply_to(result) {
            Some(message) => reply matches Some(value) && value@ == message,
            None => reply is None,
        },
{
    match result {
        Ok(Some(value)) => Some(Value::String(value)),
        Ok(None) => Some(Value::Nothing),
        Err(e) => match e.kind() {
            KvsErrorKind::KeyNotFound => Some(Value::Error(String::from_str("KeyNotFound"))),
            _ => None,
        },
    }
}

/// What one read from a connection leads to, from the state `before` of the
/// backend to the state `after`: bytes that do not decode end the
/// connection; a value that is no command is ignored; a command is
/// executed, and its outcome answered.
pub open spec fn handled<E: KvsEngine>(
    before: &E,
    after: &E,
    input: Seq<u8>,
    action: Action,
) -> bool {
    match decode_stream(input) {
        Ok(Message::Command(op)) => exists|result: Result<Option<String>, KvsError>|
            #[trigger] executed(before, after, op, result) && sends(action, reply_to(result)),
        Ok(_) => action is Ignore && *after == *before,
        Err(_) => action is Close && *after == *before,
    }
}

/// Handles what was read from a connection up to and including a newline,
/// or up to its end: decodes the frame, executes the command that it
/// carries on `engine`, and says what to do next.
pub fn handle_client<E: KvsEngine>(engine: &mut E, input: &[u8]) -> (action: Action)
    requires
        old(engine).valid(),
    ensures
        final(engine).valid(),
        handled(old(engine), final(engine), input@, action),
{
    match Value::decode(input) {
        Ok(Value::Command(command)) => {
            let ghost op = command@;
            let result = engine.exec_command(command);
            let ghost outcome = result;
            let action = match reply_for(result) {
                Some(value) => Action::Reply(value.encode()),
                None => Action::Ignore,
            };
            assert(executed(old(engine), engine, op, outcome) && sends(action, reply_to(outcome)));
            action
        },
        Ok(_) => Action::Ignore,
        Err(_) => Action::Close,
    }
}

} // verus!
