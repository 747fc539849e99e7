//! The wire format: one frame per message, a leading byte that names the
//! kind of value, the payload, and a closing carriage return and newline.

use vstd::prelude::*;
use vstd::utf8::*;
use crate::command::{
    lemma_operation_text_one_line, lemma_text_round_trip, parse_operation, Command, Operation,
};
use crate::error::{KvsError, KvsErrorKind};
use crate::line::{
    append_bytes, find_line_end, lemma_line_end_stops, lemma_no_newline_bytes, line_end, text_of,
    NEWLINE,
};
use crate::number::{
    decimal, integer_text, is_digit, lemma_decimal_value, lemma_integer_round_trip, parse_i64,
    parse_i64_text, render_i64,
};

verus! {

/// A value on the wire.
#[derive(Debug, PartialEq, Eq)]
pub enum Value {
    Nothing,
    Command(Command),
    Error(String),
    String(String),
    Integer(i64),
}

/// A wire value as a mathematical value.
pub enum Message {
    Nothing,
    Command(Operation),
    Error(Seq<char>),
    String(Seq<char>),
    Integer(i64),
}

impl View for Value {
    type V = Message;

    open spec fn view(&self) -> Message {
        match self {
            Value::Nothing => Message::Nothing,
            Value::Command(command) => Message::Command(command@),
            Value::Error(text) => Message::Error(text@),
            Value::String(text) => Message::String(text@),
            Value::Integer(n) => Message::Integer(*n),
        }
    }
}

/// The byte before the closing newline of a frame.
pub const CARRIAGE_RETURN: u8 = 13;

/// The leading byte of a frame without a value.
pub const PREFIX_NONE: u8 = 59;

/// The leading byte of a frame that carries a command.
pub const PREFIX_COMMAND: u8 = 33;

/// The leading byte of a frame that carries an error text.
pub const PREFIX_ERROR: u8 = 63;

/// The leading byte of a frame that carries a text.
pub const PREFIX_STRING: u8 = 36;

/// The leading byte of a frame that carries an integer.
pub const PREFIX_INTEGER: u8 = 35;

impl Message {
    /// The leading byte of the frame of this value.
    pub open spec fn prefix(self) -> u8 {
        match self {
            Message::Nothing => PREFIX_NONE,
            Message::Command(_) => PREFIX_COMMAND,
            Message::Error(_) => PREFIX_ERROR,
            Message::String(_) => PREFIX_STRING,
            Message::Integer(_) => PREFIX_INTEGER,
        }
    }

    /// The bytes between the leading byte and the end of the frame.
    pub open spec fn payload(self) -> Seq<u8> {
        match self {
            Message::Nothing => Seq::empty(),
            Message::Command(op) => encode_utf8(op.text()),
            Message::Error(text) => encode_utf8(text),
            Message::String(text) => encode_utf8(text),
            Message::Integer(n) => integer_text(n as int),
        }
    }

    /// The frame of this value.
    pub open spec fn frame(self) -> Seq<u8> {
        seq![self.prefix()] + self.payload() + seq![CARRIAGE_RETURN, NEWLINE]
    }

    /// A value survives the wire when the frame's only newline is its last
    /// byte and a command in it is well formed: a text holds no newline, a
    /// command's key and value are words.
    pub open spec fn survives_wire(self) -> bool {
        match self {
            Message::Nothing => true,
            Message::Command(op) => op.well_formed(),
            Message::Error(text) => !text.contains('\n'),
            Message::String(text) => !text.contains('\n'),
            Message::Integer(_) => true,
        }
    }
}

/// The first frame of a stream: its bytes up to and including the first
/// newline, or all of them where there is none.
pub open spec fn first_frame(input: Seq<u8>) -> Seq<u8> {
    let end = line_end(input, 0);
    if end < input.len() {
        input.subrange(0, end + 1)
    } else {
        input
    }
}

/// The text that a payload holds, or `InvalidData` where it is not UTF-8.
pub open spec fn payload_text(payload: Seq<u8>) -> Result<Seq<char>, KvsErrorKind> {
    if valid_utf8(payload) {
        Ok(decode_utf8(payload))
    } else {
        Err(KvsErrorKind::InvalidData)
    }
}

/// The command that a payload holds: `InvalidData` where it is not UTF-8,
/// `InvalidCommand` where its text stands for no operation.
pub open spec fn payload_command(payload: Seq<u8>) -> Result<Operation, KvsErrorKind> {
    match payload_text(payload) {
        Ok(text) => match parse_operation(text) {
            Some(op) => Ok(op),
            None => Err(KvsErrorKind::InvalidCommand),
        },
        Err(kind) => Err(kind),
    }
}

/// The integer that a payload holds, or `InvalidData` where it holds none.
pub open spec fn payload_integer(payload: Seq<u8>) -> Result<i64, KvsErrorKind> {
    match parse_i64_text(payload) {
        Some(n) => Ok(n),
        None => Err(KvsErrorKind::InvalidData),
    }
}

/// The value that a frame carries. A frame of fewer than three bytes is
/// `DataTooShort`, one that does not end in carriage return and newline is
/// `InvalidData`, one with a leading byte of no kind is `InvalidPrefix`;
/// what follows the leading byte of a frame without a value is ignored.
pub open spec fn decode_frame(frame: Seq<u8>) -> Result<Message, KvsErrorKind> {
    let len = frame.len() as int;
    if len < 3 {
        Err(KvsErrorKind::DataTooShort(len as usize))
    } else if !(frame[len - 2] == CARRIAGE_RETURN && frame[len - 1] == NEWLINE) {
        Err(KvsErrorKind::InvalidData)
    } else {
        let payload = frame.subrange(1, len - 2);
        let prefix = frame[0];
        if prefix == PREFIX_COMMAND {
            match payload_command(payload) {
                Ok(op) => Ok(Message::Command(op)),
                Err(kind) => Err(kind),
            }
        } else if prefix == PREFIX_ERROR {
            match payload_text(payload) {
                Ok(text) => Ok(Message::Error(text)),
                Err(kind) => Err(kind),
            }
        } else if prefix == PREFIX_STRING {
            match payload_text(payload) {
                Ok(text) => Ok(Message::String(text)),
                Err(kind) => Err(kind),
            }
        } else if prefix == PREFIX_INTEGER {
            match payload_integer(payload) {
                Ok(n) => Ok(Message::Integer(n)),
                Err(kind) => Err(kind),
            }
        } else if prefix == PREFIX_NONE {
            Ok(Message::Nothing)
        } else {
            Err(KvsErrorKind::InvalidPrefix(prefix))
        }
    }
}

/// What a reader of a stream decodes: the value of its first frame.
pub open spec fn decode_stream(input: Seq<u8>) -> Result<Message, KvsErrorKind> {
    decode_frame(first_frame(input))
}

/// The payload of a value that survives the wire holds no newline byte.
pub proof fn lemma_payload_one_line(message: Message)
    requires
        message.survives_wire(),
    ensures
        forall|i: int|
            0 <= i < message.payload().len() ==> #[trigger] message.payload()[i] != NEWLINE,
{
    match message {
        Message::Nothing => {},
        Message::Command(op) => {
            lemma_operation_text_one_line(op);
            lemma_no_newline_bytes(op.text());
        },
        Message::Error(text) => {
            lemma_no_newline_bytes(text);
        },
        Message::String(text) => {
            lemma_no_newline_bytes(text);
        },
        Message::Integer(n) => {
            let payload = message.payload();
            if n < 0 {
                lemma_decimal_value((-(n as int)) as nat);
            } else {
                lemma_decimal_value(n as nat);
            }
            assert forall|i: int| 0 <= i < payload.len() implies #[trigger] payload[i]
                != NEWLINE by {
                if n < 0 {
                    if i > 0 {
                        assert(is_digit(decimal((-(n as int)) as nat)[i - 1]));
                    }
                } else {
                    assert(is_digit(decimal(n as nat)[i]));
                }
            }
        },
    }
}

/// Encoding a value that survives the wire and decoding the bytes again
/// gives the value back.
pub proof fn lemma_frame_round_trip(message: Message)
    requires
        message.survives_wire(),
    ensures
        decode_stream(message.frame()) == Ok::<Message, KvsErrorKind>(message),
{
    broadcast use {encode_utf8_valid_utf8, encode_utf8_decode_utf8};

    let frame = message.frame();
    let payload = message.payload();
    let len = frame.len() as int;
    lemma_payload_one_line(message);
    assert forall|i: int| 0 <= i < len - 1 implies #[trigger] frame[i] != NEWLINE by {
        if 1 <= i < len - 2 {
            assert(frame[i] == payload[i - 1]);
        }
    }
    lemma_line_end_stops(frame, 0, len - 1);
    assert(first_frame(frame) =~= frame);
    assert(frame.subrange(1, len - 2) =~= payload);
    match message {
        Message::Nothing => {},
        Message::Command(op) => {
            lemma_text_round_trip(op);
        },
        Message::Error(text) => {},
        Message::String(text) => {},
        Message::Integer(n) => {
            lemma_integer_round_trip(n);
        },
    }
}

/// Whether `result` is the outcome `expected`: the value with that view,
/// or an error of that kind.
pub open spec fn decodes_to(
    result: Result<Value, KvsError>,
    expected: Result<Message, KvsErrorKind>,
) -> bool {
    match expected {
        Ok(message) => result matches Ok(value) && value@ == message,
        Err(kind) => result matches Err(e) && e.kind() == kind,
    }
}

impl Value {
    /// The frame of this value.
    pub fn encode(&self) -> (frame: Vec<u8>)
        ensures
            frame@ == self@.frame(),
    {
        let mut res: Vec<u8> = Vec::new();
        match self {
            Value::Nothing => {
                res.push(PREFIX_NONE);
            },
            Value::Command(cmd) => {
                res.push(PREFIX_COMMAND);
                let text = cmd.to_string();
                append_bytes(&mut res, text.as_str().as_bytes());
            },
            Value::Error(err) => {
                res.push(PREFIX_ERROR);
                append_bytes(&mut res, err.as_str().as_bytes());
            },
            Value::String(s) => {
                res.push(PREFIX_STRING);
                append_bytes(&mut res, s.as_str().as_bytes());
            },
            Value::Integer(num) => {
                res.push(PREFIX_INTEGER);
                let digits = render_i64(*num);
                append_bytes(&mut res, digits.as_slice());
            },
        }
        assert(res@ =~= seq![self@.prefix()] + self@.payload());
        res.push(CARRIAGE_RETURN);
        res.push(NEWLINE);
        assert(res@ =~= self@.frame());
        res
    }

    /// Decodes the first frame of `input`: its bytes up to and including
    /// the first newline.
    pub fn decode(input: &[u8]) -> (decoded: Result<Value, KvsError>)
        ensures
            decodes_to(decoded, decode_stream(input@)),
    {
        let end = find_line_end(input, 0);
        let frame = if end < input.len() {
            &input[0..end + 1]
        } else {
            input
        };
        assert(frame@ =~= first_frame(input@));
        let len = frame.len();
        if len < 3 {
            return Err(KvsError::new(KvsErrorKind::DataTooShort(len)));
        }
        if !is_crlf(frame[len - 2], frame[len - 1]) {
            return Err(KvsError::new(KvsErrorKind::InvalidData));
        }
        let bytes = &frame[1..len - 2];
        let prefix = frame[0];
        if prefix == PREFIX_COMMAND {
            match parse_command(bytes) {
                Ok(command) => Ok(Value::Command(command)),
                Err(e) => Err(e),
            }
        } else if prefix == PREFIX_ERROR {
            match parse_string(bytes) {
                Ok(text) => Ok(Value::Error(text)),
                Err(e) => Err(e),
            }
        } else if prefix == PREFIX_STRING {
            match parse_string(bytes) {
                Ok(text) => Ok(Value::String(text)),
                Err(e) => Err(e),
            }
        } else if prefix == PREFIX_INTEGER {
            match parse_integer(bytes) {
                Ok(n) => Ok(Value::Integer(n)),
                Err(e) => Err(e),
            }
        } else if prefix == PREFIX_NONE {
            Ok(Value::Nothing)
        } else {
            Err(KvsError::new(KvsErrorKind::InvalidPrefix(prefix)))
        }
    }
}

/// Whether `a` and `b` are the two bytes that close a frame.
pub fn is_crlf(a: u8, b: u8) -> (closes: bool)
    ensures
        closes == (a == CARRIAGE_RETURN && b == NEWLINE),
{
    a == CARRIAGE_RETURN && b == NEWLINE
}

/// The text that `bytes` hold.
pub fn parse_string(bytes: &[u8]) -> (parsed: Result<String, KvsError>)
    ensures
        match payload_text(bytes@) {
            Ok(text) => parsed matches Ok(s) && s@ == text,
            Err(kind) => parsed matches Err(e) && e.kind() == kind,
        },
{
    match text_of(bytes) {
        Some(text) => Ok(text.to_owned()),
        None => Err(KvsError::new(KvsErrorKind::InvalidData)),
    }
}

/// The integer that `bytes` hold.
pub fn parse_integer(bytes: &[u8]) -> (parsed: Result<i64, KvsError>)
    ensures
        match payload_integer(bytes@) {
            Ok(n) => parsed matches Ok(m) && m == n,
            Err(kind) => parsed matches Err(e) && e.kind() == kind,
        },
{
    match parse_i64(bytes) {
        Some(n) => Ok(n),
        None => Err(KvsError::new(KvsErrorKind::InvalidData)),
    }
}

/// The command that `bytes` hold.
pub fn parse_command(bytes: &[u8]) -> (parsed: Result<Command, KvsError>)
    ensures
        match payload_command(bytes@) {
            Ok(op) => parsed matches Ok(command) && command@ == op && command.well_formed(),
            Err(kind) => parsed matches Err(e) && e.kind() == kind,
        },
{
    match text_of(bytes) {
        Some(text) => Command::from_str(text),
        None => Err(KvsError::new(KvsErrorKind::InvalidData)),
    }
}

} // verus!
