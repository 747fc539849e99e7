//! The failure kinds of the store, its codecs and its front-ends.

use vstd::prelude::*;
use vstd::string::StringExecFns;

verus! {

/// What went wrong. `DataTooShort` carries the length of the frame that
/// was read, `InvalidPrefix` the leading byte that no frame kind uses.
#[derive(Copy, Clone, Eq, PartialEq, Debug, Structural)]
pub enum KvsErrorKind {
    ConnectionError,
    DataTooShort(usize),
    InvalidCommand,
    InvalidData,
    InvalidEngine,
    InvalidPrefix(u8),
    KeyNotFound,
    FileError,
    ParsingError,
    SledError,
    UncompatibleEngine,
    UnknownError,
}

impl KvsErrorKind {
    /// The text shown for each kind.
    pub open spec fn message_spec(self) -> Seq<char> {
        match self {
            KvsErrorKind::ConnectionError => "ConnectionError"@,
            KvsErrorKind::DataTooShort(_) => "Data too short"@,
            KvsErrorKind::InvalidCommand => "Invalid Command."@,
            KvsErrorKind::InvalidData => "Invalid Data."@,
            KvsErrorKind::InvalidEngine => "Invalid Engine."@,
            KvsErrorKind::InvalidPrefix(_) => "Invalid prefix"@,
            KvsErrorKind::KeyNotFound => "Key not found"@,
            KvsErrorKind::FileError => "Error with log file"@,
            KvsErrorKind::ParsingError => "Error parsing"@,
            KvsErrorKind::SledError => "Error from sled crate"@,
            KvsErrorKind::UncompatibleEngine => "Uncompatible Engine"@,
            KvsErrorKind::UnknownError => "An unknown error has occurred."@,
        }
    }

    /// The human-readable description of this kind.
    pub fn message(&self) -> (text: String)
        ensures
            text@ == self.message_spec(),
    {
        let literal = match self {
            KvsErrorKind::ConnectionError => "ConnectionError",
            KvsErrorKind::DataTooShort(_) => "Data too short",
            KvsErrorKind::InvalidCommand => "Invalid Command.",
            KvsErrorKind::InvalidData => "Invalid Data.",
            KvsErrorKind::InvalidEngine => "Invalid Engine.",
            KvsErrorKind::InvalidPrefix(_) => "Invalid prefix",
            KvsErrorKind::KeyNotFound => "Key not found",
            KvsErrorKind::FileError => "Error with log file",
            KvsErrorKind::ParsingError => "Error parsing",
            KvsErrorKind::SledError => "Error from sled crate",
            KvsErrorKind::UncompatibleEngine => "Uncompatible Engine",
            KvsErrorKind::UnknownError => "An unknown error has occurred.",
        };
        String::from_str(literal)
    }
}

/// An error of the store: a kind, with its description as the display text.
#[derive(Debug)]
pub struct KvsError {
    kind: KvsErrorKind,
}

impl KvsError {
    /// The kind as a specification value.
    pub closed spec fn spec_kind(&self) -> KvsErrorKind {
        self.kind
    }

    /// The kind of this error.
    #[verifier::when_used_as_spec(spec_kind)]
    pub fn kind(&self) -> (kind: KvsErrorKind)
        ensures
            kind == self.spec_kind(),
    {
        self.kind
    }

    /// An error of the given kind.
    pub fn new(kind: KvsErrorKind) -> (error: KvsError)
        ensures
            error.kind() == kind,
    {
        KvsError { kind }
    }

    /// The description of this error's kind.
    pub fn message(&self) -> (text: String)
        ensures
            text@ == self.kind().message_spec(),
    {
        self.kind.message()
    }
}

impl From<KvsErrorKind> for KvsError {
    fn from(kind: KvsErrorKind) -> (error: KvsError)
        ensures
            error.kind() == kind,
    {
        KvsError { kind }
    }
}

impl vstd::std_specs::convert::FromSpecImpl<KvsErrorKind> for KvsError {
    open spec fn obeys_from_spec() -> bool {
        true
    }

    closed spec fn from_spec(kind: KvsErrorKind) -> KvsError {
        KvsError { kind }
    }
}

pub type Result<T> = core::result::Result<T, KvsError>;

pub use KvsError as Error;
pub use KvsErrorKind as ErrorKind;

} // verus!
