//! The operations of the store and their text form: an operation word
//! followed by its arguments, separated by whitespace.

use vstd::prelude::*;
use vstd::string::StringExecFns;
use crate::error::{KvsError, KvsErrorKind};
use crate::text::{
    is_whitespace, is_word, leading_words, lemma_words_are_words, lemma_words_of_joined,
    lemma_words_of_word, words,
};

verus! {

/// An operation on the store.
#[derive(Debug, PartialEq, Eq)]
pub enum Command {
    Get(String),
    Rm(String),
    Put(String, String),
}

/// An operation as a mathematical value: a command with its keys and
/// values as character sequences.
pub enum Operation {
    Get(Seq<char>),
    Rm(Seq<char>),
    Put(Seq<char>, Seq<char>),
}

impl View for Command {
    type V = Operation;

    open spec fn view(&self) -> Operation {
        match self {
            Command::Get(key) => Operation::Get(key@),
            Command::Rm(key) => Operation::Rm(key@),
            Command::Put(key, value) => Operation::Put(key@, value@),
        }
    }
}

/// The operation word of a read.
pub open spec fn get_word() -> Seq<char> {
    seq!['G', 'E', 'T']
}

/// The operation word of a write.
pub open spec fn set_word() -> Seq<char> {
    seq!['S', 'E', 'T']
}

/// The operation word of a removal.
pub open spec fn rm_word() -> Seq<char> {
    seq!['R', 'M']
}

impl Operation {
    /// The key that the operation is about.
    pub open spec fn key(self) -> Seq<char> {
        match self {
            Operation::Get(key) => key,
            Operation::Rm(key) => key,
            Operation::Put(key, _) => key,
        }
    }

    /// An operation is well formed when its key and its value are words, so
    /// that its text form has them as separate words again.
    pub open spec fn well_formed(self) -> bool {
        match self {
            Operation::Get(key) => is_word(key),
            Operation::Rm(key) => is_word(key),
            Operation::Put(key, value) => is_word(key) && is_word(value),
        }
    }

    /// The text form: the operation word and the arguments, one space
    /// between them.
    pub open spec fn text(self) -> Seq<char> {
        match self {
            Operation::Get(key) => get_word() + seq![' '] + key,
            Operation::Rm(key) => rm_word() + seq![' '] + key,
            Operation::Put(key, value) => set_word() + seq![' '] + key + seq![' '] + value,
        }
    }
}

/// The operation that a text stands for: its first word names the
/// operation, the following one or two are the arguments, and further words
/// are ignored. A text with an unknown first word, or with too few words,
/// stands for none.
pub open spec fn parse_operation(text: Seq<char>) -> Option<Operation> {
    let w = words(text);
    if w.len() >= 2 && w[0] == get_word() {
        Some(Operation::Get(w[1]))
    } else if w.len() >= 3 && w[0] == set_word() {
        Some(Operation::Put(w[1], w[2]))
    } else if w.len() >= 2 && w[0] == rm_word() {
        Some(Operation::Rm(w[1]))
    } else {
        None
    }
}

/// Whatever a text parses to is well formed.
pub proof fn lemma_parsed_is_well_formed(text: Seq<char>)
    ensures
        parse_operation(text) matches Some(op) ==> op.well_formed(),
{
    lemma_words_are_words(text, 0);
    let w = words(text);
    if w.len() >= 2 {
        assert(is_word(w[1]));
    }
    if w.len() >= 3 {
        assert(is_word(w[2]));
    }
}

/// The words of an operation word followed by one argument.
proof fn lemma_words_of_two(op: Seq<char>, key: Seq<char>)
    requires
        is_word(op),
        is_word(key),
    ensures
        words(op + seq![' '] + key) == seq![op, key],
{
    lemma_words_of_joined(op, key);
    lemma_words_of_word(key);
    assert(seq![op] + seq![key] =~= seq![op, key]);
}

/// The words of an operation word followed by two arguments.
proof fn lemma_words_of_three(op: Seq<char>, key: Seq<char>, value: Seq<char>)
    requires
        is_word(op),
        is_word(key),
        is_word(value),
    ensures
        words(op + seq![' '] + key + seq![' '] + value) == seq![op, key, value],
{
    let rest = key + seq![' '] + value;
    lemma_words_of_joined(op, rest);
    lemma_words_of_two(key, value);
    assert(op + seq![' '] + key + seq![' '] + value =~= op + seq![' '] + rest);
    assert(seq![op] + seq![key, value] =~= seq![op, key, value]);
}

/// Writing a well-formed operation as text and reading the text again
/// gives the operation back.
pub proof fn lemma_text_round_trip(op: Operation)
    requires
        op.well_formed(),
    ensures
        parse_operation(op.text()) == Some(op),
{
    assert(is_word(get_word()));
    assert(is_word(set_word()));
    assert(is_word(rm_word()));
    assert(get_word() != set_word()) by {
        assert(get_word()[0] != set_word()[0]);
    }
    assert(rm_word() != set_word()) by {
        assert(rm_word().len() != set_word().len());
    }
    assert(rm_word() != get_word()) by {
        assert(rm_word().len() != get_word().len());
    }
    match op {
        Operation::Get(key) => {
            lemma_words_of_two(get_word(), key);
        },
        Operation::Rm(key) => {
            lemma_words_of_two(rm_word(), key);
        },
        Operation::Put(key, value) => {
            lemma_words_of_three(set_word(), key, value);
        },
    }
}

/// The text form of a well-formed operation holds no newline.
pub proof fn lemma_operation_text_one_line(op: Operation)
    requires
        op.well_formed(),
    ensures
        forall|j: int| 0 <= j < op.text().len() ==> #[trigger] op.text()[j] != '\n',
{
    assert(is_whitespace('\n'));
    let text = op.text();
    assert forall|j: int| 0 <= j < text.len() implies #[trigger] text[j] != '\n' by {
        match op {
            Operation::Get(key) => {
                if j >= 4 {
                    assert(text[j] == key[j - 4]);
                }
            },
            Operation::Rm(key) => {
                if j >= 3 {
                    assert(text[j] == key[j - 3]);
                }
            },
            Operation::Put(key, value) => {
                if 4 <= j < 4 + key.len() {
                    assert(text[j] == key[j - 4]);
                } else if j > 4 + key.len() {
                    assert(text[j] == value[j - 5 - key.len()]);
                }
            },
        }
    }
}

impl Command {
    /// Whether key and value are words.
    pub open spec fn well_formed(&self) -> bool {
        self@.well_formed()
    }

    /// The text form of the command.
    pub fn to_string(&self) -> (text: String)
        ensures
            text@ == self@.text(),
    {
        proof {
            reveal_strlit("GET ");
            reveal_strlit("RM ");
            reveal_strlit("SET ");
            reveal_strlit(" ");
            assert("GET "@ =~= get_word() + seq![' ']);
            assert("RM "@ =~= rm_word() + seq![' ']);
            assert("SET "@ =~= set_word() + seq![' ']);
            assert(" "@ =~= seq![' ']);
        }
        match self {
            Command::Get(key) => {
                let mut text = String::from_str("GET ");
                text.append(key.as_str());
                text
            },
            Command::Rm(key) => {
                let mut text = String::from_str("RM ");
                text.append(key.as_str());
                text
            },
            Command::Put(key, value) => {
                let mut text = String::from_str("SET ");
                text.append(key.as_str());
                text.append(" ");
                text.append(value.as_str());
                text
            },
        }
    }

    /// Reads a command from its text form. A text that stands for no
    /// operation is an `InvalidCommand`.
    pub fn from_str(s: &str) -> (parsed: Result<Command, KvsError>)
        ensures
            match parse_operation(s@) {
                Some(op) => parsed matches Ok(command) && command@ == op && command.well_formed(),
                None => parsed matches Err(e) && e.kind() == KvsErrorKind::InvalidCommand,
            },
    {
        proof {
            reveal_strlit("GET");
            reveal_strlit("RM");
            reveal_strlit("SET");
            assert("GET"@ =~= get_word());
            assert("RM"@ =~= rm_word());
            assert("SET"@ =~= set_word());
            lemma_parsed_is_well_formed(s@);
        }
        let mut found = leading_words(s, 3);
        let count = found.len();
        if count >= 2 && found[0] == String::from_str("GET") {
            let key = found.swap_remove(1);
            Ok(Command::Get(key))
        } else if count >= 3 && found[0] == String::from_str("SET") {
            let value = found.swap_remove(2);
            let key = found.swap_remove(1);
            Ok(Command::Put(key, value))
        } else if count >= 2 && found[0] == String::from_str("RM") {
            let key = found.swap_remove(1);
            Ok(Command::Rm(key))
        } else {
            Err(KvsError::new(KvsErrorKind::InvalidCommand))
        }
    }
}

impl core::str::FromStr for Command {
    type Err = KvsError;

    /// Reads a command from its text form, as `Command::from_str` does.
    fn from_str(s: &str) -> (parsed: Result<Command, KvsError>)
        ensures
            match parse_operation(s@) {
                Some(op) => parsed matches Ok(command) && command@ == op && command.well_formed(),
                None => parsed matches Err(e) && e.kind() == KvsErrorKind::InvalidCommand,
            },
    {
        Command::from_str(s)
    }
}

} // verus!
