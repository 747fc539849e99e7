//! What the tree backend stores: values as the bytes of their text.

use vstd::prelude::*;
use vstd::utf8::*;
use crate::error::{KvsError, KvsErrorKind};
use crate::line::text_of;

verus! {

/// The value that stored bytes hold: their text, or a `SledError` where
/// they are not UTF-8.
pub open spec fn stored_text(bytes: Seq<u8>) -> Result<Seq<char>, KvsErrorKind> {
    if valid_utf8(bytes) {
        Ok(decode_utf8(bytes))
    } else {
        Err(KvsErrorKind::SledError)
    }
}

/// Reads a value from the bytes that the tree holds for its key.
pub fn stored_value(bytes: &[u8]) -> (value: Result<String, KvsError>)
    ensures
        match stored_text(bytes@) {
            Ok(text) => value matches Ok(v) && v@ == text,
            Err(kind) => value matches Err(e) && e.kind() == kind,
        },
{
    match text_of(bytes) {
        Some(text) => Ok(text.to_owned()),
        None => Err(KvsError::new(KvsErrorKind::SledError)),
    }
}

} // verus!
