//! Storage backends: what the server asks of any of them, and the
//! log-structured one.

use vstd::prelude::*;
use vstd::string::StringExecFns;
use crate::command::{Command, Operation};
use crate::error::{KvsError, KvsErrorKind};

pub mod kvs;
pub mod sled;

pub use self::kvs::KvStore;

verus! {

/// The kind of failure that a result reports, if it reports one.
pub open spec fn failure<T>(result: Result<T, KvsError>) -> Option<KvsErrorKind> {
    match result {
        Ok(_) => None,
        Err(e) => Some(e.kind()),
    }
}

/// A storage backend. An implementation says with `valid` which of its
/// states its operations accept and leave behind, and with `got`, `was_set`
/// and `was_removed` what each operation returns and how it changes the
/// state.
pub trait KvsEngine: Sized {
    /// The states that the operations accept and leave behind: all of
    /// them, unless the implementation says otherwise.
    open spec fn valid(&self) -> bool {
        true
    }

    /// What `get` of `key` may return in this state: anything, unless the
    /// implementation says otherwise.
    open spec fn got(&self, key: Seq<char>, result: Result<Option<String>, KvsError>) -> bool {
        true
    }

    /// Whether `set` of `key` to `value` may fail in this state as `failed`
    /// says, or succeed where it says nothing, and leave the state `after`:
    /// any of that may be, unless the implementation says otherwise.
    open spec fn was_set(
        &self,
        after: &Self,
        key: Seq<char>,
        value: Seq<char>,
        failed: Option<KvsErrorKind>,
    ) -> bool {
        true
    }

    /// Whether `remove` of `key` may fail in this state as `failed` says, or
    /// succeed where it says nothing, and leave the state `after`: any of
    /// that may be, unless the implementation says otherwise.
    open spec fn was_removed(
        &self,
        after: &Self,
        key: Seq<char>,
        failed: Option<KvsErrorKind>,
    ) -> bool {
        true
    }

    /// Sets the value of `key` to `value`.
    fn set(&mut self, key: String, value: String) -> (result: Result<(), KvsError>)
        requires
            old(self).valid(),
        ensures
            final(self).valid(),
            old(self).was_set(final(self), key@, value@, failure(result)),
    ;

    /// The value of `key`, if it has one.
    fn get(&self, key: String) -> (result: Result<Option<String>, KvsError>)
        requires
            self.valid(),
        ensures
            self.got(key@, result),
    ;

    /// Removes `key` and its value.
    fn remove(&mut self, key: String) -> (result: Result<(), KvsError>)
        requires
            old(self).valid(),
        ensures
            final(self).valid(),
            old(self).was_removed(final(self), key@, failure(result)),
    ;

    /// Executes `command`: a read returns what `get` returns; a write or a
    /// removal returns no value where it succeeds, and its error where it
    /// fails.
    fn exec_command(&mut self, command: Command) -> (result: Result<Option<String>, KvsError>)
        requires
            old(self).valid(),
        ensures
            final(self).valid(),
            match command@ {
                Operation::Get(key) => *final(self) == *old(self) && old(self).got(key, result),
                Operation::Put(key, value) => old(self).was_set(
                    final(self),
                    key,
                    value,
                    failure(result),
                ) && (result matches Ok(found) ==> found is None),
                Operation::Rm(key) => old(self).was_removed(final(self), key, failure(result))
                    && (result matches Ok(found) ==> found is None),
            },
    {
        match command {
            Command::Rm(key) => match self.remove(key) {
                Ok(()) => Ok(None),
                Err(e) => Err(e),
            },
            Command::Put(key, value) => match self.set(key, value) {
                Ok(()) => Ok(None),
                Err(e) => Err(e),
            },
            Command::Get(key) => self.get(key),
        }
    }
}

/// What executing `op` may return in the state `before`, and the state
/// `after` it: a read returns what `get` returns and changes nothing; a
/// write or a removal returns no value where it succeeds, and its error
/// where it fails.
pub open spec fn executed<E: KvsEngine>(
    before: &E,
    after: &E,
    op: Operation,
    result: Result<Option<String>, KvsError>,
) -> bool {
    match op {
        Operation::Get(key) => *after == *before && before.got(key, result),
        Operation::Put(key, value) => before.was_set(after, key, value, failure(result)) && (
        result matches Ok(found) ==> found is None),
        Operation::Rm(key) => before.was_removed(after, key, failure(result)) && (
        result matches Ok(found) ==> found is None),
    }
}

/// The backends that a server can run on.
#[derive(Copy, Clone, Debug, PartialEq, Eq, Structural)]
pub enum EngineKind {
    Kvs,
    Sled,
}

impl EngineKind {
    /// The name of the backend, as it is given on the command line.
    pub open spec fn name_spec(self) -> Seq<char> {
        match self {
            EngineKind::Kvs => "kvs"@,
            EngineKind::Sled => "sled"@,
        }
    }

    /// The name of the backend.
    pub fn name(&self) -> (name: String)
        ensures
            name@ == self.name_spec(),
    {
        match self {
            EngineKind::Kvs => String::from_str("kvs"),
            EngineKind::Sled => String::from_str("sled"),
        }
    }

    /// The backend of the given name, if there is one.
    pub open spec fn named_spec(name: Seq<char>) -> Option<EngineKind> {
        if name == "kvs"@ {
            Some(EngineKind::Kvs)
        } else if name == "sled"@ {
            Some(EngineKind::Sled)
        } else {
            None
        }
    }

    /// The backend of the given name, if there is one.
    pub fn named(name: &str) -> (kind: Option<EngineKind>)
        ensures
            kind == EngineKind::named_spec(name@),
    {
        let name = String::from_str(name);
        if name == String::from_str("kvs") {
            Some(EngineKind::Kvs)
        } else if name == String::from_str("sled") {
            Some(EngineKind::Sled)
        } else {
            None
        }
    }
}

/// The backend whose state a directory holds: the log-structured one where
/// its log file is there, else the tree where its directory is there.
pub open spec fn current_engine(log_exists: bool, db_exists: bool) -> Option<EngineKind> {
    if log_exists {
        Some(EngineKind::Kvs)
    } else if db_exists {
        Some(EngineKind::Sled)
    } else {
        None
    }
}

/// The name of the backend whose state the working directory holds, given
/// whether the log file and the tree's directory exist there.
pub fn current_eng(log_exists: bool, db_exists: bool) -> (name: Option<String>)
    ensures
        match current_engine(log_exists, db_exists) {
            Some(kind) => name matches Some(n) && n@ == kind.name_spec(),
            None => name is None,
        },
{
    if log_exists {
        Some(EngineKind::Kvs.name())
    } else if db_exists {
        Some(EngineKind::Sled.name())
    } else {
        None
    }
}

/// The backend to start, given the one asked for and the name of the one
/// whose state is there. A name that is asked for and is no backend's is an
/// `InvalidEngine`; a backend that is asked for while the state, under
/// whatever name, is not its own is an `UncompatibleEngine`. Where none is
/// asked for, the state decides: the log-structured backend where the state
/// is its own or there is none, else the tree.
pub open spec fn engine_choice(requested: Option<Seq<char>>, current: Option<Seq<char>>) -> Result<
    EngineKind,
    KvsErrorKind,
> {
    match requested {
        Some(name) => match EngineKind::named_spec(name) {
            Some(kind) => if current is None || current == Some(kind.name_spec()) {
                Ok(kind)
            } else {
                Err(KvsErrorKind::UncompatibleEngine)
            },
            None => Err(KvsErrorKind::InvalidEngine),
        },
        None => if current is None || current == Some(EngineKind::Kvs.name_spec()) {
            Ok(EngineKind::Kvs)
        } else {
            Ok(EngineKind::Sled)
        },
    }
}

/// The view of an optional text.
pub open spec fn text_view(text: Option<&str>) -> Option<Seq<char>> {
    match text {
        Some(t) => Some(t@),
        None => None,
    }
}

/// Chooses the backend to start.
pub fn select_engine(requested: Option<&str>, current: Option<&str>) -> (chosen: Result<
    EngineKind,
    KvsError,
>)
    ensures
        match engine_choice(text_view(requested), text_view(current)) {
            Ok(kind) => chosen matches Ok(k) && k == kind,
            Err(kind) => chosen matches Err(e) && e.kind() == kind,
        },
{
    match requested {
        Some(name) => match EngineKind::named(name) {
            Some(kind) => {
                let fits = match current {
                    Some(there) => String::from_str(there) == kind.name(),
                    None => true,
                };
                if fits {
                    Ok(kind)
                } else {
                    Err(KvsError::new(KvsErrorKind::UncompatibleEngine))
                }
            },
            None => Err(KvsError::new(KvsErrorKind::InvalidEngine)),
        },
        None => {
            let fits = match current {
                Some(there) => String::from_str(there) == EngineKind::Kvs.name(),
                None => true,
            };
            if fits {
                Ok(EngineKind::Kvs)
            } else {
                Ok(EngineKind::Sled)
            }
        },
    }
}

} // verus!
