//! The log-structured engine: an index from each live key to the position
//! of the record that wrote it last, over an image of the log.

use vstd::hash_map::StringHashMap;
use vstd::prelude::*;
use crate::command::{Command, Operation};
use crate::compaction::{compact, compacted, records_size};
use crate::engines::KvsEngine;
use crate::error::{KvsError, KvsErrorKind};
use crate::line::append_bytes;
use crate::log::{
    encode_record, index_matches, last_record_of, lemma_live_keys, lemma_record_at,
    lemma_replay_append, lemma_replay_bounded, lemma_replay_points_into, read_record, read_value,
    record_at, record_line, replay, replay_from, Table,
};
use crate::text::{is_word, is_word_text};

verus! {

/// The number of writes since the last compaction above which the log is
/// compacted.
pub const KVS_UNCOMPACTED_THRESHOLD: u16 = 4_000;

/// Whether `result` is the index of `expected`, or an error of the
/// expected kind.
pub open spec fn indexes(
    result: Result<StringHashMap<u64>, KvsError>,
    expected: Result<Table, KvsErrorKind>,
) -> bool {
    match expected {
        Ok(table) => result matches Ok(index) && index_matches(index@, table.offsets),
        Err(kind) => result matches Err(e) && e.kind() == kind,
    }
}

/// The log after the record of `op` was appended as write number
/// `uncompacted + 1` since the last compaction: compacted where that number
/// is above the threshold.
pub open spec fn log_after(log: Seq<u8>, uncompacted: nat, op: Operation) -> Seq<u8> {
    if uncompacted + 1 > KVS_UNCOMPACTED_THRESHOLD {
        compacted(log + record_line(op))
    } else {
        log + record_line(op)
    }
}

/// The number of writes since the last compaction, after one more.
pub open spec fn count_after(uncompacted: nat) -> nat {
    if uncompacted + 1 > KVS_UNCOMPACTED_THRESHOLD {
        0
    } else {
        uncompacted + 1
    }
}

/// The key-value store.
pub struct KvStore {
    /// For each live key, the position of the record that wrote it last.
    index: StringHashMap<u64>,
    /// The image of the log.
    log: Vec<u8>,
    /// The number of writes since the last compaction.
    uncompacted: u16,
}

impl View for KvStore {
    type V = Map<Seq<char>, Seq<char>>;

    /// What the store holds: the value of each live key.
    open spec fn view(&self) -> Map<Seq<char>, Seq<char>> {
        replay(self.log_bytes()).unwrap().values
    }
}

impl KvStore {
    /// The log.
    pub closed spec fn log_bytes(&self) -> Seq<u8> {
        self.log@
    }

    /// The index: for each live key a position in the log.
    pub closed spec fn index(&self) -> Map<Seq<char>, u64> {
        self.index@
    }

    /// The number of writes since the last compaction.
    pub closed spec fn uncompacted(&self) -> nat {
        self.uncompacted as nat
    }

    /// The log replays, and the index holds the position of the last write
    /// to each live key and nothing else.
    pub open spec fn consistent(&self) -> bool {
        &&& replay(self.log_bytes()) is Ok
        &&& index_matches(self.index(), replay(self.log_bytes()).unwrap().offsets)
    }

    /// The store is consistent and not overdue for compaction.
    pub open spec fn well_formed(&self) -> bool {
        &&& self.consistent()
        &&& self.uncompacted() <= KVS_UNCOMPACTED_THRESHOLD
    }

    /// The index of `log`, built by replaying it: a write enters its key
    /// with the position of its record, a removal erases its key.
    pub fn init(log: &[u8]) -> (built: Result<StringHashMap<u64>, KvsError>)
        ensures
            indexes(built, replay(log@)),
    {
        let mut index: StringHashMap<u64> = StringHashMap::new();
        let mut from: usize = 0;
        let ghost mut seen = Table::empty();
        assert(index@.dom() =~= seen.offsets.dom());
        while from < log.len()
            invariant
                from <= log.len(),
                replay(log@) == replay_from(log@, from as int, seen),
                index_matches(index@, seen.offsets),
            decreases log.len() - from,
        {
            proof {
                lemma_record_at(log@, from as int);
            }
            match read_record(log, from) {
                Ok((command, next)) => {
                    proof {
                        seen = seen.apply(command@, from as int);
                    }
                    match command {
                        Command::Put(key, _) => {
                            index.insert(key, from as u64);
                        },
                        Command::Rm(key) => {
                            index.remove(key.as_str());
                        },
                        Command::Get(_) => {
                            assert(false);
                        },
                    }
                    assert(index@.dom() =~= seen.offsets.dom());
                    from = next;
                },
                Err(e) => {
                    return Err(e);
                },
            }
        }
        Ok(index)
    }

    /// Opens the store on `log`, the content of its log file: replays the
    /// log and begins with no write since the last compaction. The first
    /// line that is no record fails the opening, with `FileError` where it
    /// is not text and with `ParsingError` otherwise.
    pub fn open(log: Vec<u8>) -> (opened: Result<KvStore, KvsError>)
        ensures
            match replay(log@) {
                Ok(table) => opened matches Ok(store) && store.well_formed() && store.log_bytes()
                    == log@ && store.uncompacted() == 0,
                Err(kind) => opened matches Err(e) && e.kind() == kind,
            },
    {
        match KvStore::init(log.as_slice()) {
            Ok(index) => Ok(KvStore { index, log, uncompacted: 0 }),
            Err(e) => Err(e),
        }
    }

    /// The image of the log.
    pub fn log_image(&self) -> (bytes: &Vec<u8>)
        ensures
            bytes@ == self.log_bytes(),
    {
        &self.log
    }

    /// The number of writes since the last compaction.
    pub fn uncompacted_writes(&self) -> (count: u16)
        ensures
            count == self.uncompacted(),
    {
        self.uncompacted
    }

    /// The position in the log of the record that wrote `key` last, if the
    /// key is live.
    pub fn position(&self, key: &str) -> (found: Option<u64>)
        ensures
            found == self.index().get(key@),
    {
        match self.index.get(key) {
            Some(position) => Some(*position),
            None => None,
        }
    }

    /// Whether `key` has a value.
    pub fn contains(&self, key: &str) -> (live: bool)
        requires
            self.consistent(),
        ensures
            live == self@.contains_key(key@),
    {
        proof {
            lemma_replay_bounded(self.log@, 0, Table::empty());
        }
        self.index.contains_key(key)
    }

    /// What executing `op` appends to the log before any compaction, or the
    /// failure that it ends with instead: a read appends nothing, a write
    /// of a word to a word and the removal of a live key append their
    /// record.
    pub open spec fn appended_by(&self, op: Operation) -> Result<Seq<u8>, KvsErrorKind> {
        match op {
            Operation::Get(_) => Ok(Seq::empty()),
            Operation::Put(key, value) => if is_word(key) && is_word(value) {
                Ok(record_line(op))
            } else {
                Err(KvsErrorKind::InvalidCommand)
            },
            Operation::Rm(key) => if self@.contains_key(key) {
                Ok(record_line(op))
            } else {
                Err(KvsErrorKind::KeyNotFound)
            },
        }
    }

    /// The bytes that executing `command` would append to the log, or the
    /// error that it would fail with: what has to reach the log file before
    /// the command is executed.
    pub fn record_for(&self, command: &Command) -> (line: Result<Vec<u8>, KvsError>)
        requires
            self.consistent(),
        ensures
            match self.appended_by(command@) {
                Ok(bytes) => line matches Ok(l) && l@ == bytes,
                Err(kind) => line matches Err(e) && e.kind() == kind,
            },
    {
        match command {
            Command::Get(_) => Ok(Vec::new()),
            Command::Put(key, value) => {
                if is_word_text(key.as_str()) && is_word_text(value.as_str()) {
                    Ok(encode_record(command))
                } else {
                    Err(KvsError::new(KvsErrorKind::InvalidCommand))
                }
            },
            Command::Rm(key) => {
                if self.contains(key.as_str()) {
                    Ok(encode_record(command))
                } else {
                    Err(KvsError::new(KvsErrorKind::KeyNotFound))
                }
            },
        }
    }

    /// Appends the record of `command` to `log`, and returns its position.
    fn log(log: &mut Vec<u8>, command: &Command) -> (position: u64)
        ensures
            final(log)@ == old(log)@ + record_line(command@),
            position == old(log)@.len(),
    {
        let position = log.len() as u64;
        let line = encode_record(command);
        append_bytes(log, line.as_slice());
        position
    }

    /// Compacts the log: rewrites it so that it holds one write for each
    /// live key and nothing else, in the order of the log, and points the
    /// index at the new records. What the store holds stays as it is.
    pub fn compaction(&mut self)
        requires
            old(self).consistent(),
        ensures
            final(self).well_formed(),
            final(self).log_bytes() == compacted(old(self).log_bytes()),
            final(self).uncompacted() == 0,
            final(self)@ == old(self)@,
            final(self).log_bytes().len() == records_size(old(self)@),
    {
        let (log, index) = compact(self.log.as_slice(), &self.index);
        self.log = log;
        self.index = index;
        self.uncompacted = 0;
    }

    /// Counts one more write, and compacts the log where that makes more
    /// than the threshold.
    fn written(&mut self)
        requires
            old(self).well_formed(),
        ensures
            final(self).well_formed(),
            final(self)@ == old(self)@,
            final(self).uncompacted() == count_after(old(self).uncompacted()),
            final(self).log_bytes() == if old(self).uncompacted() + 1
                > KVS_UNCOMPACTED_THRESHOLD {
                compacted(old(self).log_bytes())
            } else {
                old(self).log_bytes()
            },
    {
        self.uncompacted = self.uncompacted + 1;
        if self.uncompacted > KVS_UNCOMPACTED_THRESHOLD {
            self.compaction();
        }
    }
}

impl KvsEngine for KvStore {
    open spec fn valid(&self) -> bool {
        self.well_formed()
    }

    /// A read succeeds, and returns the value of the key where it has one.
    open spec fn got(&self, key: Seq<char>, result: Result<Option<String>, KvsError>) -> bool {
        result matches Ok(found) && match found {
            Some(value) => self@.contains_key(key) && value@ == self@[key],
            None => !self@.contains_key(key),
        }
    }

    /// A write of a word to a word succeeds: its record is appended, the
    /// log is compacted where it is due, and the key has the value. Any
    /// other write is an `InvalidCommand` and changes nothing.
    open spec fn was_set(
        &self,
        after: &Self,
        key: Seq<char>,
        value: Seq<char>,
        failed: Option<KvsErrorKind>,
    ) -> bool {
        if is_word(key) && is_word(value) {
            &&& failed is None
            &&& after@ == self@.insert(key, value)
            &&& after.log_bytes() == log_after(
                self.log_bytes(),
                self.uncompacted(),
                Operation::Put(key, value),
            )
            &&& after.uncompacted() == count_after(self.uncompacted())
        } else {
            &&& failed == Some(KvsErrorKind::InvalidCommand)
            &&& after.log_bytes() == self.log_bytes()
            &&& after.index() == self.index()
            &&& after.uncompacted() == self.uncompacted()
        }
    }

    /// The removal of a live key succeeds: its record is appended, the log
    /// is compacted where it is due, and the key has no value. The removal
    /// of any other key is `KeyNotFound` and changes nothing.
    open spec fn was_removed(
        &self,
        after: &Self,
        key: Seq<char>,
        failed: Option<KvsErrorKind>,
    ) -> bool {
        if self@.contains_key(key) {
            &&& failed is None
            &&& after@ == self@.remove(key)
            &&& after.log_bytes() == log_after(
                self.log_bytes(),
                self.uncompacted(),
                Operation::Rm(key),
            )
            &&& after.uncompacted() == count_after(self.uncompacted())
        } else {
            &&& failed == Some(KvsErrorKind::KeyNotFound)
            &&& after.log_bytes() == self.log_bytes()
            &&& after.index() == self.index()
            &&& after.uncompacted() == self.uncompacted()
        }
    }

    fn set(&mut self, key: String, value: String) -> (result: Result<(), KvsError>) {
        if !is_word_text(key.as_str()) || !is_word_text(value.as_str()) {
            return Err(KvsError::new(KvsErrorKind::InvalidCommand));
        }
        let command = Command::Put(key, value);
        proof {
            lemma_replay_append(self.log@, command@);
        }
        let position = KvStore::log(&mut self.log, &command);
        if let Command::Put(key, _) = command {
            self.index.insert(key, position);
        }
        assert(self.index@.dom() =~= replay(self.log@).unwrap().offsets.dom());
        self.written();
        Ok(())
    }

    fn get(&self, key: String) -> (result: Result<Option<String>, KvsError>) {
        proof {
            lemma_replay_bounded(self.log@, 0, Table::empty());
            lemma_replay_points_into(self.log@, 0, Table::empty());
        }
        let ghost table = replay(self.log@).unwrap();
        match self.index.get(key.as_str()) {
            Some(position) => {
                assert(table.offsets.contains_key(key@));
                assert(0 <= table.offsets[key@] < self.log@.len());
                assert(self.log@.len() <= usize::MAX) by {
                    vstd::std_specs::vec::axiom_spec_len(&self.log);
                }
                match read_value(self.log.as_slice(), *position as usize) {
                    Ok(value) => Ok(Some(value)),
                    Err(e) => Err(e),
                }
            },
            None => {
                assert(!table.offsets.contains_key(key@));
                Ok(None)
            },
        }
    }

    fn remove(&mut self, key: String) -> (result: Result<(), KvsError>) {
        if !self.contains(key.as_str()) {
            return Err(KvsError::new(KvsErrorKind::KeyNotFound));
        }
        let command = Command::Rm(key);
        proof {
            lemma_replay_bounded(self.log@, 0, Table::empty());
            lemma_replay_points_into(self.log@, 0, Table::empty());
            lemma_record_at(self.log@, replay(self.log@).unwrap().offsets[command@.key()]);
            lemma_replay_append(self.log@, command@);
        }
        KvStore::log(&mut self.log, &command);
        if let Command::Rm(key) = command {
            self.index.remove(key.as_str());
        }
        assert(self.index@.dom() =~= replay(self.log@).unwrap().offsets.dom());
        self.written();
        Ok(())
    }
}

/// Every position in the index is that of a record in the log that writes
/// to the index's key the value that the store holds for it.
pub proof fn lemma_index_points_at_writes(store: KvStore)
    requires
        store.consistent(),
    ensures
        forall|key: Seq<char>| #[trigger]
            store.index().contains_key(key) ==> {
                &&& store@.contains_key(key)
                &&& record_at(store.log_bytes(), store.index()[key] as int) matches Ok((op, next))
                &&& op == Operation::Put(key, store@[key])
            },
{
    let log = store.log_bytes();
    lemma_replay_points_into(log, 0, Table::empty());
    let table = replay(log).unwrap();
    assert forall|key: Seq<char>| #[trigger] store.index().contains_key(key) implies {
        &&& store@.contains_key(key)
        &&& record_at(log, store.index()[key] as int) matches Ok((op, next))
        &&& op == Operation::Put(key, store@[key])
    } by {
        assert(table.offsets.contains_key(key));
    }
}

/// The index holds exactly the live keys: a key is in it where the last
/// record about the key is a write, at the position of that record, and is
/// not in it where that record is a removal or there is none.
pub proof fn lemma_index_holds_last_writes(store: KvStore, key: Seq<char>)
    requires
        store.consistent(),
    ensures
        match last_record_of(store.log_bytes(), 0, key, None) {
            Some((Operation::Put(_, value), position)) => store.index().contains_key(key)
                && store.index()[key] == position && store@.contains_key(key) && store@[key]
                == value,
            _ => !store.index().contains_key(key) && !store@.contains_key(key),
        },
{
    lemma_live_keys(store.log_bytes(), key);
}

/// The keys of the index are the keys that the store holds a value for.
pub proof fn lemma_index_holds_live_keys(store: KvStore)
    requires
        store.consistent(),
    ensures
        store.index().dom() == store@.dom(),
{
    lemma_replay_bounded(store.log_bytes(), 0, Table::empty());
}

/// After a key was set to a value, a read of the key returns that value.
pub proof fn lemma_get_after_set(
    before: KvStore,
    after: KvStore,
    key: Seq<char>,
    value: Seq<char>,
    read: Result<Option<String>, KvsError>,
)
    requires
        before.well_formed(),
        before.was_set(&after, key, value, None),
        after.got(key, read),
    ensures
        read matches Ok(Some(found)) && found@ == value,
{
}

/// After a key was removed, a read of the key returns no value.
pub proof fn lemma_get_after_remove(
    before: KvStore,
    after: KvStore,
    key: Seq<char>,
    read: Result<Option<String>, KvsError>,
)
    requires
        before.well_formed(),
        before.was_removed(&after, key, None),
        after.got(key, read),
    ensures
        read matches Ok(None),
{
}

/// A write to one key, or the removal of one, whether it succeeds or
/// fails, leaves what a read of any other key returns as it was.
pub proof fn lemma_get_after_other_key(
    before: KvStore,
    after: KvStore,
    other: Seq<char>,
    value: Seq<char>,
    failed: Option<KvsErrorKind>,
    key: Seq<char>,
    read: Result<Option<String>, KvsError>,
)
    requires
        before.well_formed(),
        after.well_formed(),
        before.was_set(&after, other, value, failed) || before.was_removed(&after, other, failed),
        other != key,
    ensures
        after.got(key, read) == before.got(key, read),
{
}

/// A store that is opened on the log of another has the same index and
/// holds the same values, so that every read returns the same.
pub proof fn lemma_reopen(store: KvStore, reopened: KvStore)
    requires
        store.consistent(),
        reopened.consistent(),
        reopened.log_bytes() == store.log_bytes(),
    ensures
        reopened.index() == store.index(),
        reopened@ == store@,
        forall|key: Seq<char>, read: Result<Option<String>, KvsError>|
            reopened.got(key, read) == store.got(key, read),
{
    assert(reopened.index() =~= store.index());
}

} // verus!
