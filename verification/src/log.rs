//! The operation log: a sequence of records, one per line, each the text
//! form of a write or a removal, and what replaying it yields.

use vstd::prelude::*;
use vstd::utf8::*;
use crate::command::{
    lemma_operation_text_one_line, lemma_parsed_is_well_formed, lemma_text_round_trip,
    parse_operation, Command, Operation,
};
use crate::error::{KvsError, KvsErrorKind};
use crate::line::{
    append_bytes, find_line_end, lemma_line_end, lemma_line_end_stops, lemma_no_newline_bytes,
    line_end, text_of, NEWLINE,
};

verus! {

/// The operation that a line of the log records. A line that is not UTF-8
/// cannot be read (`FileError`); one whose text stands for no operation, or
/// for a read, is no record (`ParsingError`).
pub open spec fn decode_record(line: Seq<u8>) -> Result<Operation, KvsErrorKind> {
    if !valid_utf8(line) {
        Err(KvsErrorKind::FileError)
    } else {
        match parse_operation(decode_utf8(line)) {
            Some(Operation::Put(key, value)) => Ok(Operation::Put(key, value)),
            Some(Operation::Rm(key)) => Ok(Operation::Rm(key)),
            _ => Err(KvsErrorKind::ParsingError),
        }
    }
}

/// The line that records an operation: its text and a newline.
pub open spec fn record_line(op: Operation) -> Seq<u8> {
    encode_utf8(op.text()) + seq![NEWLINE]
}

/// An operation that the log can record: a well-formed write or removal.
pub open spec fn is_record(op: Operation) -> bool {
    op.well_formed() && !(op is Get)
}

/// The record that begins at `from` and the position behind it. Where no
/// newline ends the line that begins there, the record is cut short
/// (`ParsingError`).
pub open spec fn record_at(log: Seq<u8>, from: int) -> Result<(Operation, int), KvsErrorKind> {
    let end = line_end(log, from);
    if 0 <= from <= end < log.len() {
        match decode_record(log.subrange(from, end)) {
            Ok(op) => Ok((op, end + 1)),
            Err(kind) => Err(kind),
        }
    } else {
        Err(KvsErrorKind::ParsingError)
    }
}

/// What a log amounts to: for each live key the position of the record
/// that wrote it last, and the value written there.
pub struct Table {
    pub offsets: Map<Seq<char>, int>,
    pub values: Map<Seq<char>, Seq<char>>,
}

impl Table {
    /// The table of the empty log.
    pub open spec fn empty() -> Table {
        Table { offsets: Map::empty(), values: Map::empty() }
    }

    /// The table after the record `op` at position `offset`: a write enters
    /// its key, a removal erases it.
    pub open spec fn apply(self, op: Operation, offset: int) -> Table {
        match op {
            Operation::Put(key, value) => Table {
                offsets: self.offsets.insert(key, offset),
                values: self.values.insert(key, value),
            },
            Operation::Rm(key) => Table {
                offsets: self.offsets.remove(key),
                values: self.values.remove(key),
            },
            Operation::Get(_) => self,
        }
    }

    /// Every key has a position and a value, or neither, and every position
    /// lies before `bound`.
    pub open spec fn bounded_by(self, bound: int) -> bool {
        &&& self.offsets.dom() == self.values.dom()
        &&& forall|key: Seq<char>| #[trigger]
            self.offsets.contains_key(key) ==> 0 <= self.offsets[key] < bound
    }

    /// Every key's position is that of a record in `log` that writes the
    /// key's value to the key.
    pub open spec fn points_into(self, log: Seq<u8>) -> bool {
        forall|key: Seq<char>| #[trigger]
            self.offsets.contains_key(key) ==> {
                &&& self.values.contains_key(key)
                &&& record_at(log, self.offsets[key]) matches Ok((op, next))
                &&& op == Operation::Put(key, self.values[key])
            }
    }
}

/// Whether `index` holds the positions `offsets`, key by key.
pub open spec fn index_matches(index: Map<Seq<char>, u64>, offsets: Map<Seq<char>, int>) -> bool {
    &&& index.dom() == offsets.dom()
    &&& forall|key: Seq<char>| #[trigger] index.contains_key(key) ==> index[key] == offsets[key]
}

/// Replays the records of `log` from `from` on, beginning with `table`.
/// The first line that is no record ends the replay with its error.
pub open spec fn replay_from(log: Seq<u8>, from: int, table: Table) -> Result<Table, KvsErrorKind>
    decreases log.len() - from,
{
    if from < 0 || from >= log.len() {
        Ok(table)
    } else {
        match record_at(log, from) {
            Ok((op, next)) => replay_from(log, next, table.apply(op, from)),
            Err(kind) => Err(kind),
        }
    }
}

/// Replays `log` from its beginning.
pub open spec fn replay(log: Seq<u8>) -> Result<Table, KvsErrorKind> {
    replay_from(log, 0, Table::empty())
}

/// A record that was read is a well-formed write or removal, and ends
/// behind where it begins.
pub proof fn lemma_record_at(log: Seq<u8>, from: int)
    ensures
        record_at(log, from) matches Ok((op, next)) ==> is_record(op) && 0 <= from < next
            <= log.len() && next == line_end(log, from) + 1,
{
    if record_at(log, from) is Ok {
        let end = line_end(log, from);
        lemma_parsed_is_well_formed(decode_utf8(log.subrange(from, end)));
    }
}

/// The line of a record is read back as that record.
pub proof fn lemma_record_round_trip(op: Operation)
    requires
        is_record(op),
    ensures
        decode_record(encode_utf8(op.text())) == Ok::<Operation, KvsErrorKind>(op),
        forall|i: int|
            0 <= i < encode_utf8(op.text()).len() ==> #[trigger] encode_utf8(op.text())[i]
                != NEWLINE,
{
    broadcast use {encode_utf8_valid_utf8, encode_utf8_decode_utf8};

    lemma_text_round_trip(op);
    lemma_operation_text_one_line(op);
    lemma_no_newline_bytes(op.text());
}

/// What is appended to a log changes no record of it.
pub proof fn lemma_record_at_prefix(log: Seq<u8>, more: Seq<u8>, from: int)
    requires
        record_at(log, from) is Ok,
    ensures
        record_at(log + more, from) == record_at(log, from),
{
    let end = line_end(log, from);
    lemma_line_end(log, from);
    let whole = log + more;
    assert forall|i: int| from <= i < end implies #[trigger] whole[i] != NEWLINE by {
        assert(whole[i] == log[i]);
    }
    assert(whole[end] == log[end]);
    lemma_line_end_stops(whole, from, end);
    assert(whole.subrange(from, end) =~= log.subrange(from, end));
}

/// Replaying a log with more behind it goes through the log as before and
/// then on with what follows.
pub proof fn lemma_replay_prefix(log: Seq<u8>, more: Seq<u8>, from: int, table: Table)
    requires
        0 <= from <= log.len(),
        replay_from(log, from, table) is Ok,
    ensures
        replay_from(log + more, from, table) == replay_from(
            log + more,
            log.len() as int,
            replay_from(log, from, table).unwrap(),
        ),
    decreases log.len() - from,
{
    if from < log.len() {
        lemma_record_at(log, from);
        lemma_record_at_prefix(log, more, from);
        let (op, next) = record_at(log, from).unwrap();
        lemma_replay_prefix(log, more, next, table.apply(op, from));
    }
}

/// Appending the line of a record to a log that replays adds that record
/// to what the log amounts to.
pub proof fn lemma_replay_append(log: Seq<u8>, op: Operation)
    requires
        replay(log) is Ok,
        is_record(op),
    ensures
        replay(log + record_line(op)) == Ok::<Table, KvsErrorKind>(
            replay(log).unwrap().apply(op, log.len() as int),
        ),
        record_at(log + record_line(op), log.len() as int) == Ok::<
            (Operation, int),
            KvsErrorKind,
        >((op, (log + record_line(op)).len() as int)),
{
    let line = encode_utf8(op.text());
    let whole = log + record_line(op);
    let start = log.len() as int;
    let end = start + line.len();
    lemma_record_round_trip(op);
    lemma_replay_prefix(log, record_line(op), 0, Table::empty());
    assert forall|i: int| start <= i < end implies #[trigger] whole[i] != NEWLINE by {
        assert(whole[i] == line[i - start]);
    }
    assert(whole[end] == NEWLINE);
    lemma_line_end_stops(whole, start, end);
    assert(whole.subrange(start, end) =~= line);
    assert(record_at(whole, start) == Ok::<(Operation, int), KvsErrorKind>((op, end + 1)));
    let before = replay(log).unwrap();
    assert(whole.len() == end + 1);
    assert(replay_from(whole, end + 1, before.apply(op, start)) == Ok::<Table, KvsErrorKind>(
        before.apply(op, start),
    ));
    assert(replay_from(whole, start, before) == replay_from(
        whole,
        end + 1,
        before.apply(op, start),
    ));
}

/// Replaying keeps every position before the end of the log and gives
/// every key both a position and a value.
pub proof fn lemma_replay_bounded(log: Seq<u8>, from: int, table: Table)
    requires
        0 <= from <= log.len(),
        table.bounded_by(from),
        replay_from(log, from, table) is Ok,
    ensures
        replay_from(log, from, table).unwrap().bounded_by(log.len() as int),
    decreases log.len() - from,
{
    if from < log.len() {
        lemma_record_at(log, from);
        let (op, next) = record_at(log, from).unwrap();
        let applied = table.apply(op, from);
        assert(applied.offsets.dom() =~= applied.values.dom());
        lemma_replay_bounded(log, next, applied);
    }
}

/// Every key of `after` is as it was in `before`, or lies at or behind
/// `from`.
pub open spec fn kept_or_behind(before: Table, after: Table, from: int) -> bool {
    forall|key: Seq<char>| #[trigger]
        after.offsets.contains_key(key) ==> {
            ||| (before.offsets.contains_key(key) && after.offsets[key] == before.offsets[key]
                && after.values[key] == before.values[key])
            ||| after.offsets[key] >= from
        }
}

/// Replaying leaves every key either as it was before, or at a record at
/// or behind the position where the replay began.
pub proof fn lemma_replay_keeps_or_advances(log: Seq<u8>, from: int, table: Table)
    requires
        0 <= from <= log.len(),
        replay_from(log, from, table) is Ok,
    ensures
        kept_or_behind(table, replay_from(log, from, table).unwrap(), from),
    decreases log.len() - from,
{
    if from < log.len() {
        lemma_record_at(log, from);
        let (op, next) = record_at(log, from).unwrap();
        lemma_replay_keeps_or_advances(log, next, table.apply(op, from));
        assert(kept_or_behind(table.apply(op, from), replay_from(log, from, table).unwrap(), next));
    }
}

/// Replaying keeps the positions pointing at the records that wrote the
/// values.
pub proof fn lemma_replay_points_into(log: Seq<u8>, from: int, table: Table)
    requires
        0 <= from <= log.len(),
        table.points_into(log),
        replay_from(log, from, table) is Ok,
    ensures
        replay_from(log, from, table).unwrap().points_into(log),
    decreases log.len() - from,
{
    if from < log.len() {
        lemma_record_at(log, from);
        let (op, next) = record_at(log, from).unwrap();
        let applied = table.apply(op, from);
        assert(applied.points_into(log));
        lemma_replay_points_into(log, next, applied);
    }
}

/// The last record at or after `from` that is about `key`, with its
/// position, or `before` where there is none.
pub open spec fn last_record_of(
    log: Seq<u8>,
    from: int,
    key: Seq<char>,
    before: Option<(Operation, int)>,
) -> Option<(Operation, int)>
    decreases log.len() - from,
{
    if from < 0 || from >= log.len() {
        before
    } else {
        match record_at(log, from) {
            Ok((op, next)) => last_record_of(
                log,
                next,
                key,
                if op.key() == key {
                    Some((op, from))
                } else {
                    before
                },
            ),
            Err(_) => before,
        }
    }
}

/// Whether `table` holds for `key` what its last record says: the position
/// and the value of that record where it is a write, and nothing where it
/// is a removal or there is none.
pub open spec fn holds_last(table: Table, key: Seq<char>, last: Option<(Operation, int)>) -> bool {
    match last {
        Some((Operation::Put(_, value), offset)) => {
            &&& table.offsets.contains_key(key)
            &&& table.offsets[key] == offset
            &&& table.values.contains_key(key)
            &&& table.values[key] == value
        },
        _ => !table.offsets.contains_key(key) && !table.values.contains_key(key),
    }
}

/// Replaying keeps for every key what its last record says.
pub proof fn lemma_replay_holds_last(
    log: Seq<u8>,
    from: int,
    table: Table,
    key: Seq<char>,
    before: Option<(Operation, int)>,
)
    requires
        0 <= from <= log.len(),
        replay_from(log, from, table) is Ok,
        holds_last(table, key, before),
    ensures
        holds_last(
            replay_from(log, from, table).unwrap(),
            key,
            last_record_of(log, from, key, before),
        ),
    decreases log.len() - from,
{
    if from < log.len() {
        lemma_record_at(log, from);
        let (op, next) = record_at(log, from).unwrap();
        let last = if op.key() == key {
            Some((op, from))
        } else {
            before
        };
        assert(holds_last(table.apply(op, from), key, last));
        lemma_replay_holds_last(log, next, table.apply(op, from), key, last);
    }
}

/// What a log amounts to holds exactly the live keys: a key has a position
/// and a value where the last record about it is a write, those of that
/// record, and has none where that record is a removal or there is none.
pub proof fn lemma_live_keys(log: Seq<u8>, key: Seq<char>)
    requires
        replay(log) is Ok,
    ensures
        holds_last(replay(log).unwrap(), key, last_record_of(log, 0, key, None)),
{
    lemma_replay_holds_last(log, 0, Table::empty(), key, None);
}

/// The line that records `command`.
pub fn encode_record(command: &Command) -> (line: Vec<u8>)
    ensures
        line@ == record_line(command@),
{
    let text = command.to_string();
    let mut line: Vec<u8> = Vec::new();
    append_bytes(&mut line, text.as_str().as_bytes());
    line.push(NEWLINE);
    line
}

/// Whether `result` is the record `expected`, with the position behind
/// it, or an error of the expected kind.
pub open spec fn reads_as(
    result: Result<(Command, usize), KvsError>,
    expected: Result<(Operation, int), KvsErrorKind>,
) -> bool {
    match expected {
        Ok((op, next)) => result matches Ok((command, behind)) && command@ == op && behind
            == next,
        Err(kind) => result matches Err(e) && e.kind() == kind,
    }
}

/// Reads the record that begins at `from`, and says where the next one
/// begins.
pub fn read_record(log: &[u8], from: usize) -> (read: Result<(Command, usize), KvsError>)
    ensures
        reads_as(read, record_at(log@, from as int)),
{
    if from >= log.len() {
        return Err(KvsError::new(KvsErrorKind::ParsingError));
    }
    let end = find_line_end(log, from);
    if end >= log.len() {
        return Err(KvsError::new(KvsErrorKind::ParsingError));
    }
    let line = &log[from..end];
    let text = match text_of(line) {
        Some(text) => text,
        None => {
            return Err(KvsError::new(KvsErrorKind::FileError));
        },
    };
    match Command::from_str(text) {
        Ok(Command::Put(key, value)) => Ok((Command::Put(key, value), end + 1)),
        Ok(Command::Rm(key)) => Ok((Command::Rm(key), end + 1)),
        _ => Err(KvsError::new(KvsErrorKind::ParsingError)),
    }
}

/// The value that the record at `from` writes: what a read of a key finds
/// at the key's position. A line there that is no record fails as
/// `record_at` says; a record that is a removal is `InvalidData`.
pub open spec fn value_at(log: Seq<u8>, from: int) -> Result<Seq<char>, KvsErrorKind> {
    match record_at(log, from) {
        Ok((Operation::Put(_, value), _)) => Ok(value),
        Ok(_) => Err(KvsErrorKind::InvalidData),
        Err(kind) => Err(kind),
    }
}

/// Reads the value that the record at `from` writes.
pub fn read_value(log: &[u8], from: usize) -> (read: Result<String, KvsError>)
    ensures
        match value_at(log@, from as int) {
            Ok(value) => read matches Ok(v) && v@ == value,
            Err(kind) => read matches Err(e) && e.kind() == kind,
        },
{
    match read_record(log, from) {
        Ok((Command::Put(_, value), _)) => Ok(value),
        Ok(_) => Err(KvsError::new(KvsErrorKind::InvalidData)),
        Err(e) => Err(e),
    }
}

} // verus!
