//! Compaction: the log rewritten so that it holds one write per live key
//! and nothing else.

use vstd::hash_map::StringHashMap;
use vstd::prelude::*;
use crate::command::{Command, Operation};
use crate::error::KvsErrorKind;
use crate::line::append_bytes;
use crate::log::{
    encode_record, index_matches, is_record, kept_or_behind, lemma_record_at,
    lemma_record_at_prefix, lemma_replay_append, lemma_replay_bounded,
    lemma_replay_keeps_or_advances, read_record, record_at, record_line, replay, replay_from,
    Table,
};

verus! {

/// Whether the record `op` at position `from` is the one that `table`
/// points at for its key: the last write to a key that was not removed
/// since.
pub open spec fn is_live(table: Table, op: Operation, from: int) -> bool {
    op matches Operation::Put(key, _) && table.offsets.contains_key(key) && table.offsets[key]
        == from
}

/// The lines, written afresh, of the records at or after `from` that are
/// live in `table`, in the order of the log.
pub open spec fn compact_from(log: Seq<u8>, from: int, table: Table) -> Seq<u8>
    decreases log.len() - from,
{
    if from < 0 || from >= log.len() {
        Seq::empty()
    } else {
        match record_at(log, from) {
            Ok((op, next)) => {
                let rest = compact_from(log, next, table);
                if is_live(table, op, from) {
                    record_line(op) + rest
                } else {
                    rest
                }
            },
            Err(_) => Seq::empty(),
        }
    }
}

/// The compacted form of a log that replays: its live records, written
/// afresh, in the order of the log.
pub open spec fn compacted(log: Seq<u8>) -> Seq<u8>
    recommends
        replay(log) is Ok,
{
    compact_from(log, 0, replay(log).unwrap())
}

/// Whether every record of `log` at or after `from` is live in `table`:
/// each is a write, and the one that `table` points at for its key.
pub open spec fn all_live_from(log: Seq<u8>, from: int, table: Table) -> bool
    decreases log.len() - from,
{
    if from < 0 || from >= log.len() {
        true
    } else {
        match record_at(log, from) {
            Ok((op, next)) => is_live(table, op, from) && all_live_from(log, next, table),
            Err(_) => false,
        }
    }
}

/// A log of live records stays one when the write of a key that it does
/// not hold is appended.
pub proof fn lemma_all_live_append(log: Seq<u8>, from: int, table: Table, op: Operation)
    requires
        0 <= from <= log.len(),
        all_live_from(log, from, table),
        replay(log) is Ok,
        is_record(op),
        op is Put,
        !table.offsets.contains_key(op.key()),
    ensures
        all_live_from(log + record_line(op), from, table.apply(op, log.len() as int)),
    decreases log.len() - from,
{
    let whole = log + record_line(op);
    let applied = table.apply(op, log.len() as int);
    if from < log.len() {
        lemma_record_at(log, from);
        lemma_record_at_prefix(log, record_line(op), from);
        let (first, next) = record_at(log, from).unwrap();
        lemma_all_live_append(log, next, table, op);
    } else {
        lemma_replay_append(log, op);
        assert(all_live_from(whole, whole.len() as int, applied));
    }
}

/// The size of a log that holds one write for each key of `values` and
/// nothing else: the sum of the lengths of those lines.
pub open spec fn records_size(values: Map<Seq<char>, Seq<char>>) -> nat
    decreases values.dom().len(),
    when values.dom().finite()
{
    if values.dom().len() == 0 {
        0
    } else {
        let key = values.dom().choose();
        record_line(Operation::Put(key, values[key])).len() + records_size(values.remove(key))
    }
}

/// The sum does not depend on the key that is taken first.
pub proof fn lemma_records_size_remove(values: Map<Seq<char>, Seq<char>>, key: Seq<char>)
    requires
        values.dom().finite(),
        values.contains_key(key),
    ensures
        records_size(values) == record_line(Operation::Put(key, values[key])).len()
            + records_size(values.remove(key)),
    decreases values.dom().len(),
{
    let chosen = values.dom().choose();
    if chosen != key {
        lemma_records_size_remove(values.remove(chosen), key);
        lemma_records_size_remove(values.remove(key), chosen);
        assert(values.remove(chosen).remove(key) =~= values.remove(key).remove(chosen));
    }
}

/// One more key adds the length of its line.
pub proof fn lemma_records_size_insert(
    values: Map<Seq<char>, Seq<char>>,
    key: Seq<char>,
    value: Seq<char>,
)
    requires
        values.dom().finite(),
        !values.contains_key(key),
    ensures
        records_size(values.insert(key, value)) == records_size(values) + record_line(
            Operation::Put(key, value),
        ).len(),
{
    lemma_records_size_remove(values.insert(key, value), key);
    assert(values.insert(key, value).remove(key) =~= values);
}

/// The state of a compaction that has gone through the log up to `from`:
/// `seen` is what the log amounts to up to there, `done` what all of it
/// amounts to, `out` what was written so far and `kept` what that amounts
/// to: the keys whose last write lies before `from`, with their values.
pub open spec fn compaction_state(
    log: Seq<u8>,
    from: int,
    seen: Table,
    done: Table,
    out: Seq<u8>,
    kept: Table,
) -> bool {
    &&& 0 <= from <= log.len()
    &&& replay_from(log, from, seen) == Ok::<Table, KvsErrorKind>(done)
    &&& seen.bounded_by(from)
    &&& done.bounded_by(log.len() as int)
    &&& replay(out) == Ok::<Table, KvsErrorKind>(kept)
    &&& kept.values.dom().finite()
    &&& kept.offsets.dom() == kept.values.dom()
    &&& forall|key: Seq<char>| #[trigger]
        kept.values.contains_key(key) <==> done.offsets.contains_key(key) && done.offsets[key]
            < from
    &&& forall|key: Seq<char>| #[trigger]
        kept.values.contains_key(key) ==> kept.values[key] == done.values[key]
    &&& out.len() == records_size(kept.values)
    &&& all_live_from(out, 0, kept)
}

/// One step of a compaction: the record at `from` is written to `out`
/// where it is live, and passed over where it is not.
pub proof fn lemma_compaction_step(
    log: Seq<u8>,
    from: int,
    seen: Table,
    done: Table,
    out: Seq<u8>,
    kept: Table,
)
    requires
        compaction_state(log, from, seen, done, out, kept),
        from < log.len(),
    ensures
        record_at(log, from) matches Ok((op, next)) && is_record(op) && from < next <= log.len()
            && if is_live(done, op, from) {
            compaction_state(
                log,
                next,
                seen.apply(op, from),
                done,
                out + record_line(op),
                kept.apply(op, out.len() as int),
            )
        } else {
            compaction_state(log, next, seen.apply(op, from), done, out, kept)
        },
{
    lemma_record_at(log, from);
    let (op, next) = record_at(log, from).unwrap();
    let seen_next = seen.apply(op, from);
    assert(seen_next.offsets.dom() =~= seen_next.values.dom());
    assert(seen_next.bounded_by(next));
    assert(replay_from(log, next, seen_next) == Ok::<Table, KvsErrorKind>(done));
    lemma_replay_keeps_or_advances(log, next, seen_next);
    assert(kept_or_behind(seen_next, done, next));
    if is_live(done, op, from) {
        let key = op->Put_0;
        let value = op->Put_1;
        let kept_next = kept.apply(op, out.len() as int);
        lemma_replay_append(out, op);
        assert(done.values[key] == value);
        assert(!kept.values.contains_key(key));
        lemma_records_size_insert(kept.values, key, value);
        lemma_all_live_append(out, 0, kept, op);
        assert(kept_next.offsets.dom() =~= kept_next.values.dom());
        assert forall|other: Seq<char>| #[trigger]
            kept_next.values.contains_key(other) <==> done.offsets.contains_key(other)
                && done.offsets[other] < next by {
            if done.offsets.contains_key(other) && from <= done.offsets[other] < next {
                assert(seen_next.offsets.contains_key(other));
            }
        }
    } else {
        assert forall|other: Seq<char>| #[trigger]
            kept.values.contains_key(other) <==> done.offsets.contains_key(other)
                && done.offsets[other] < next by {
            if done.offsets.contains_key(other) && from <= done.offsets[other] < next {
                assert(seen_next.offsets.contains_key(other));
            }
        }
    }
}

/// A compaction that has reached `from` ends with a log that replays to
/// the values of the log it began with, and whose size is the sum over
/// those keys.
pub proof fn lemma_compaction_finishes(
    log: Seq<u8>,
    from: int,
    seen: Table,
    done: Table,
    out: Seq<u8>,
    kept: Table,
)
    requires
        compaction_state(log, from, seen, done, out, kept),
    ensures
        replay(out + compact_from(log, from, done)) matches Ok(all) && all.values == done.values
            && all.offsets.dom() == all.values.dom() && all_live_from(
            out + compact_from(log, from, done),
            0,
            all,
        ),
        (out + compact_from(log, from, done)).len() == records_size(done.values),
    decreases log.len() - from,
{
    if from < log.len() {
        lemma_compaction_step(log, from, seen, done, out, kept);
        let (op, next) = record_at(log, from).unwrap();
        if is_live(done, op, from) {
            lemma_compaction_finishes(
                log,
                next,
                seen.apply(op, from),
                done,
                out + record_line(op),
                kept.apply(op, out.len() as int),
            );
            assert(out + compact_from(log, from, done) =~= (out + record_line(op)) + compact_from(
                log,
                next,
                done,
            ));
        } else {
            lemma_compaction_finishes(log, next, seen.apply(op, from), done, out, kept);
        }
    } else {
        assert(out + compact_from(log, from, done) =~= out);
        assert(kept.values =~= done.values);
    }
}

/// A compaction begins with nothing seen and nothing written.
pub proof fn lemma_compaction_begins(log: Seq<u8>)
    requires
        replay(log) is Ok,
    ensures
        compaction_state(
            log,
            0,
            Table::empty(),
            replay(log).unwrap(),
            Seq::empty(),
            Table::empty(),
        ),
{
    lemma_replay_bounded(log, 0, Table::empty());
    assert(Table::empty().values.dom() =~= Set::<Seq<char>>::empty());
}

/// Compaction preserves what the log amounts to: the compacted log
/// replays, and gives every key the value that it had.
pub proof fn lemma_compaction_preserves_values(log: Seq<u8>)
    requires
        replay(log) is Ok,
    ensures
        replay(compacted(log)) matches Ok(table) && table.values == replay(log).unwrap().values,
{
    lemma_compaction_begins(log);
    lemma_compaction_finishes(
        log,
        0,
        Table::empty(),
        replay(log).unwrap(),
        Seq::empty(),
        Table::empty(),
    );
    assert(Seq::<u8>::empty() + compacted(log) =~= compacted(log));
}

/// A compacted log holds nothing but the live writes: every record of it
/// is a write, and the one that the index points at for its key, so that
/// no key is written twice.
pub proof fn lemma_compacted_holds_live_writes(log: Seq<u8>)
    requires
        replay(log) is Ok,
    ensures
        replay(compacted(log)) matches Ok(table) && all_live_from(compacted(log), 0, table),
{
    lemma_compaction_begins(log);
    lemma_compaction_finishes(
        log,
        0,
        Table::empty(),
        replay(log).unwrap(),
        Seq::empty(),
        Table::empty(),
    );
    assert(Seq::<u8>::empty() + compacted(log) =~= compacted(log));
}

/// After compaction the size of the log is the sum, over the live keys, of
/// the length of the line that writes the key's value: no byte more.
pub proof fn lemma_compacted_size(log: Seq<u8>)
    requires
        replay(log) is Ok,
    ensures
        compacted(log).len() == records_size(replay(log).unwrap().values),
{
    lemma_compaction_begins(log);
    lemma_compaction_finishes(
        log,
        0,
        Table::empty(),
        replay(log).unwrap(),
        Seq::empty(),
        Table::empty(),
    );
    assert(Seq::<u8>::empty() + compacted(log) =~= compacted(log));
}

/// Compacts `log`, whose live records `index` points at: the compacted log
/// and the index that points at its records.
pub fn compact(log: &[u8], index: &StringHashMap<u64>) -> (fresh: (Vec<u8>, StringHashMap<u64>))
    requires
        replay(log@) is Ok,
        index_matches(index@, replay(log@).unwrap().offsets),
    ensures
        fresh.0@ == compacted(log@),
        replay(fresh.0@) matches Ok(table) && table.values == replay(log@).unwrap().values
            && index_matches(fresh.1@, table.offsets),
        fresh.0@.len() == records_size(replay(log@).unwrap().values),
{
    let mut out: Vec<u8> = Vec::new();
    let mut fresh: StringHashMap<u64> = StringHashMap::new();
    let mut from: usize = 0;
    let ghost done = replay(log@).unwrap();
    let ghost mut seen = Table::empty();
    let ghost mut kept = Table::empty();
    proof {
        lemma_compaction_begins(log@);
        assert(out@ + compact_from(log@, 0, done) =~= compacted(log@));
    }
    while from < log.len()
        invariant
            compaction_state(log@, from as int, seen, done, out@, kept),
            replay(log@) is Ok,
            done == replay(log@).unwrap(),
            index_matches(index@, done.offsets),
            index_matches(fresh@, kept.offsets),
            compacted(log@) == out@ + compact_from(log@, from as int, done),
        decreases log.len() - from,
    {
        proof {
            lemma_compaction_step(log@, from as int, seen, done, out@, kept);
        }
        match read_record(log, from) {
            Ok((command, next)) => {
                let live = match &command {
                    Command::Put(key, _) => match index.get(key.as_str()) {
                        Some(position) => *position == from as u64,
                        None => false,
                    },
                    _ => false,
                };
                assert(live == is_live(done, command@, from as int));
                if live {
                    let line = encode_record(&command);
                    let position = out.len() as u64;
                    proof {
                        assert(out@ + compact_from(log@, from as int, done) =~= (out@
                            + record_line(command@)) + compact_from(log@, next as int, done));
                        kept = kept.apply(command@, out@.len() as int);
                    }
                    append_bytes(&mut out, line.as_slice());
                    if let Command::Put(key, _) = command {
                        fresh.insert(key, position);
                    }
                }
                proof {
                    seen = seen.apply(command@, from as int);
                }
                from = next;
            },
            Err(_) => {
                assert(false);
                return (out, fresh);
            },
        }
    }
    proof {
        lemma_compaction_finishes(log@, from as int, seen, done, out@, kept);
        assert(out@ + compact_from(log@, from as int, done) =~= out@);
    }
    (out, fresh)
}

} // verus!
