use kvs::engines::kvs::KVS_UNCOMPACTED_THRESHOLD;
use kvs::error::KvsErrorKind;
use kvs::log::read_record;
use kvs::command::Command;
use kvs::{KvStore, KvsEngine};

fn empty() -> KvStore {
    KvStore::open(Vec::new()).unwrap()
}

fn s(text: &str) -> String {
    text.to_owned()
}

fn open_error(log: &[u8]) -> KvsErrorKind {
    match KvStore::open(log.to_vec()) {
        Ok(_) => panic!("the log was opened"),
        Err(e) => e.kind(),
    }
}

fn reopen(store: &KvStore) -> KvStore {
    KvStore::open(store.log_image().clone()).unwrap()
}

#[test]
fn set_then_get() {
    let mut store = empty();
    store.set(s("k1"), s("v1")).unwrap();
    assert_eq!(store.get(s("k1")).unwrap(), Some(s("v1")));
    assert_eq!(store.get(s("k2")).unwrap(), None);
}

#[test]
fn overwrite_then_reopen() {
    let mut store = empty();
    store.set(s("k"), s("v1")).unwrap();
    store.set(s("k"), s("v2")).unwrap();
    assert_eq!(store.get(s("k")).unwrap(), Some(s("v2")));
    let reopened = reopen(&store);
    assert_eq!(reopened.get(s("k")).unwrap(), Some(s("v2")));
}

#[test]
fn remove_then_get() {
    let mut store = empty();
    store.set(s("k"), s("v")).unwrap();
    store.remove(s("k")).unwrap();
    assert_eq!(store.get(s("k")).unwrap(), None);
    assert_eq!(store.remove(s("k")).unwrap_err().kind(), KvsErrorKind::KeyNotFound);
}

#[test]
fn five_thousand_keys() {
    let mut store = empty();
    for i in 0..5000 {
        store.set(format!("key{}", i), format!("{}", i % 10)).unwrap();
    }
    assert!(store.uncompacted_writes() < 5000);
    assert_eq!(store.uncompacted_writes(), 999);
    let reopened = reopen(&store);
    for i in 0..5000 {
        assert_eq!(reopened.get(format!("key{}", i)).unwrap(), Some(format!("{}", i % 10)));
        assert_eq!(store.get(format!("key{}", i)).unwrap(), Some(format!("{}", i % 10)));
    }
}

#[test]
fn get_survives_writes_to_other_keys() {
    let mut store = empty();
    store.set(s("k"), s("v")).unwrap();
    store.set(s("other"), s("x")).unwrap();
    store.remove(s("other")).unwrap();
    assert_eq!(store.remove(s("absent")).unwrap_err().kind(), KvsErrorKind::KeyNotFound);
    store.compaction();
    assert_eq!(store.get(s("k")).unwrap(), Some(s("v")));
}

#[test]
fn the_log_holds_one_line_per_write() {
    let mut store = empty();
    store.set(s("k1"), s("v1")).unwrap();
    assert_eq!(store.log_image(), &b"SET k1 v1\n".to_vec());
    store.set(s("k2"), s("v2")).unwrap();
    store.remove(s("k1")).unwrap();
    assert_eq!(store.log_image(), &b"SET k1 v1\nSET k2 v2\nRM k1\n".to_vec());
    assert_eq!(store.uncompacted_writes(), 3);
}

#[test]
fn the_index_points_at_the_last_write() {
    let mut store = empty();
    store.set(s("k1"), s("v1")).unwrap();
    store.set(s("k2"), s("v2")).unwrap();
    assert_eq!(store.position("k1"), Some(0));
    assert_eq!(store.position("k2"), Some(10));
    store.set(s("k1"), s("v3")).unwrap();
    assert_eq!(store.position("k1"), Some(20));
    store.remove(s("k2")).unwrap();
    assert_eq!(store.position("k2"), None);
    assert_eq!(store.position("k3"), None);
    assert!(store.contains("k1"));
    assert!(!store.contains("k2"));
}

#[test]
fn every_indexed_position_holds_a_write_of_its_key() {
    let mut store = empty();
    for i in 0..50 {
        store.set(format!("k{}", i % 7), format!("v{}", i)).unwrap();
        if i % 5 == 0 {
            store.remove(format!("k{}", i % 7)).unwrap();
        }
    }
    for k in 0..7 {
        let key = format!("k{}", k);
        if let Some(position) = store.position(&key) {
            let (command, _) = read_record(store.log_image(), position as usize).unwrap();
            let value = store.get(key.clone()).unwrap().unwrap();
            assert_eq!(command, Command::Put(key, value));
        } else {
            assert_eq!(store.get(key).unwrap(), None);
        }
    }
}

#[test]
fn open_replays_the_log() {
    let store = KvStore::open(b"SET a b\nRM a\nSET c d\nSET e f\nSET c g\n".to_vec()).unwrap();
    assert_eq!(store.get(s("a")).unwrap(), None);
    assert_eq!(store.get(s("c")).unwrap(), Some(s("g")));
    assert_eq!(store.get(s("e")).unwrap(), Some(s("f")));
    assert_eq!(store.position("c"), Some(29));
    assert_eq!(store.position("e"), Some(21));
    assert_eq!(store.uncompacted_writes(), 0);
}

#[test]
fn open_accepts_the_removal_of_an_absent_key() {
    let store = KvStore::open(b"RM zz\nSET a b\n".to_vec()).unwrap();
    assert_eq!(store.get(s("a")).unwrap(), Some(s("b")));
    assert_eq!(store.get(s("zz")).unwrap(), None);
}

#[test]
fn open_reads_lines_with_spare_whitespace_and_words() {
    let store = KvStore::open(b"SET   a \t b  extra words\n".to_vec()).unwrap();
    assert_eq!(store.get(s("a")).unwrap(), Some(s("b")));
    assert_eq!(store.position("a"), Some(0));
}

#[test]
fn open_rejects_a_line_cut_short() {
    assert_eq!(open_error(b"SET k v"), KvsErrorKind::ParsingError);
    assert_eq!(
        open_error(b"SET a b\nSET k"),
        KvsErrorKind::ParsingError
    );
}

#[test]
fn open_rejects_a_line_that_is_no_record() {
    assert_eq!(open_error(b"FOO\n"), KvsErrorKind::ParsingError);
    assert_eq!(open_error(b"GET k\n"), KvsErrorKind::ParsingError);
    assert_eq!(open_error(b"SET k\n"), KvsErrorKind::ParsingError);
    assert_eq!(open_error(b"\n"), KvsErrorKind::ParsingError);
    assert_eq!(
        open_error(b"SET a b\n\nSET c d\n"),
        KvsErrorKind::ParsingError
    );
}

#[test]
fn open_rejects_a_line_that_is_not_text() {
    assert_eq!(open_error(b"SET k \xff\n"), KvsErrorKind::FileError);
}

#[test]
fn open_fails_with_the_first_fault() {
    assert_eq!(
        open_error(b"SET a b\n\xff\nFOO\n"),
        KvsErrorKind::FileError
    );
    assert_eq!(
        open_error(b"SET a b\nFOO\n\xff\n"),
        KvsErrorKind::ParsingError
    );
}

#[test]
fn set_rejects_what_is_no_word() {
    let mut store = empty();
    store.set(s("k"), s("v")).unwrap();
    for (key, value) in [("a b", "c"), ("", "v"), ("k", ""), ("k", "v\n"), ("k\u{a0}", "v"), ("k", "a b")] {
        let err = store.set(s(key), s(value)).unwrap_err();
        assert_eq!(err.kind(), KvsErrorKind::InvalidCommand);
    }
    assert_eq!(store.log_image(), &b"SET k v\n".to_vec());
    assert_eq!(store.uncompacted_writes(), 1);
    assert_eq!(store.get(s("k")).unwrap(), Some(s("v")));
}

#[test]
fn get_and_remove_of_what_is_no_word() {
    let mut store = empty();
    store.set(s("k"), s("v")).unwrap();
    assert_eq!(store.get(s("a b")).unwrap(), None);
    assert_eq!(store.get(s("")).unwrap(), None);
    assert_eq!(store.remove(s("a b")).unwrap_err().kind(), KvsErrorKind::KeyNotFound);
}

#[test]
fn compaction_keeps_one_write_per_live_key() {
    let mut store = KvStore::open(b"SET a 1\nSET b 2\nSET a 3\nRM b\nSET c 4\nRM zz\n".to_vec()).unwrap();
    store.compaction();
    assert_eq!(store.log_image(), &b"SET a 3\nSET c 4\n".to_vec());
    assert_eq!(store.position("a"), Some(0));
    assert_eq!(store.position("c"), Some(8));
    assert_eq!(store.position("b"), None);
    assert_eq!(store.get(s("a")).unwrap(), Some(s("3")));
    assert_eq!(store.get(s("b")).unwrap(), None);
    assert_eq!(store.get(s("c")).unwrap(), Some(s("4")));
    assert_eq!(store.uncompacted_writes(), 0);
}

#[test]
fn compaction_resets_the_count() {
    let mut store = empty();
    store.set(s("a"), s("1")).unwrap();
    store.set(s("a"), s("2")).unwrap();
    assert_eq!(store.uncompacted_writes(), 2);
    store.compaction();
    assert_eq!(store.uncompacted_writes(), 0);
    assert_eq!(store.log_image(), &b"SET a 2\n".to_vec());
}

#[test]
fn compaction_writes_lines_afresh() {
    let mut store = KvStore::open(b"SET   a    b   spare\n".to_vec()).unwrap();
    store.compaction();
    assert_eq!(store.log_image(), &b"SET a b\n".to_vec());
}

#[test]
fn compaction_of_an_empty_store() {
    let mut store = KvStore::open(b"SET a 1\nRM a\n".to_vec()).unwrap();
    store.compaction();
    assert_eq!(store.log_image(), &Vec::<u8>::new());
    assert_eq!(store.get(s("a")).unwrap(), None);
}

#[test]
fn compacted_size_is_the_sum_over_live_keys() {
    let mut store = empty();
    let mut expected = 0;
    for i in 0..100 {
        store.set(format!("key{}", i), s("old")).unwrap();
    }
    for i in 0..100 {
        let value = format!("value{}", i * i);
        expected += "SET ".len() + format!("key{}", i).len() + 1 + value.len() + 1;
        store.set(format!("key{}", i), value).unwrap();
    }
    for i in 0..10 {
        let key = format!("key{}", i * 10);
        let value = store.get(key.clone()).unwrap().unwrap();
        expected -= "SET ".len() + key.len() + 1 + value.len() + 1;
        store.remove(key).unwrap();
    }
    store.compaction();
    assert_eq!(store.log_image().len(), expected);
}

#[test]
fn compaction_fires_above_the_threshold() {
    assert_eq!(KVS_UNCOMPACTED_THRESHOLD, 4000);
    let mut store = empty();
    for i in 0..4000 {
        store.set(s("k"), format!("{}", i)).unwrap();
    }
    assert_eq!(store.uncompacted_writes(), 4000);
    assert_eq!(store.position("k"), Some((store.log_image().len() - "SET k 3999\n".len()) as u64));
    store.set(s("k"), s("last")).unwrap();
    assert_eq!(store.uncompacted_writes(), 0);
    assert_eq!(store.log_image(), &b"SET k last\n".to_vec());
    assert_eq!(store.position("k"), Some(0));
    assert_eq!(store.get(s("k")).unwrap(), Some(s("last")));
    store.set(s("j"), s("1")).unwrap();
    assert_eq!(store.uncompacted_writes(), 1);
    assert_eq!(store.log_image(), &b"SET k last\nSET j 1\n".to_vec());
}

#[test]
fn compaction_fires_on_a_removal_too() {
    let mut store = empty();
    store.set(s("gone"), s("v")).unwrap();
    for i in 0..3999 {
        store.set(s("k"), format!("{}", i)).unwrap();
    }
    assert_eq!(store.uncompacted_writes(), 4000);
    store.remove(s("gone")).unwrap();
    assert_eq!(store.uncompacted_writes(), 0);
    assert_eq!(store.log_image(), &b"SET k 3998\n".to_vec());
}

#[test]
fn failed_writes_are_not_counted() {
    let mut store = empty();
    assert_eq!(store.remove(s("k")).unwrap_err().kind(), KvsErrorKind::KeyNotFound);
    assert_eq!(store.set(s("a b"), s("v")).unwrap_err().kind(), KvsErrorKind::InvalidCommand);
    assert_eq!(store.uncompacted_writes(), 0);
    assert_eq!(store.log_image(), &Vec::<u8>::new());
}

#[test]
fn reopening_gives_the_same_index_and_answers() {
    let mut store = empty();
    for i in 0..200 {
        store.set(format!("k{}", i % 23), format!("v{}", i)).unwrap();
        if i % 9 == 0 {
            store.remove(format!("k{}", i % 23)).unwrap();
        }
    }
    let reopened = reopen(&store);
    for k in 0..30 {
        let key = format!("k{}", k);
        assert_eq!(reopened.position(&key), store.position(&key));
        assert_eq!(reopened.get(key.clone()).unwrap(), store.get(key).unwrap());
    }
}

#[test]
fn exec_command_on_the_store() {
    let mut store = empty();
    assert_eq!(store.exec_command(Command::Put(s("k"), s("v"))).unwrap(), None);
    assert_eq!(store.exec_command(Command::Get(s("k"))).unwrap(), Some(s("v")));
    assert_eq!(store.exec_command(Command::Get(s("j"))).unwrap(), None);
    assert_eq!(store.exec_command(Command::Rm(s("k"))).unwrap(), None);
    assert_eq!(
        store.exec_command(Command::Rm(s("k"))).unwrap_err().kind(),
        KvsErrorKind::KeyNotFound
    );
    assert_eq!(
        store.exec_command(Command::Put(s("a b"), s("v"))).unwrap_err().kind(),
        KvsErrorKind::InvalidCommand
    );
}

#[test]
fn the_record_that_a_command_would_append() {
    let mut store = empty();
    store.set(s("k"), s("v")).unwrap();
    let line = store.record_for(&Command::Put(s("a"), s("b"))).unwrap();
    assert_eq!(line, b"SET a b\n".to_vec());
    let line = store.record_for(&Command::Rm(s("k"))).unwrap();
    assert_eq!(line, b"RM k\n".to_vec());
    let line = store.record_for(&Command::Get(s("k"))).unwrap();
    assert_eq!(line, Vec::<u8>::new());
    let err = store.record_for(&Command::Put(s("a b"), s("c"))).unwrap_err();
    assert_eq!(err.kind(), KvsErrorKind::InvalidCommand);
    let err = store.record_for(&Command::Put(s("a"), s(""))).unwrap_err();
    assert_eq!(err.kind(), KvsErrorKind::InvalidCommand);
    let err = store.record_for(&Command::Rm(s("absent"))).unwrap_err();
    assert_eq!(err.kind(), KvsErrorKind::KeyNotFound);
    assert_eq!(store.log_image(), &b"SET k v\n".to_vec());
}

#[test]
fn the_record_is_what_the_command_appends() {
    let mut store = empty();
    for command in [Command::Put(s("a"), s("1")), Command::Put(s("b"), s("2")), Command::Rm(s("a"))] {
        let mut expected = store.log_image().clone();
        expected.extend(store.record_for(&command).unwrap());
        store.exec_command(command).unwrap();
        assert_eq!(store.log_image(), &expected);
    }
}
