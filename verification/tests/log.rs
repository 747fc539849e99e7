use kvs::command::Command;
use kvs::error::KvsErrorKind;
use kvs::line::{append_bytes, find_line_end};
use kvs::log::{encode_record, read_record, read_value};

fn put(key: &str, value: &str) -> Command {
    Command::Put(key.to_owned(), value.to_owned())
}

#[test]
fn line_ends_at_the_first_newline() {
    assert_eq!(find_line_end(b"ab\ncd\n", 0), 2);
    assert_eq!(find_line_end(b"ab\ncd\n", 2), 2);
    assert_eq!(find_line_end(b"ab\ncd\n", 3), 5);
    assert_eq!(find_line_end(b"ab\ncd", 3), 5);
    assert_eq!(find_line_end(b"", 0), 0);
}

#[test]
fn bytes_are_appended() {
    let mut out = b"ab".to_vec();
    append_bytes(&mut out, b"cd");
    append_bytes(&mut out, b"");
    assert_eq!(out, b"abcd".to_vec());
}

#[test]
fn record_of_a_write() {
    assert_eq!(encode_record(&put("k1", "v1")), b"SET k1 v1\n".to_vec());
}

#[test]
fn record_of_a_removal() {
    assert_eq!(encode_record(&Command::Rm("k1".to_owned())), b"RM k1\n".to_vec());
}

#[test]
fn read_records_in_turn() {
    let log = b"SET k1 v1\nRM k1\nSET k2 v2\n";
    assert_eq!(read_record(log, 0).unwrap(), (put("k1", "v1"), 10));
    assert_eq!(read_record(log, 10).unwrap(), (Command::Rm("k1".to_owned()), 16));
    assert_eq!(read_record(log, 16).unwrap(), (put("k2", "v2"), 26));
}

#[test]
fn read_record_with_text_beyond_ascii() {
    let log = "SET clé värde\n".as_bytes();
    assert_eq!(read_record(log, 0).unwrap(), (put("clé", "värde"), log.len()));
}

#[test]
fn read_record_behind_the_end() {
    let log = b"SET k1 v1\n";
    assert_eq!(read_record(log, 10).unwrap_err().kind(), KvsErrorKind::ParsingError);
    assert_eq!(read_record(log, 11).unwrap_err().kind(), KvsErrorKind::ParsingError);
    assert_eq!(read_record(b"", 0).unwrap_err().kind(), KvsErrorKind::ParsingError);
}

#[test]
fn read_record_cut_short() {
    assert_eq!(read_record(b"SET k1 v1", 0).unwrap_err().kind(), KvsErrorKind::ParsingError);
    assert_eq!(read_record(b"SET a b\nSET k1 v", 8).unwrap_err().kind(), KvsErrorKind::ParsingError);
}

#[test]
fn read_record_that_is_no_record() {
    assert_eq!(read_record(b"\n", 0).unwrap_err().kind(), KvsErrorKind::ParsingError);
    assert_eq!(read_record(b"PUT k v\n", 0).unwrap_err().kind(), KvsErrorKind::ParsingError);
    assert_eq!(read_record(b"SET k\n", 0).unwrap_err().kind(), KvsErrorKind::ParsingError);
    assert_eq!(read_record(b"{\"Set\":[\"k\",\"v\"]}\n", 0).unwrap_err().kind(), KvsErrorKind::ParsingError);
}

#[test]
fn read_record_of_a_read() {
    assert_eq!(read_record(b"GET k\n", 0).unwrap_err().kind(), KvsErrorKind::ParsingError);
}

#[test]
fn read_record_that_is_not_text() {
    assert_eq!(read_record(b"SET k \xff\n", 0).unwrap_err().kind(), KvsErrorKind::FileError);
    assert_eq!(read_record(b"\xc3\n", 0).unwrap_err().kind(), KvsErrorKind::FileError);
}

#[test]
fn read_record_from_the_middle_of_a_line() {
    assert_eq!(read_record(b"xxSET k v\n", 2).unwrap(), (put("k", "v"), 10));
    assert_eq!(read_record(b"SET k v\n", 1).unwrap_err().kind(), KvsErrorKind::ParsingError);
}

#[test]
fn record_round_trip() {
    let commands = vec![put("key", "value"), Command::Rm("key".to_owned()), put("a", "€")];
    for command in commands {
        let line = encode_record(&command);
        assert_eq!(read_record(&line, 0).unwrap(), (command, line.len()));
    }
}

#[test]
fn read_the_value_of_a_write() {
    let log = b"SET k1 v1\nRM k1\nSET k2 v2\n";
    assert_eq!(read_value(log, 0).unwrap(), "v1");
    assert_eq!(read_value(log, 16).unwrap(), "v2");
}

#[test]
fn read_the_value_of_a_removal() {
    let log = b"SET k1 v1\nRM k1\nSET k2 v2\n";
    assert_eq!(read_value(log, 10).unwrap_err().kind(), KvsErrorKind::InvalidData);
}

#[test]
fn read_the_value_of_what_is_no_record() {
    assert_eq!(read_value(b"SET k1 v1\n", 1).unwrap_err().kind(), KvsErrorKind::ParsingError);
    assert_eq!(read_value(b"SET k1 v1\n", 10).unwrap_err().kind(), KvsErrorKind::ParsingError);
    assert_eq!(read_value(b"GET k1\n", 0).unwrap_err().kind(), KvsErrorKind::ParsingError);
    assert_eq!(read_value(b"SET k1 v1", 0).unwrap_err().kind(), KvsErrorKind::ParsingError);
    assert_eq!(read_value(b"SET k1 \xfe\n", 0).unwrap_err().kind(), KvsErrorKind::FileError);
}
