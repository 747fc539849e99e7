use kvs::command::Command;
use kvs::error::KvsErrorKind;

fn get(key: &str) -> Command {
    Command::Get(key.to_owned())
}

fn rm(key: &str) -> Command {
    Command::Rm(key.to_owned())
}

fn put(key: &str, value: &str) -> Command {
    Command::Put(key.to_owned(), value.to_owned())
}

#[test]
fn text_of_get() {
    assert_eq!(get("k1").to_string(), "GET k1");
}

#[test]
fn text_of_rm() {
    assert_eq!(rm("k1").to_string(), "RM k1");
}

#[test]
fn text_of_set() {
    assert_eq!(put("k1", "v1").to_string(), "SET k1 v1");
}

#[test]
fn parse_get() {
    assert_eq!(Command::from_str("GET k1").unwrap(), get("k1"));
}

#[test]
fn parse_rm() {
    assert_eq!(Command::from_str("RM k1").unwrap(), rm("k1"));
}

#[test]
fn parse_set() {
    assert_eq!(Command::from_str("SET k1 v1").unwrap(), put("k1", "v1"));
}

#[test]
fn parse_through_the_trait() {
    let parsed: Command = "SET a b".parse().unwrap();
    assert_eq!(parsed, put("a", "b"));
}

#[test]
fn parse_skips_surrounding_whitespace() {
    assert_eq!(Command::from_str("  \t SET \n k1 \r\n  v1  ").unwrap(), put("k1", "v1"));
}

#[test]
fn parse_ignores_further_words() {
    assert_eq!(Command::from_str("GET k1 k2 k3").unwrap(), get("k1"));
    assert_eq!(Command::from_str("SET k1 v1 v2").unwrap(), put("k1", "v1"));
    assert_eq!(Command::from_str("RM k1 k2").unwrap(), rm("k1"));
}

#[test]
fn parse_splits_at_unicode_whitespace() {
    assert_eq!(Command::from_str("GET\u{a0}k1").unwrap(), get("k1"));
    assert_eq!(Command::from_str("SET\u{3000}k\u{2003}v").unwrap(), put("k", "v"));
    assert_eq!(Command::from_str("RM\u{85}k\u{2028}").unwrap(), rm("k"));
}

#[test]
fn parse_keeps_characters_that_are_no_whitespace() {
    assert_eq!(Command::from_str("GET k\u{200b}x").unwrap(), get("k\u{200b}x"));
    assert_eq!(Command::from_str("SET clé värde").unwrap(), put("clé", "värde"));
}

#[test]
fn parse_rejects_unknown_operation() {
    let err = Command::from_str("PUT k1 v1").unwrap_err();
    assert_eq!(err.kind(), KvsErrorKind::InvalidCommand);
}

#[test]
fn parse_is_case_sensitive() {
    assert_eq!(Command::from_str("get k1").unwrap_err().kind(), KvsErrorKind::InvalidCommand);
}

#[test]
fn parse_rejects_empty_text() {
    assert_eq!(Command::from_str("").unwrap_err().kind(), KvsErrorKind::InvalidCommand);
    assert_eq!(Command::from_str("   ").unwrap_err().kind(), KvsErrorKind::InvalidCommand);
}

#[test]
fn parse_rejects_missing_arguments() {
    assert_eq!(Command::from_str("GET").unwrap_err().kind(), KvsErrorKind::InvalidCommand);
    assert_eq!(Command::from_str("RM ").unwrap_err().kind(), KvsErrorKind::InvalidCommand);
    assert_eq!(Command::from_str("SET k1").unwrap_err().kind(), KvsErrorKind::InvalidCommand);
}

#[test]
fn text_round_trip() {
    let cases = vec![
        get("key"),
        rm("key"),
        put("key", "value"),
        put("!#$%&'()*+,-./:;<=>?@[]^_`{|}~", "0123456789"),
        put("ABCDEFGHIJKLMNOPQRSTUVWXYZ", "abcdefghijklmnopqrstuvwxyz"),
        get("\"quoted\""),
    ];
    for command in cases {
        let text = command.to_string();
        assert_eq!(Command::from_str(&text).unwrap(), command);
    }
}

#[test]
fn text_with_whitespace_in_key_does_not_round_trip() {
    let text = put("a b", "c").to_string();
    assert_eq!(text, "SET a b c");
    assert_eq!(Command::from_str(&text).unwrap(), put("a", "b"));
}
