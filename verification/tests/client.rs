use kvs::client::{local_outcome, outcome, request, Output};
use kvs::command::Command;
use kvs::error::{KvsError, KvsErrorKind};
use kvs::protocol::Value;

#[test]
fn request_frames() {
    assert_eq!(request(Command::Get("k".to_owned())), b"!GET k\r\n".to_vec());
    assert_eq!(request(Command::Rm("k".to_owned())), b"!RM k\r\n".to_vec());
    assert_eq!(request(Command::Put("k".to_owned(), "v".to_owned())), b"!SET k v\r\n".to_vec());
}

#[test]
fn a_request_decodes_to_its_command() {
    let frame = request(Command::Put("key".to_owned(), "value".to_owned()));
    assert_eq!(
        Value::decode(&frame).unwrap(),
        Value::Command(Command::Put("key".to_owned(), "value".to_owned()))
    );
}

#[test]
fn a_text_is_shown() {
    assert_eq!(
        outcome(Value::String("v".to_owned()), true).unwrap(),
        Output::Text("v".to_owned())
    );
    assert_eq!(
        outcome(Value::String("v".to_owned()), false).unwrap(),
        Output::Text("v".to_owned())
    );
}

#[test]
fn a_number_is_shown() {
    assert_eq!(outcome(Value::Integer(-3), true).unwrap(), Output::Number(-3));
}

#[test]
fn no_value_after_a_read_is_a_missing_key() {
    assert_eq!(outcome(Value::Nothing, true).unwrap(), Output::KeyNotFound);
}

#[test]
fn no_value_after_a_write_is_silent() {
    assert_eq!(outcome(Value::Nothing, false).unwrap(), Output::Silent);
}

#[test]
fn an_error_reply_is_key_not_found() {
    let err = outcome(Value::Error("KeyNotFound".to_owned()), false).unwrap_err();
    assert_eq!(err.kind(), KvsErrorKind::KeyNotFound);
    let err = outcome(Value::Error("anything".to_owned()), true).unwrap_err();
    assert_eq!(err.kind(), KvsErrorKind::KeyNotFound);
}

#[test]
fn a_command_in_place_of_a_reply_is_unknown() {
    let err = outcome(Value::Command(Command::Get("k".to_owned())), true).unwrap_err();
    assert_eq!(err.kind(), KvsErrorKind::UnknownError);
}

#[test]
fn a_value_of_the_store_is_shown() {
    assert_eq!(
        local_outcome(Ok(Some("v".to_owned())), true).unwrap(),
        Output::Text("v".to_owned())
    );
}

#[test]
fn a_miss_of_the_store_is_a_missing_key() {
    assert_eq!(local_outcome(Ok(None), true).unwrap(), Output::KeyNotFound);
}

#[test]
fn a_write_to_the_store_is_silent() {
    assert_eq!(local_outcome(Ok(None), false).unwrap(), Output::Silent);
}

#[test]
fn a_failure_of_the_store_stays_what_it_is() {
    let err = local_outcome(Err(KvsError::new(KvsErrorKind::KeyNotFound)), false).unwrap_err();
    assert_eq!(err.kind(), KvsErrorKind::KeyNotFound);
    let err = local_outcome(Err(KvsError::new(KvsErrorKind::FileError)), true).unwrap_err();
    assert_eq!(err.kind(), KvsErrorKind::FileError);
}
