use kvs::error::{Error, ErrorKind, KvsError, KvsErrorKind};

#[test]
fn an_error_has_its_kind() {
    assert_eq!(KvsError::new(KvsErrorKind::FileError).kind(), KvsErrorKind::FileError);
    assert_eq!(KvsError::from(KvsErrorKind::KeyNotFound).kind(), KvsErrorKind::KeyNotFound);
    assert_eq!(Error::from(ErrorKind::DataTooShort(2)).kind(), ErrorKind::DataTooShort(2));
    let error: KvsError = KvsErrorKind::InvalidPrefix(7).into();
    assert_eq!(error.kind(), KvsErrorKind::InvalidPrefix(7));
}

#[test]
fn kinds_with_different_payloads_differ() {
    assert_ne!(KvsErrorKind::DataTooShort(1), KvsErrorKind::DataTooShort(2));
    assert_ne!(KvsErrorKind::InvalidPrefix(1), KvsErrorKind::InvalidPrefix(2));
    assert_ne!(KvsErrorKind::InvalidData, KvsErrorKind::InvalidCommand);
}

#[test]
fn messages() {
    let expected = [
        (KvsErrorKind::ConnectionError, "ConnectionError"),
        (KvsErrorKind::DataTooShort(2), "Data too short"),
        (KvsErrorKind::InvalidCommand, "Invalid Command."),
        (KvsErrorKind::InvalidData, "Invalid Data."),
        (KvsErrorKind::InvalidEngine, "Invalid Engine."),
        (KvsErrorKind::InvalidPrefix(64), "Invalid prefix"),
        (KvsErrorKind::KeyNotFound, "Key not found"),
        (KvsErrorKind::FileError, "Error with log file"),
        (KvsErrorKind::ParsingError, "Error parsing"),
        (KvsErrorKind::SledError, "Error from sled crate"),
        (KvsErrorKind::UncompatibleEngine, "Uncompatible Engine"),
        (KvsErrorKind::UnknownError, "An unknown error has occurred."),
    ];
    for (kind, text) in expected {
        assert_eq!(kind.message(), text);
        assert_eq!(KvsError::new(kind).message(), text);
    }
}
