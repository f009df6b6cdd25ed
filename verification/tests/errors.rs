use ferrum::error::{ErrorKind, FerrumError};

fn b(s: &str) -> Vec<u8> {
    s.as_bytes().to_vec()
}

#[test]
fn description_is_derived_from_the_kind() {
    let e = FerrumError::from_error(ErrorKind::DecodingError(b("f.md")), "d");
    assert_eq!(e.description(), "Error decoding file");
    let e = FerrumError::from_error(ErrorKind::IoError(b("boom")), "d");
    assert_eq!(e.description(), "Encountered an I/O error");
    let e = FerrumError::from_error(ErrorKind::InvalidConfigError, "d");
    assert_eq!(e.description(), "Invalid configuration file");
    let e = FerrumError::from_error(ErrorKind::MissingTemplateError(b("t")), "d");
    assert_eq!(e.description(), "Template not found");
    let e = FerrumError::from_error(ErrorKind::DuplicateKeyError(b("k")), "d");
    assert_eq!(e.description(), "Duplicate output key");
}

#[test]
fn detail_names_the_undecodable_file() {
    let e = FerrumError::from_error(ErrorKind::DecodingError(b("bad.md")), "d");
    assert_eq!(e.detail(), Some(b("Filename was bad.md")));
    let e = FerrumError::from_error(ErrorKind::InvalidConfigError, "d");
    assert_eq!(e.detail(), None);
    let e = FerrumError::from_error(ErrorKind::IoError(b("boom")), "d");
    assert_eq!(e.detail(), None);
}

#[test]
fn cause_carries_the_underlying_io_message() {
    let e = FerrumError::from_error(ErrorKind::IoError(b("permission denied")), "d");
    assert_eq!(e.cause(), Some(b("permission denied")));
    let e = FerrumError::from_error(ErrorKind::DecodingError(b("f")), "d");
    assert_eq!(e.cause(), None);
}

#[test]
fn from_error_builds_the_error_without_detail() {
    let e = FerrumError::from_error(ErrorKind::InvalidConfigError, "bad config");
    assert_eq!(e.kind, ErrorKind::InvalidConfigError);
    assert_eq!(e.desc, "bad config");
    assert!(e.detail.is_none());
}
