use btdt::error::{ErrorKind, IoError, IoPathError, IoPathResult, WithPath};

fn failure() -> Result<u8, IoError> {
    Err(IoError::new(ErrorKind::NotFound, "No such file"))
}

#[test]
fn error_keeps_its_kind_and_message() {
    let error = IoError::new(ErrorKind::InvalidData, "bad record");
    assert_eq!(error.kind(), ErrorKind::InvalidData);
    assert_eq!(error.message, "bad record");
}

#[test]
fn error_carries_the_path_that_it_was_given() {
    let error = IoPathError::new(IoError::new(ErrorKind::NotFound, "No such file"), "/a/b");
    assert_eq!(error.path().as_deref(), Some("/a/b"));
    assert_eq!(error.io_error().kind(), ErrorKind::NotFound);
    assert_eq!(error.into_io_error().message, "No such file");

    let error = IoPathError::new_no_path(IoError::new(ErrorKind::Other, "broken"));
    assert!(error.path().is_none());
    assert_eq!(error.io_error().kind(), ErrorKind::Other);
}

#[test]
fn result_gets_a_path_only_where_it_failed() {
    let ok: Result<u8, IoError> = Ok(7);
    assert_eq!(ok.with_path("/a").unwrap(), 7);
    let ok: Result<u8, IoError> = Ok(8);
    assert_eq!(ok.no_path().unwrap(), 8);

    let error = failure().with_path("/a/b").unwrap_err();
    assert_eq!(error.path().as_deref(), Some("/a/b"));
    assert_eq!(error.io_error().kind(), ErrorKind::NotFound);
    assert_eq!(error.io_error().message, "No such file");

    let result: IoPathResult<u8> = failure().no_path();
    let error = result.unwrap_err();
    assert!(error.path().is_none());
    assert_eq!(error.io_error().kind(), ErrorKind::NotFound);
}
