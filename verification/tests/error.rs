use echoip::error::AppError;

#[test]
fn test_bad_request() {
    let err = AppError::bad_request("test error");
    assert_eq!(err.code, 400);
    assert_eq!(err.message, "test error");
    assert!(err.content_type.is_none());
}

#[test]
fn test_not_found() {
    let err = AppError::not_found("not found");
    assert_eq!(err.code, 404);
    assert_eq!(err.message, "not found");
}

#[test]
fn test_internal() {
    let err = AppError::internal("server error");
    assert_eq!(err.code, 500);
    assert_eq!(err.message, "server error");
}

#[test]
fn test_into_json() {
    let err = AppError::bad_request("test").into_json();
    assert_eq!(err.content_type.as_deref(), Some("application/json"));
}

#[test]
fn json_error_keeps_status_and_message() {
    let err = AppError::not_found("404 page not found").into_json();
    assert_eq!(err.code, 404);
    assert_eq!(err.message, "404 page not found");
    assert!(err.is_json());
    assert_eq!(err.content_type_text(), "application/json");
}

#[test]
fn plain_error_is_text() {
    let err = AppError::internal("boom");
    assert!(!err.is_json());
    assert_eq!(err.content_type_text(), "text/plain");
}
