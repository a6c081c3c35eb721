use fshare::errors::AppError;

#[test]
fn error_messages_and_classes() {
    assert_eq!(AppError::InitError("x".to_string()).message(), "init error x");
    assert_eq!(AppError::FileSystemError("y".to_string()).message(), "fs error y");
    assert_eq!(AppError::NotFound.message(), "not found");
    assert!(AppError::SizeLimitExceeded.is_client_error());
    assert!(AppError::EmptyUpload.is_client_error());
    assert!(AppError::NotFound.is_client_error());
    assert!(!AppError::FileSystemError("z".to_string()).is_client_error());
    assert!(!AppError::InitError("z".to_string()).is_client_error());
}
