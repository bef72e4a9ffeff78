use file_microservice::{AppError, FileMetadata};

#[test]
fn status_codes_per_variant() {
    assert_eq!(AppError::ValidationError(String::from("bad")).status_code(), 400);
    assert_eq!(AppError::Authentication(String::from("who")).status_code(), 401);
    assert_eq!(AppError::Authorization(String::from("no")).status_code(), 403);
    assert_eq!(AppError::RateLimitExceeded.status_code(), 429);
    assert_eq!(AppError::StorageError(String::from("disk")).status_code(), 500);
}

#[test]
fn messages_per_variant() {
    assert_eq!(AppError::RateLimitExceeded.message(), "Rate limit exceeded");
    assert_eq!(
        AppError::ValidationError(String::from("No file was uploaded")).message(),
        "No file was uploaded"
    );
    assert_eq!(AppError::Authentication(String::from("who")).message(), "who");
    assert_eq!(AppError::Authorization(String::from("no")).message(), "no");
    assert_eq!(AppError::StorageError(String::from("disk")).message(), "disk");
}

#[test]
fn file_metadata_new_keeps_fields() {
    let m = FileMetadata::new(String::from("test.txt"), String::from("text/plain"), 1024);
    assert_eq!(m.name, "test.txt");
    assert_eq!(m.mime_type, "text/plain");
    assert_eq!(m.size, 1024);
}
