use file_microservice::upload::{
    check_multipart_header, is_allowed_content_type, str_contains, validate_upload_field,
    MAX_FILE_SIZE,
};
use file_microservice::AppError;

#[test]
fn valid_upload_field_passes() {
    let r = validate_upload_field(
        Some(String::from("test.txt")),
        Some(String::from("text/plain")),
        12,
    );
    let m = r.expect("a valid field must pass");
    assert_eq!(m.name, "test.txt");
    assert_eq!(m.mime_type, "text/plain");
    assert_eq!(m.size, 12);
}

#[test]
fn missing_filename_is_rejected() {
    let r = validate_upload_field(None, Some(String::from("text/plain")), 12);
    match r {
        Err(AppError::ValidationError(msg)) => {
            assert_eq!(msg, "No filename provided");
        }
        _ => panic!("expected a validation error"),
    }
}

#[test]
fn missing_content_type_is_rejected() {
    let r = validate_upload_field(Some(String::from("test.txt")), None, 12);
    match r {
        Err(AppError::ValidationError(msg)) => {
            assert_eq!(msg, "No content type provided");
        }
        _ => panic!("expected a validation error"),
    }
}

#[test]
fn disallowed_content_type_is_rejected() {
    let r = validate_upload_field(
        Some(String::from("test.exe")),
        Some(String::from("application/x-msdownload")),
        12,
    );
    match r {
        Err(AppError::ValidationError(msg)) => {
            assert_eq!(msg, "Content type 'application/x-msdownload' not allowed");
        }
        _ => panic!("expected a validation error"),
    }
}

#[test]
fn oversized_upload_is_rejected() {
    let r = validate_upload_field(
        Some(String::from("large.txt")),
        Some(String::from("text/plain")),
        MAX_FILE_SIZE + 1,
    );
    match r {
        Err(AppError::ValidationError(msg)) => {
            assert_eq!(msg, "File size exceeds maximum limit of 5242880 bytes");
        }
        _ => panic!("expected a validation error"),
    }
}

#[test]
fn upload_at_exact_ceiling_passes() {
    let r = validate_upload_field(
        Some(String::from("large.txt")),
        Some(String::from("text/plain")),
        MAX_FILE_SIZE,
    );
    assert!(r.is_ok());
}

#[test]
fn content_type_whitelist() {
    assert!(is_allowed_content_type(&String::from("text/plain")));
    assert!(is_allowed_content_type(&String::from("application/json")));
    assert!(is_allowed_content_type(&String::from("application/pdf")));
    assert!(!is_allowed_content_type(&String::from("text/html")));
    assert!(!is_allowed_content_type(&String::from("text/plain ")));
    assert!(!is_allowed_content_type(&String::from("")));
}

#[test]
fn multipart_header_check() {
    assert!(check_multipart_header("multipart/form-data; boundary=test_boundary").is_ok());
    assert!(check_multipart_header("multipart/form-data").is_ok());
    match check_multipart_header("application/json") {
        Err(AppError::ValidationError(msg)) => {
            assert_eq!(msg, "Invalid content type, expected multipart/form-data");
        }
        _ => panic!("expected a validation error"),
    }
}

#[test]
fn substring_search() {
    assert!(str_contains("multipart/form-data; boundary=x", "multipart/form-data"));
    assert!(str_contains("abc", ""));
    assert!(str_contains("", ""));
    assert!(str_contains("abc", "abc"));
    assert!(str_contains("aabch", "abc"));
    assert!(!str_contains("", "a"));
    assert!(!str_contains("abd", "abc"));
    assert!(!str_contains("ab", "abc"));
    assert!(!str_contains("form-datamultipart/", "multipart/form-data"));
}
