//! Validation rules for the file-upload endpoint.
//!
//! The multipart transport itself is unverified I/O; once a field's name,
//! content type and payload size are in hand, the decisions about them are
//! made here: the request must be multipart, the field must carry a
//! filename and a whitelisted content type, and the payload must fit the
//! size ceiling.

use vstd::prelude::*;

use vstd::string::StrSliceExecFns;
use vstd::string::StringExecFns;

use crate::error::AppError;
use crate::models::FileMetadata;

verus! {

/// Size ceiling for uploaded files, in bytes (5 MiB).
pub const MAX_FILE_SIZE: usize = 5242880;

/// `needle` occurs as a contiguous run of characters inside `hay`.
pub open spec fn seq_contains_sub(hay: Seq<char>, needle: Seq<char>) -> bool {
    exists|i: int|
        0 <= i && i + needle.len() <= hay.len() && #[trigger] hay.subrange(i, i + needle.len())
            == needle
}

/// Whether `needle` stands at position `i` of `hay`.
fn match_at(hay: &str, needle: &str, i: usize) -> (b: bool)
    requires
        i + needle@.len() <= hay@.len(),
        hay@.len() <= usize::MAX,
    ensures
        b == (hay@.subrange(i as int, i + needle@.len()) == needle@),
{
    let n = needle.unicode_len();
    let mut j: usize = 0;
    while j < n
        invariant
            n == needle@.len(),
            i + n <= hay@.len(),
            hay@.len() <= usize::MAX,
            j <= n,
            forall|l: int| 0 <= l < j ==> hay@[i + l] == needle@[l],
        decreases n - j,
    {
        let hc = hay.get_char(i + j);
        let nc = needle.get_char(j);
        if hc != nc {
            proof {
                assert(hay@.subrange(i as int, i + needle@.len())[j as int] == hay@[i + j]);
            }
            return false;
        }
        j += 1;
    }
    proof {
        assert(hay@.subrange(i as int, i + needle@.len()) =~= needle@);
    }
    true
}

/// Substring search: does `needle` occur anywhere in `hay`?
pub fn str_contains(hay: &str, needle: &str) -> (b: bool)
    ensures
        b == seq_contains_sub(hay@, needle@),
{
    let h = hay.unicode_len();
    let n = needle.unicode_len();
    if n > h {
        return false;
    }
    if n == 0 {
        proof {
            assert(hay@.subrange(0int, 0int + needle@.len()) =~= needle@);
        }
        return true;
    }
    let mut i: usize = 0;
    while i <= h - n
        invariant
            h == hay@.len(),
            n == needle@.len(),
            1 <= n <= h,
            i <= h - n + 1,
            forall|k: int|
                0 <= k < i ==> #[trigger] hay@.subrange(k, k + needle@.len()) != needle@,
        decreases h - n - i + 1,
    {
        if match_at(hay, needle, i) {
            proof {
                assert(0 <= i as int && i + needle@.len() <= hay@.len() && hay@.subrange(
                    i as int,
                    i + needle@.len(),
                ) == needle@);
            }
            return true;
        }
        i += 1;
    }
    false
}

/// The content types an upload may carry.
pub open spec fn spec_allowed_type(s: Seq<char>) -> bool {
    ||| s == "text/plain"@
    ||| s == "application/json"@
    ||| s == "application/pdf"@
}

/// Membership in the content-type whitelist.
pub fn is_allowed_content_type(ct: &String) -> (b: bool)
    ensures
        b == spec_allowed_type(ct@),
{
    let plain: String = "text/plain".to_owned();
    if *ct == plain {
        return true;
    }
    let json: String = "application/json".to_owned();
    if *ct == json {
        return true;
    }
    let pdf: String = "application/pdf".to_owned();
    if *ct == pdf {
        return true;
    }
    false
}

/// Checks that the request's content-type header announces a multipart
/// form, as the upload endpoint requires.
pub fn check_multipart_header(content_type: &str) -> (r: Result<(), AppError>)
    ensures
        r is Ok <==> seq_contains_sub(content_type@, "multipart/form-data"@),
        r matches Err(e) ==> e matches AppError::ValidationError(m) && m@
            == "Invalid content type, expected multipart/form-data"@,
{
    if str_contains(content_type, "multipart/form-data") {
        Ok(())
    } else {
        Err(
            AppError::ValidationError(
                "Invalid content type, expected multipart/form-data".to_owned(),
            ),
        )
    }
}

/// The view of an optional string.
pub open spec fn opt_view(o: Option<String>) -> Option<Seq<char>> {
    match o {
        Some(s) => Some(s@),
        None => None,
    }
}

/// Whether an upload field with these properties passes every check.
pub open spec fn spec_upload_ok(
    name: Option<Seq<char>>,
    ct: Option<Seq<char>>,
    size: usize,
) -> bool {
    &&& name is Some
    &&& ct is Some
    &&& match ct {
        Some(c) => spec_allowed_type(c),
        None => false,
    }
    &&& size <= MAX_FILE_SIZE
}

/// The message of the first failing check, in the order the checks run:
/// filename present, content type present, content type allowed, size
/// within the ceiling.
pub open spec fn spec_upload_error_msg(
    name: Option<Seq<char>>,
    ct: Option<Seq<char>>,
    size: usize,
) -> Seq<char> {
    match name {
        None => "No filename provided"@,
        Some(_) => match ct {
            None => "No content type provided"@,
            Some(c) => if !spec_allowed_type(c) {
                "Content type '"@ + c + "' not allowed"@
            } else {
                "File size exceeds maximum limit of 5242880 bytes"@
            },
        },
    }
}

/// Validates one multipart field as an upload: the field must carry a
/// filename and an allowed content type, and its payload must fit the
/// size ceiling. On success, returns the metadata echoed to the client.
pub fn validate_upload_field(
    file_name: Option<String>,
    content_type: Option<String>,
    size: usize,
) -> (r: Result<FileMetadata, AppError>)
    ensures
        r is Ok <==> spec_upload_ok(opt_view(file_name), opt_view(content_type), size),
        r matches Ok(m) ==> file_name matches Some(n) && content_type matches Some(c) && m.name
            == n && m.mime_type == c && m.size == size as u64,
        r matches Err(e) ==> e matches AppError::ValidationError(msg) && msg@
            == spec_upload_error_msg(opt_view(file_name), opt_view(content_type), size),
{
    let name = match file_name {
        Some(n) => n,
        None => {
            return Err(AppError::ValidationError("No filename provided".to_owned()));
        },
    };
    let ct = match content_type {
        Some(c) => c,
        None => {
            return Err(AppError::ValidationError("No content type provided".to_owned()));
        },
    };
    if !is_allowed_content_type(&ct) {
        let msg = "Content type '".to_owned().concat(ct.as_str()).concat("' not allowed");
        return Err(AppError::ValidationError(msg));
    }
    if size > MAX_FILE_SIZE {
        return Err(
            AppError::ValidationError(
                "File size exceeds maximum limit of 5242880 bytes".to_owned(),
            ),
        );
    }
    Ok(FileMetadata { name, mime_type: ct, size: size as u64 })
}

} // verus!
