//! Metadata reported back to the client after a successful upload.

use vstd::prelude::*;

verus! {

#[derive(Debug)]
pub struct FileMetadata {
    pub name: String,
    pub mime_type: String,
    pub size: u64,
}

impl FileMetadata {
    pub fn new(name: String, mime_type: String, size: u64) -> (m: FileMetadata)
        ensures
            m.name == name,
            m.mime_type == mime_type,
            m.size == size,
    {
        FileMetadata { name, mime_type, size }
    }
}

} // verus!
