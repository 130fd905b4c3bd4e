//! The part classifier: from the headers of a part to the way its content is
//! kept.

use vstd::prelude::*;
use http::header::HeaderMap;
use crate::disposition::{is_file_part, stored_as_file};
use crate::error::{Error, ErrorKind};
use crate::headers::{header_entries, Entries};
use crate::media::{is_container, is_multipart, read_content_type};

verus! {

/// What a part is.
#[derive(Clone, Copy, Debug, PartialEq, Eq, Structural)]
pub enum PartKind {
    /// A container of further parts.
    Container,
    /// A part whose content is kept as a file.
    File,
    /// A part whose content is kept in memory.
    Memory,
}

/// What a part with these headers is.
///
/// A part with a `multipart/*` media type is a container, whatever else its
/// headers say. Any other part is a file or in memory, as [`stored_as_file`]
/// decides.
pub open spec fn part_kind(entries: Entries, always_use_files: bool) -> Result<PartKind, ErrorKind> {
    match is_container(entries) {
        Err(e) => Err(e),
        Ok(true) => Ok(PartKind::Container),
        Ok(false) => match stored_as_file(entries, always_use_files) {
            Err(e) => Err(e),
            Ok(true) => Ok(PartKind::File),
            Ok(false) => Ok(PartKind::Memory),
        },
    }
}

/// Decides what a part with these headers is.
pub fn classify(headers: &HeaderMap, always_use_files: bool) -> (r: Result<PartKind, Error>)
    ensures
        match part_kind(header_entries(*headers), always_use_files) {
            Ok(kind) => r matches Ok(k) && k == kind,
            Err(k) => r matches Err(e) && e.kind() == k,
        },
{
    let nested = match read_content_type(headers) {
        Ok(None) => false,
        Ok(Some(m)) => is_multipart(&m),
        Err(e) => {
            return Err(e);
        },
    };
    if nested {
        return Ok(PartKind::Container);
    }
    match is_file_part(headers, always_use_files) {
        Ok(true) => Ok(PartKind::File),
        Ok(false) => Ok(PartKind::Memory),
        Err(e) => Err(e),
    }
}

} // verus!
