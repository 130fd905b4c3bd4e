//! The `content-disposition` of a part: whether it makes the part a file, and
//! the file name that it gives.

use vstd::prelude::*;
use vstd::string::StrSliceExecFns;
use http::header::{HeaderMap, HeaderValue};
use crate::bytes::{
    ascii_bytes, ascii_text, contains, find, find_bytes, lemma_find_none, skip, text_bytes,
};
use crate::error::{Error, ErrorKind};
use crate::headers::{
    first_value, get_header, header_entries, value_bytes, value_text, visible, Entries,
};
use crate::media::content_disposition_name;

verus! {

/// The word that marks a part as an attachment.
pub open spec fn attachment_word() -> Seq<u8> {
    ascii_bytes("attachment"@)
}

/// The word that a disposition with a file name holds.
pub open spec fn filename_word() -> Seq<u8> {
    ascii_bytes("filename"@)
}

/// What precedes a file name in its plain form.
pub open spec fn plain_marker() -> Seq<u8> {
    ascii_bytes("filename="@)
}

/// What precedes a file name in its extended form.
pub open spec fn extended_marker() -> Seq<u8> {
    ascii_bytes("filename*=UTF-8''"@)
}

/// A text without the double quotes at its beginning.
pub open spec fn strip_front(text: Seq<u8>) -> Seq<u8>
    decreases text.len(),
{
    if text.len() > 0 && text[0] == 34 {
        strip_front(text.subrange(1, text.len() as int))
    } else {
        text
    }
}

/// A text without the double quotes at its end.
pub open spec fn strip_back(text: Seq<u8>) -> Seq<u8>
    decreases text.len(),
{
    if text.len() > 0 && text.last() == 34 {
        strip_back(text.drop_last())
    } else {
        text
    }
}

/// A text without the double quotes at either end.
pub open spec fn unquoted(text: Seq<u8>) -> Seq<u8> {
    strip_back(strip_front(text))
}

/// The file name that a disposition gives: what follows the first
/// `filename=`, or else the first `filename*=UTF-8''`, up to the end of the
/// value and without the double quotes around it.
pub open spec fn named_file(value: Seq<u8>) -> Option<Seq<u8>> {
    match find(value, plain_marker()) {
        Some(i) => Some(unquoted(skip(value, i + plain_marker().len()))),
        None => match find(value, extended_marker()) {
            Some(i) => Some(unquoted(skip(value, i + extended_marker().len()))),
            None => None,
        },
    }
}

/// The file name of a disposition, which has to be text.
pub open spec fn disposition_filename(value: Seq<u8>) -> Result<Option<Seq<u8>>, ErrorKind> {
    if !visible(value) {
        Err(ErrorKind::ToStr)
    } else {
        Ok(named_file(value))
    }
}

/// The file name that the headers of a part give: that of the first
/// `content-disposition`, and none where there is no such header.
pub open spec fn headers_filename(entries: Entries) -> Result<Option<Seq<u8>>, ErrorKind> {
    match first_value(entries, content_disposition_name()) {
        Some(value) => disposition_filename(value),
        None => Ok(None),
    }
}

/// Whether the content of a part with these headers is kept as a file: always
/// where `always_use_files` is set, and else where the first
/// `content-disposition` holds the word `attachment` or the word `filename`.
/// A disposition that is no text fails with `ToStr`.
pub open spec fn stored_as_file(entries: Entries, always_use_files: bool) -> Result<
    bool,
    ErrorKind,
> {
    if always_use_files {
        Ok(true)
    } else {
        match first_value(entries, content_disposition_name()) {
            None => Ok(false),
            Some(value) => if !visible(value) {
                Err(ErrorKind::ToStr)
            } else {
                Ok(contains(value, attachment_word()) || contains(value, filename_word()))
            },
        }
    }
}

/// Decides whether the content of a part with these headers is kept as a
/// file or in memory.
pub fn is_file_part(headers: &HeaderMap, always_use_files: bool) -> (r: Result<bool, Error>)
    ensures
        match stored_as_file(header_entries(*headers), always_use_files) {
            Ok(b) => r matches Ok(x) && x == b,
            Err(k) => r matches Err(e) && e.kind() == k,
        },
{
    if always_use_files {
        return Ok(true);
    }
    proof {
        reveal_strlit("content-disposition");
        reveal_strlit("attachment");
        reveal_strlit("filename");
    }
    match get_header(headers, "content-disposition") {
        None => Ok(false),
        Some(content) => match value_text(content) {
            Err(e) => Err(Error::ToStr(e)),
            Ok(_) => {
                let value = content.as_bytes();
                proof {
                    lemma_find_none(value@, attachment_word());
                    lemma_find_none(value@, filename_word());
                }
                let attachment = find_bytes(value, text_bytes("attachment"));
                let filename = find_bytes(value, text_bytes("filename"));
                Ok(attachment.is_some() || filename.is_some())
            },
        },
    }
}

/// The index behind the double quotes at the beginning of `text[from..]`.
fn skip_quotes(text: &[u8], from: usize) -> (a: usize)
    requires
        from <= text@.len(),
    ensures
        from <= a <= text@.len(),
        skip(text@, a as int) == strip_front(skip(text@, from as int)),
{
    let mut a: usize = from;
    while a < text.len() && text[a] == 34
        invariant
            from <= a <= text@.len(),
            strip_front(skip(text@, a as int)) == strip_front(skip(text@, from as int)),
        decreases text@.len() - a,
    {
        assert(skip(text@, a as int).subrange(1, skip(text@, a as int).len() as int) =~= skip(
            text@,
            a + 1,
        ));
        a = a + 1;
    }
    a
}

/// The index in front of the double quotes at the end of `text[from..]`.
fn drop_quotes(text: &[u8], from: usize) -> (b: usize)
    requires
        from <= text@.len(),
    ensures
        from <= b <= text@.len(),
        text@.subrange(from as int, b as int) == strip_back(skip(text@, from as int)),
{
    let mut b: usize = text.len();
    assert(text@.subrange(from as int, b as int) =~= skip(text@, from as int));
    while b > from && text[b - 1] == 34
        invariant
            from <= b <= text@.len(),
            strip_back(text@.subrange(from as int, b as int)) == strip_back(
                skip(text@, from as int),
            ),
        decreases b,
    {
        assert(text@.subrange(from as int, b as int).drop_last() =~= text@.subrange(
            from as int,
            b - 1,
        ));
        b = b - 1;
    }
    b
}

/// The file name that a `content-disposition` gives.
pub fn get_content_disposition_filename(cd: &HeaderValue) -> (r: Result<Option<String>, Error>)
    ensures
        match disposition_filename(value_bytes(*cd)) {
            Ok(Some(name)) => r matches Ok(Some(s)) && s@ == ascii_text(name),
            Ok(None) => r matches Ok(None),
            Err(k) => r matches Err(e) && e.kind() == k,
        },
{
    let text = match value_text(cd) {
        Ok(text) => text,
        Err(e) => {
            return Err(Error::ToStr(e));
        },
    };
    let value = cd.as_bytes();
    proof {
        reveal_strlit("filename=");
        reveal_strlit("filename*=UTF-8''");
    }
    let plain = text_bytes("filename=");
    let extended = text_bytes("filename*=UTF-8''");
    let start: usize = match find_bytes(value, plain) {
        Some(i) => i + plain.len(),
        None => match find_bytes(value, extended) {
            Some(i) => i + extended.len(),
            None => {
                return Ok(None);
            },
        },
    };
    let a = skip_quotes(value, start);
    let b = drop_quotes(value, a);
    assert(text@.subrange(a as int, b as int) =~= ascii_text(value@.subrange(a as int, b as int)));
    Ok(Some(text.substring_ascii(a, b).to_owned()))
}

} // verus!
