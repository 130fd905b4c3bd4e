//! The `content-type` of a set of headers, and the boundary that it declares.

use vstd::prelude::*;
use http::header::HeaderMap;
use mime::Mime;
use crate::bytes::{ascii_bytes, ascii_text, same_bytes, text_bytes};
use crate::error::{Error, ErrorKind};
use crate::headers::{first_value, get_header, header_entries, value_text, visible, Entries};

verus! {

/// `mime::Mime`, a parsed media type. Its fields are private: its top-level
/// type is [`mime_type`], its `boundary` parameter [`mime_boundary`].
#[verifier::external_type_specification]
#[verifier::external_body]
pub struct ExMime(Mime);

/// What `Mime::from_str` makes of a text: the media type, or `None` where the
/// text is none.
pub uninterp spec fn parsed_mime(text: Seq<char>) -> Option<Mime>;

/// The top-level type of a media type, as `Mime::type_` names it.
pub uninterp spec fn mime_type(m: Mime) -> Seq<u8>;

/// The value of the `boundary` parameter of a media type, as
/// `Mime::get_param` returns it.
pub uninterp spec fn mime_boundary(m: Mime) -> Option<Seq<u8>>;

/// `Mime::from_str`: the text parsed as a media type.
#[verifier::external_body]
pub(crate) fn parse_mime(text: &str) -> (r: Option<Mime>)
    ensures
        r == parsed_mime(text@),
{
    text.parse::<Mime>().ok()
}

/// `Mime::type_`: the name of the top-level type, copied out as bytes.
#[verifier::external_body]
pub(crate) fn top_level(m: &Mime) -> (r: Vec<u8>)
    ensures
        r@ == mime_type(*m),
{
    m.type_().as_str().as_bytes().to_vec()
}

/// `Mime::get_param` for the name `boundary`: the parameter's value, copied
/// out as bytes.
#[verifier::external_body]
pub(crate) fn boundary_param(m: &Mime) -> (r: Option<Vec<u8>>)
    ensures
        match r {
            Some(b) => mime_boundary(*m) == Some(b@),
            None => mime_boundary(*m) is None,
        },
{
    m.get_param(mime::BOUNDARY).map(|v| v.as_str().as_bytes().to_vec())
}

/// The name of the header that declares a media type.
pub open spec fn content_type_name() -> Seq<u8> {
    ascii_bytes("content-type"@)
}

/// The name of the header that says how a part is to be disposed of.
pub open spec fn content_disposition_name() -> Seq<u8> {
    ascii_bytes("content-disposition"@)
}

/// The top-level type of a container of parts.
pub open spec fn multipart_name() -> Seq<u8> {
    ascii_bytes("multipart"@)
}

/// The two hyphens that precede a boundary on the wire.
pub open spec fn dashes() -> Seq<u8> {
    seq![45u8, 45u8]
}

/// The media type that the headers declare: that of the first `content-type`
/// header. `Ok(None)` where there is no such header; `ToStr` where its value
/// is no text; `HeaderValueNotMime` where the text is no media type.
pub open spec fn declared_type(entries: Entries) -> Result<Option<Mime>, ErrorKind> {
    match first_value(entries, content_type_name()) {
        None => Ok(None),
        Some(v) => if !visible(v) {
            Err(ErrorKind::ToStr)
        } else {
            match parsed_mime(ascii_text(v)) {
                None => Err(ErrorKind::HeaderValueNotMime),
                Some(m) => Ok(Some(m)),
            }
        },
    }
}

/// The boundary that the headers of a container declare: the `boundary`
/// parameter of its `multipart/*` media type, as it stands in the header.
pub open spec fn boundary_parameter(entries: Entries) -> Result<Seq<u8>, ErrorKind> {
    match declared_type(entries) {
        Err(e) => Err(e),
        Ok(None) => Err(ErrorKind::NoRequestContentType),
        Ok(Some(m)) => if mime_type(m) != multipart_name() {
            Err(ErrorKind::NotMultipart)
        } else {
            match mime_boundary(m) {
                None => Err(ErrorKind::BoundaryNotSpecified),
                Some(b) => Ok(b),
            }
        },
    }
}

/// The boundary token of a container with these headers, as it stands on
/// the wire: two hyphens and the boundary that the headers declare.
pub open spec fn multipart_boundary(entries: Entries) -> Result<Seq<u8>, ErrorKind> {
    match boundary_parameter(entries) {
        Err(e) => Err(e),
        Ok(b) => Ok(dashes() + b),
    }
}

/// Whether a part with these headers is itself a container of parts.
pub open spec fn is_container(entries: Entries) -> Result<bool, ErrorKind> {
    match declared_type(entries) {
        Err(e) => Err(e),
        Ok(None) => Ok(false),
        Ok(Some(m)) => Ok(mime_type(m) == multipart_name()),
    }
}

/// The media type for a caller who can do without: `None` on any failure.
pub open spec fn lenient_type(entries: Entries) -> Option<Mime> {
    match declared_type(entries) {
        Ok(Some(m)) => Some(m),
        _ => None,
    }
}

/// Reads the media type that the headers declare.
pub fn read_content_type(headers: &HeaderMap) -> (r: Result<Option<Mime>, Error>)
    ensures
        match declared_type(header_entries(*headers)) {
            Ok(m) => r == Ok::<Option<Mime>, Error>(m),
            Err(k) => r matches Err(e) && e.kind() == k,
        },
{
    proof {
        reveal_strlit("content-type");
    }
    match get_header(headers, "content-type") {
        None => Ok(None),
        Some(value) => match value_text(value) {
            Err(e) => Err(Error::ToStr(e)),
            Ok(text) => match parse_mime(text) {
                None => Err(Error::HeaderValueNotMime),
                Some(m) => Ok(Some(m)),
            },
        },
    }
}

/// Tells whether the top-level type of a media type is `multipart`.
pub fn is_multipart(m: &Mime) -> (r: bool)
    ensures
        r == (mime_type(*m) == multipart_name()),
{
    proof {
        reveal_strlit("multipart");
    }
    let top = top_level(m);
    same_bytes(top.as_slice(), text_bytes("multipart"))
}

/// Get the boundary that the headers of a `multipart/*` body declare: the
/// `boundary` parameter of the `content-type`, without the hyphens that
/// precede it on the wire.
pub fn get_boundary_parameter(headers: &HeaderMap) -> (r: Result<Vec<u8>, Error>)
    ensures
        match boundary_parameter(header_entries(*headers)) {
            Ok(b) => r matches Ok(v) && v@ == b,
            Err(k) => r matches Err(e) && e.kind() == k,
        },
{
    let mime = match read_content_type(headers) {
        Err(e) => {
            return Err(e);
        },
        Ok(None) => {
            return Err(Error::NoRequestContentType);
        },
        Ok(Some(m)) => m,
    };
    if !is_multipart(&mime) {
        return Err(Error::NotMultipart);
    }
    match boundary_param(&mime) {
        None => Err(Error::BoundaryNotSpecified),
        Some(content) => Ok(content),
    }
}

/// Get the boundary token of a `multipart/*` body from its headers: two
/// hyphens followed by the `boundary` parameter of the `content-type`.
pub fn get_multipart_boundary(headers: &HeaderMap) -> (r: Result<Vec<u8>, Error>)
    ensures
        match multipart_boundary(header_entries(*headers)) {
            Ok(b) => r matches Ok(v) && v@ == b,
            Err(k) => r matches Err(e) && e.kind() == k,
        },
{
    match get_boundary_parameter(headers) {
        Err(e) => Err(e),
        Ok(content) => {
            let mut boundary: Vec<u8> = Vec::new();
            boundary.push(45u8);
            boundary.push(45u8);
            boundary.extend_from_slice(content.as_slice());
            assert(boundary@ =~= dashes() + content@);
            Ok(boundary)
        },
    }
}

} // verus!
