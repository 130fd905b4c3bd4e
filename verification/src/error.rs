//! The ways in which decoding or encoding a multipart body fails.

use vstd::prelude::*;
use vstd::string::StringExecFns;
use http::header::ToStrError;
use http::Error as HttpError;
use httparse::Error as HttparseError;
use std::io::Error as IoError;
use std::string::FromUtf8Error;

verus! {

/// `http::header::ToStrError`: a header value holds a byte that is no visible
/// ASCII. Nothing is known of a value of this type.
#[verifier::external_type_specification]
#[verifier::external_body]
pub struct ExToStrError(ToStrError);

/// `httparse::Error`: the header tokenizer met a byte it does not accept.
/// Nothing is known of a value of this type.
#[verifier::external_type_specification]
#[verifier::external_body]
pub struct ExHttparseError(HttparseError);

/// `std::io::Error`. Nothing is known of a value of this type.
#[verifier::external_type_specification]
#[verifier::external_body]
pub struct ExIoError(IoError);

/// `http::Error`. Nothing is known of a value of this type.
#[verifier::external_type_specification]
#[verifier::external_body]
pub struct ExHttpError(HttpError);

/// `std::string::FromUtf8Error`. Nothing is known of a value of this type.
#[verifier::external_type_specification]
#[verifier::external_body]
pub struct ExFromUtf8Error(FromUtf8Error);

/// A failure to decode or encode a multipart body.
#[derive(Debug)]
pub enum Error {
    /// The headers hold no `content-type`.
    NoRequestContentType,
    /// The top-level type of the `content-type` is not `multipart`.
    NotMultipart,
    /// The `content-type` has no `boundary` parameter.
    BoundaryNotSpecified,
    /// A block of headers is incomplete.
    PartialHeaders,
    /// The input ended inside the leading block of headers.
    EofInMainHeaders,
    /// The input ended before the first boundary.
    EofBeforeFirstBoundary,
    /// No line terminator follows a boundary.
    NoCrLfAfterBoundary,
    /// The input ended inside the headers of a part.
    EofInPartHeaders,
    /// The input ended inside the content of a file part.
    EofInFile,
    /// The input ended inside the content of a part kept in memory.
    EofInPart,
    /// A header that was asked for is missing.
    HeaderMissing,
    /// A header name or value holds a byte that headers do not admit.
    InvalidHeaderNameOrValue,
    /// A `content-type` value is no media type.
    HeaderValueNotMime,
    /// A file name in an encoding other than ASCII.
    FilenameWithNonAsciiEncodingNotSupported,
    /// A header value that had to be read as text is no visible ASCII.
    ToStr(ToStrError),
    /// The header tokenizer rejected a block of headers.
    Httparse(HttparseError),
    /// Reading or writing failed.
    Io(IoError),
    /// An error of the HTTP types.
    Http(HttpError),
    /// Bytes that had to be a string are no UTF-8.
    Utf8(FromUtf8Error),
}

/// Which failure an [`Error`] is, without what it carries.
#[derive(Clone, Copy, Debug, PartialEq, Eq, Structural)]
pub enum ErrorKind {
    NoRequestContentType,
    NotMultipart,
    BoundaryNotSpecified,
    PartialHeaders,
    EofInMainHeaders,
    EofBeforeFirstBoundary,
    NoCrLfAfterBoundary,
    EofInPartHeaders,
    EofInFile,
    EofInPart,
    HeaderMissing,
    InvalidHeaderNameOrValue,
    HeaderValueNotMime,
    FilenameWithNonAsciiEncodingNotSupported,
    ToStr,
    Httparse,
    Io,
    Http,
    Utf8,
}

impl ErrorKind {
    /// Whether the failure is one that comes of an input that ends too
    /// early, so that more input may mend it.
    pub open spec fn spec_is_end_of_input(self) -> bool {
        self == ErrorKind::EofInMainHeaders || self == ErrorKind::EofBeforeFirstBoundary || self
            == ErrorKind::NoCrLfAfterBoundary || self == ErrorKind::EofInPartHeaders || self
            == ErrorKind::EofInFile || self == ErrorKind::EofInPart
    }

    /// Whether the failure is one that comes of an input that ends too
    /// early, so that more input may mend it.
    #[verifier::when_used_as_spec(spec_is_end_of_input)]
    pub fn is_end_of_input(self) -> (r: bool)
        ensures
            r == self.spec_is_end_of_input(),
    {
        match self {
            ErrorKind::EofInMainHeaders
            | ErrorKind::EofBeforeFirstBoundary
            | ErrorKind::NoCrLfAfterBoundary
            | ErrorKind::EofInPartHeaders
            | ErrorKind::EofInFile
            | ErrorKind::EofInPart => true,
            _ => false,
        }
    }

    /// Whether an error of this kind carries the error of another library.
    pub open spec fn carries(self) -> bool {
        self == ErrorKind::ToStr || self == ErrorKind::Httparse || self == ErrorKind::Io || self
            == ErrorKind::Http || self == ErrorKind::Utf8
    }

    /// The name of the failure.
    pub open spec fn name(self) -> Seq<char> {
        match self {
            ErrorKind::NoRequestContentType => "NoRequestContentType"@,
            ErrorKind::NotMultipart => "NotMultipart"@,
            ErrorKind::BoundaryNotSpecified => "BoundaryNotSpecified"@,
            ErrorKind::PartialHeaders => "PartialHeaders"@,
            ErrorKind::EofInMainHeaders => "EofInMainHeaders"@,
            ErrorKind::EofBeforeFirstBoundary => "EofBeforeFirstBoundary"@,
            ErrorKind::NoCrLfAfterBoundary => "NoCrLfAfterBoundary"@,
            ErrorKind::EofInPartHeaders => "EofInPartHeaders"@,
            ErrorKind::EofInFile => "EofInFile"@,
            ErrorKind::EofInPart => "EofInPart"@,
            ErrorKind::HeaderMissing => "HeaderMissing"@,
            ErrorKind::InvalidHeaderNameOrValue => "InvalidHeaderNameOrValue"@,
            ErrorKind::HeaderValueNotMime => "HeaderValueNotMime"@,
            ErrorKind::FilenameWithNonAsciiEncodingNotSupported => "NonAsciiFilenameNotSupported"@,
            ErrorKind::ToStr => "ToStr: "@,
            ErrorKind::Httparse => "Httparse: "@,
            ErrorKind::Io => "Io: "@,
            ErrorKind::Http => "Http: "@,
            ErrorKind::Utf8 => "Utf8: "@,
        }
    }

    /// What the failure means, in a sentence.
    pub open spec fn description(self) -> Seq<char> {
        match self {
            ErrorKind::NoRequestContentType => "The Hyper request did not have a Content-Type header."@,
            ErrorKind::NotMultipart => "The Hyper request Content-Type top-level Mime was not multipart."@,
            ErrorKind::BoundaryNotSpecified => "The Content-Type header failed to specify a boundary token."@,
            ErrorKind::PartialHeaders => "A multipart section contained only partial headers."@,
            ErrorKind::EofInMainHeaders => "The request headers ended pre-maturely."@,
            ErrorKind::EofBeforeFirstBoundary => "The request body ended prior to reaching the expected starting boundary."@,
            ErrorKind::NoCrLfAfterBoundary => "Missing CRLF after boundary."@,
            ErrorKind::EofInPartHeaders => "The request body ended prematurely while parsing headers of a multipart part."@,
            ErrorKind::EofInFile => "The request body ended prematurely while streaming a file part."@,
            ErrorKind::EofInPart => "The request body ended prematurely while reading a multipart part."@,
            ErrorKind::HeaderMissing => "The requested header could not be found in the HeaderMap"@,
            ErrorKind::InvalidHeaderNameOrValue => "Parsing to HeaderName or HeaderValue failed"@,
            ErrorKind::HeaderValueNotMime => "HeaderValue could not be parsed to Mime"@,
            ErrorKind::FilenameWithNonAsciiEncodingNotSupported => "Non-ASCII filename parsing not supported"@,
            ErrorKind::ToStr => "A ToStr error occurred."@,
            ErrorKind::Httparse => "A parse error occurred while parsing the headers of a multipart section."@,
            ErrorKind::Io => "An I/O error occurred."@,
            ErrorKind::Http => "A Http error occurred."@,
            ErrorKind::Utf8 => "A UTF-8 error occurred."@,
        }
    }
}

/// `Debug` of `httparse::Error`: the name of the tokenizer's error.
#[verifier::external_body]
fn tokenizer_error_text(e: &HttparseError) -> (r: String) {
    format!("{:?}", e)
}

impl Error {
    /// What the failure means, in a sentence.
    pub fn description(&self) -> (r: &'static str)
        ensures
            r@ == self.kind().description(),
    {
        match self {
            Error::NoRequestContentType => "The Hyper request did not have a Content-Type header.",
            Error::NotMultipart => "The Hyper request Content-Type top-level Mime was not multipart.",
            Error::BoundaryNotSpecified => "The Content-Type header failed to specify a boundary token.",
            Error::PartialHeaders => "A multipart section contained only partial headers.",
            Error::EofInMainHeaders => "The request headers ended pre-maturely.",
            Error::EofBeforeFirstBoundary => "The request body ended prior to reaching the expected starting boundary.",
            Error::NoCrLfAfterBoundary => "Missing CRLF after boundary.",
            Error::EofInPartHeaders => "The request body ended prematurely while parsing headers of a multipart part.",
            Error::EofInFile => "The request body ended prematurely while streaming a file part.",
            Error::EofInPart => "The request body ended prematurely while reading a multipart part.",
            Error::HeaderMissing => "The requested header could not be found in the HeaderMap",
            Error::InvalidHeaderNameOrValue => "Parsing to HeaderName or HeaderValue failed",
            Error::HeaderValueNotMime => "HeaderValue could not be parsed to Mime",
            Error::FilenameWithNonAsciiEncodingNotSupported => "Non-ASCII filename parsing not supported",
            Error::ToStr(_) => "A ToStr error occurred.",
            Error::Httparse(_) => "A parse error occurred while parsing the headers of a multipart section.",
            Error::Io(_) => "An I/O error occurred.",
            Error::Http(_) => "A Http error occurred.",
            Error::Utf8(_) => "A UTF-8 error occurred.",
        }
    }

    /// The failure as a line of text: its name, and behind it what the error
    /// that it carries says of itself.
    pub fn to_text(&self) -> (r: String)
        ensures
            r@.len() >= self.kind().name().len(),
            r@.subrange(0, self.kind().name().len() as int) == self.kind().name(),
            self.kind().carries() || r@ == self.kind().name(),
    {
        let mut r = String::from_str(self.name());
        let ghost name = r@;
        match self {
            Error::ToStr(e) => {
                r.append(e.to_string().as_str());
            },
            Error::Httparse(e) => {
                r.append(tokenizer_error_text(e).as_str());
            },
            Error::Io(e) => {
                r.append(e.to_string().as_str());
            },
            Error::Http(e) => {
                r.append(e.to_string().as_str());
            },
            Error::Utf8(e) => {
                r.append(e.to_string().as_str());
            },
            _ => {},
        }
        assert(r@.subrange(0, name.len() as int) =~= name);
        r
    }

    /// The name of the failure.
    pub fn name(&self) -> (r: &'static str)
        ensures
            r@ == self.kind().name(),
    {
        match self {
            Error::NoRequestContentType => "NoRequestContentType",
            Error::NotMultipart => "NotMultipart",
            Error::BoundaryNotSpecified => "BoundaryNotSpecified",
            Error::PartialHeaders => "PartialHeaders",
            Error::EofInMainHeaders => "EofInMainHeaders",
            Error::EofBeforeFirstBoundary => "EofBeforeFirstBoundary",
            Error::NoCrLfAfterBoundary => "NoCrLfAfterBoundary",
            Error::EofInPartHeaders => "EofInPartHeaders",
            Error::EofInFile => "EofInFile",
            Error::EofInPart => "EofInPart",
            Error::HeaderMissing => "HeaderMissing",
            Error::InvalidHeaderNameOrValue => "InvalidHeaderNameOrValue",
            Error::HeaderValueNotMime => "HeaderValueNotMime",
            Error::FilenameWithNonAsciiEncodingNotSupported => "NonAsciiFilenameNotSupported",
            Error::ToStr(_) => "ToStr: ",
            Error::Httparse(_) => "Httparse: ",
            Error::Io(_) => "Io: ",
            Error::Http(_) => "Http: ",
            Error::Utf8(_) => "Utf8: ",
        }
    }

    /// Which failure this is.
    pub open spec fn spec_kind(&self) -> ErrorKind {
        match self {
            Error::NoRequestContentType => ErrorKind::NoRequestContentType,
            Error::NotMultipart => ErrorKind::NotMultipart,
            Error::BoundaryNotSpecified => ErrorKind::BoundaryNotSpecified,
            Error::PartialHeaders => ErrorKind::PartialHeaders,
            Error::EofInMainHeaders => ErrorKind::EofInMainHeaders,
            Error::EofBeforeFirstBoundary => ErrorKind::EofBeforeFirstBoundary,
            Error::NoCrLfAfterBoundary => ErrorKind::NoCrLfAfterBoundary,
            Error::EofInPartHeaders => ErrorKind::EofInPartHeaders,
            Error::EofInFile => ErrorKind::EofInFile,
            Error::EofInPart => ErrorKind::EofInPart,
            Error::HeaderMissing => ErrorKind::HeaderMissing,
            Error::InvalidHeaderNameOrValue => ErrorKind::InvalidHeaderNameOrValue,
            Error::HeaderValueNotMime => ErrorKind::HeaderValueNotMime,
            Error::FilenameWithNonAsciiEncodingNotSupported => {
                ErrorKind::FilenameWithNonAsciiEncodingNotSupported
            },
            Error::ToStr(_) => ErrorKind::ToStr,
            Error::Httparse(_) => ErrorKind::Httparse,
            Error::Io(_) => ErrorKind::Io,
            Error::Http(_) => ErrorKind::Http,
            Error::Utf8(_) => ErrorKind::Utf8,
        }
    }

    /// Which failure this is.
    #[verifier::when_used_as_spec(spec_kind)]
    pub fn kind(&self) -> (k: ErrorKind)
        ensures
            k == self.spec_kind(),
    {
        match self {
            Error::NoRequestContentType => ErrorKind::NoRequestContentType,
            Error::NotMultipart => ErrorKind::NotMultipart,
            Error::BoundaryNotSpecified => ErrorKind::BoundaryNotSpecified,
            Error::PartialHeaders => ErrorKind::PartialHeaders,
            Error::EofInMainHeaders => ErrorKind::EofInMainHeaders,
            Error::EofBeforeFirstBoundary => ErrorKind::EofBeforeFirstBoundary,
            Error::NoCrLfAfterBoundary => ErrorKind::NoCrLfAfterBoundary,
            Error::EofInPartHeaders => ErrorKind::EofInPartHeaders,
            Error::EofInFile => ErrorKind::EofInFile,
            Error::EofInPart => ErrorKind::EofInPart,
            Error::HeaderMissing => ErrorKind::HeaderMissing,
            Error::InvalidHeaderNameOrValue => ErrorKind::InvalidHeaderNameOrValue,
            Error::HeaderValueNotMime => ErrorKind::HeaderValueNotMime,
            Error::FilenameWithNonAsciiEncodingNotSupported => {
                ErrorKind::FilenameWithNonAsciiEncodingNotSupported
            },
            Error::ToStr(_) => ErrorKind::ToStr,
            Error::Httparse(_) => ErrorKind::Httparse,
            Error::Io(_) => ErrorKind::Io,
            Error::Http(_) => ErrorKind::Http,
            Error::Utf8(_) => ErrorKind::Utf8,
        }
    }
}

impl From<IoError> for Error {
    fn from(err: IoError) -> (r: Error) {
        Error::Io(err)
    }
}

impl vstd::std_specs::convert::FromSpecImpl<IoError> for Error {
    open spec fn obeys_from_spec() -> bool {
        true
    }

    open spec fn from_spec(err: IoError) -> Error {
        Error::Io(err)
    }
}

impl From<HttparseError> for Error {
    fn from(err: HttparseError) -> (r: Error) {
        Error::Httparse(err)
    }
}

impl vstd::std_specs::convert::FromSpecImpl<HttparseError> for Error {
    open spec fn obeys_from_spec() -> bool {
        true
    }

    open spec fn from_spec(err: HttparseError) -> Error {
        Error::Httparse(err)
    }
}

impl From<HttpError> for Error {
    fn from(err: HttpError) -> (r: Error) {
        Error::Http(err)
    }
}

impl vstd::std_specs::convert::FromSpecImpl<HttpError> for Error {
    open spec fn obeys_from_spec() -> bool {
        true
    }

    open spec fn from_spec(err: HttpError) -> Error {
        Error::Http(err)
    }
}

impl From<FromUtf8Error> for Error {
    fn from(err: FromUtf8Error) -> (r: Error) {
        Error::Utf8(err)
    }
}

impl vstd::std_specs::convert::FromSpecImpl<FromUtf8Error> for Error {
    open spec fn obeys_from_spec() -> bool {
        true
    }

    open spec fn from_spec(err: FromUtf8Error) -> Error {
        Error::Utf8(err)
    }
}

} // verus!
