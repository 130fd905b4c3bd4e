use mime_multipart::{Error, ErrorKind};

#[test]
fn kinds_names_and_descriptions() {
    let plain = [
        (Error::NoRequestContentType, ErrorKind::NoRequestContentType, "NoRequestContentType"),
        (Error::NotMultipart, ErrorKind::NotMultipart, "NotMultipart"),
        (Error::BoundaryNotSpecified, ErrorKind::BoundaryNotSpecified, "BoundaryNotSpecified"),
        (Error::PartialHeaders, ErrorKind::PartialHeaders, "PartialHeaders"),
        (Error::EofInMainHeaders, ErrorKind::EofInMainHeaders, "EofInMainHeaders"),
        (Error::EofBeforeFirstBoundary, ErrorKind::EofBeforeFirstBoundary, "EofBeforeFirstBoundary"),
        (Error::NoCrLfAfterBoundary, ErrorKind::NoCrLfAfterBoundary, "NoCrLfAfterBoundary"),
        (Error::EofInPartHeaders, ErrorKind::EofInPartHeaders, "EofInPartHeaders"),
        (Error::EofInFile, ErrorKind::EofInFile, "EofInFile"),
        (Error::EofInPart, ErrorKind::EofInPart, "EofInPart"),
        (Error::HeaderMissing, ErrorKind::HeaderMissing, "HeaderMissing"),
        (
            Error::InvalidHeaderNameOrValue,
            ErrorKind::InvalidHeaderNameOrValue,
            "InvalidHeaderNameOrValue",
        ),
        (Error::HeaderValueNotMime, ErrorKind::HeaderValueNotMime, "HeaderValueNotMime"),
        (
            Error::FilenameWithNonAsciiEncodingNotSupported,
            ErrorKind::FilenameWithNonAsciiEncodingNotSupported,
            "NonAsciiFilenameNotSupported",
        ),
    ];
    for (error, kind, name) in plain.iter() {
        assert_eq!(error.kind(), *kind);
        assert_eq!(error.name(), *name);
        assert_eq!(error.to_text(), *name);
        assert!(!error.description().is_empty());
    }
    assert_eq!(Error::NoCrLfAfterBoundary.description(), "Missing CRLF after boundary.");
    assert_eq!(
        Error::EofInFile.description(),
        "The request body ended prematurely while streaming a file part."
    );
}

#[test]
fn carried_errors() {
    let io = Error::from(std::io::Error::new(std::io::ErrorKind::Other, "disk"));
    assert_eq!(io.kind(), ErrorKind::Io);
    assert_eq!(io.to_text(), "Io: disk");
    assert_eq!(io.description(), "An I/O error occurred.");

    let tokenizer = Error::from(httparse::Error::HeaderName);
    assert_eq!(tokenizer.kind(), ErrorKind::Httparse);
    assert_eq!(tokenizer.to_text(), "Httparse: HeaderName");

    let utf8 = Error::from(String::from_utf8(vec![0xff]).unwrap_err());
    assert_eq!(utf8.kind(), ErrorKind::Utf8);
    assert!(utf8.to_text().starts_with("Utf8: "));
    assert!(utf8.to_text().len() > "Utf8: ".len());

    let http = Error::from(http::Error::from(http::StatusCode::from_u16(1000).unwrap_err()));
    assert_eq!(http.kind(), ErrorKind::Http);
    assert!(http.to_text().starts_with("Http: "));

    let to_str = Error::ToStr(
        http::header::HeaderValue::from_bytes(b"\xe9").unwrap().to_str().unwrap_err(),
    );
    assert_eq!(to_str.kind(), ErrorKind::ToStr);
    assert!(to_str.to_text().starts_with("ToStr: "));
    assert_eq!(to_str.description(), "A ToStr error occurred.");
}

#[test]
fn failures_of_an_input_that_ends_too_early() {
    let early = [
        ErrorKind::EofInMainHeaders,
        ErrorKind::EofBeforeFirstBoundary,
        ErrorKind::NoCrLfAfterBoundary,
        ErrorKind::EofInPartHeaders,
        ErrorKind::EofInFile,
        ErrorKind::EofInPart,
    ];
    for kind in early {
        assert!(kind.is_end_of_input(), "{:?}", kind);
    }
    let other = [
        ErrorKind::NoRequestContentType,
        ErrorKind::NotMultipart,
        ErrorKind::BoundaryNotSpecified,
        ErrorKind::PartialHeaders,
        ErrorKind::HeaderMissing,
        ErrorKind::InvalidHeaderNameOrValue,
        ErrorKind::HeaderValueNotMime,
        ErrorKind::FilenameWithNonAsciiEncodingNotSupported,
        ErrorKind::ToStr,
        ErrorKind::Httparse,
        ErrorKind::Io,
        ErrorKind::Http,
        ErrorKind::Utf8,
    ];
    for kind in other {
        assert!(!kind.is_end_of_input(), "{:?}", kind);
    }
}
