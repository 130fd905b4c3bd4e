//! Decoding and encoding of MIME `multipart/*` bodies.
//!
//! A body is a byte sequence in which a boundary token separates parts; each
//! part has a block of headers and a content. [`read_multipart`] and
//! [`read_multipart_body`] turn such bytes into a tree of [`Node`]s: parts
//! kept in memory, parts that are files, and nested containers.
//! [`write_multipart`] and [`write_multipart_chunked`] turn a tree back into
//! bytes, plainly or framed as HTTP chunks; [`write_node`] and
//! [`write_closing`] do so piece by piece.
//!
//! The library works on bytes in memory and does no input or output of its
//! own: a part that is a file carries the bytes of the file, and it is the
//! caller who puts them on disk or takes them from there.
//!
//! Every function is stated against a model of the wire format and proved to
//! follow it. The model of the reader is in [`parse`], that of the writer in
//! [`write`]; [`round_trip`] and [`laws`] hold what follows of the two.
//! Headers are kept in `http::header::HeaderMap`, tokenized by `httparse`
//! and scanned for boundaries by `buf_read_ext`; media types are those of
//! `mime`. What is taken on trust of these is said where they are called.

pub mod boundary;
pub mod bytes;
pub mod classify;
pub mod disposition;
pub mod error;
pub mod header_block;
pub mod headers;
pub mod laws;
pub mod media;
pub mod node;
pub mod parse;
pub mod round_trip;
pub mod scan;
pub mod write;

pub use boundary::{boundary_from_nonce, boundary_from_outcome, generate_boundary};
pub use bytes::find_bytes;
pub use classify::{classify, PartKind};
pub use disposition::{get_content_disposition_filename, is_file_part};
pub use error::{Error, ErrorKind};
pub use header_block::parse_headers;
pub use media::{get_boundary_parameter, get_multipart_boundary};
pub use node::{FilePart, Node, NodeView, Part};
pub use parse::{read_multipart, read_multipart_body};
pub use scan::scan_until;
pub use write::{
    write_chunk, write_closing, write_multipart, write_multipart_chunked, write_node,
};
