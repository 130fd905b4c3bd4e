//! What holds of the parser, the classifier and the writer whatever the
//! input.

use vstd::prelude::*;
use crate::bytes::{
    absent, contains, cut, lemma_cut, lemma_cut_with_more, lemma_find_none, matches_at,
    starts_with,
};
use crate::classify::{part_kind, PartKind};
use crate::disposition::{attachment_word, filename_word, plain_marker, stored_as_file};
use crate::error::ErrorKind;
use crate::headers::{first_value, visible, Entries};
use crate::media::{content_disposition_name, dashes, is_container, multipart_boundary};
use crate::node::NodeView;
use crate::header_block::header_block;
use crate::parse::{
    container, leaf, lemma_part_head_shrinks, message, part_content, part_head, parts, sniffed,
    Parsed, Terminator,
};

verus! {

/// A value that holds `filename=` holds the word `filename`.
pub proof fn lemma_marker_holds_word(value: Seq<u8>)
    requires
        contains(value, plain_marker()),
    ensures
        contains(value, filename_word()),
{
    reveal_strlit("filename=");
    reveal_strlit("filename");
    let i = choose|i: int| matches_at(value, plain_marker(), i);
    assert(plain_marker().subrange(0, 8) =~= filename_word());
    assert(value.subrange(i, i + 8) =~= value.subrange(i, i + 9).subrange(0, 8));
    assert(matches_at(value, filename_word(), i));
}

/// A part whose `content-disposition` holds `filename=` is kept as a file,
/// also where `always_use_files` is false.
///
/// The disposition is the first header of that name, and has to be text.
pub proof fn law_filename_makes_a_file(entries: Entries, always_use_files: bool)
    requires
        first_value(entries, content_disposition_name()) matches Some(value) && visible(value)
            && contains(value, plain_marker()),
    ensures
        stored_as_file(entries, always_use_files) == Ok::<bool, ErrorKind>(true),
        is_container(entries) == Ok::<bool, ErrorKind>(false) ==> part_kind(
            entries,
            always_use_files,
        ) == Ok::<PartKind, ErrorKind>(PartKind::File),
{
    lemma_marker_holds_word(first_value(entries, content_disposition_name()).unwrap());
}

/// A part whose `content-disposition` holds neither `attachment` nor
/// `filename`, or which has none, is kept in memory where `always_use_files`
/// is false.
///
/// The disposition is the first header of that name, and has to be text.
pub proof fn law_plain_part_stays_in_memory(entries: Entries)
    requires
        match first_value(entries, content_disposition_name()) {
            Some(value) => visible(value) && !contains(value, attachment_word()) && !contains(
                value,
                filename_word(),
            ),
            None => true,
        },
    ensures
        stored_as_file(entries, false) == Ok::<bool, ErrorKind>(false),
        is_container(entries) == Ok::<bool, ErrorKind>(false) ==> part_kind(entries, false) == Ok::<
            PartKind,
            ErrorKind,
        >(PartKind::Memory),
{
}

/// Where `always_use_files` is set, no part is kept in memory.
pub proof fn law_flag_makes_files(entries: Entries)
    ensures
        part_kind(entries, true) != Ok::<PartKind, ErrorKind>(PartKind::Memory),
        stored_as_file(entries, true) == Ok::<bool, ErrorKind>(true),
{
}

/// A file as parsing hands it out: its size is the number of its bytes, it
/// is kept nowhere yet, and nobody owns storage for it.
pub open spec fn fresh(node: NodeView) -> bool
    decreases node,
{
    match node {
        NodeView::Part { .. } => true,
        NodeView::File { path, size, contents, tempdir, .. } => {
            &&& size == Some(contents.len() as usize)
            &&& path.len() == 0
            &&& tempdir is None
        },
        NodeView::Multipart { children, .. } => forall|i: int|
            0 <= i < children.len() ==> fresh(#[trigger] children[i]),
    }
}

/// Every file among the nodes that parsing hands out has its size set to the
/// number of its bytes, at whatever depth it stands.
pub proof fn law_parsed_files_are_sized(
    input: Seq<u8>,
    boundary: Seq<u8>,
    lt: Terminator,
    always_use_files: bool,
)
    ensures
        parts(input, boundary, lt, always_use_files) matches Ok((nodes, _)) ==> forall|i: int|
            0 <= i < nodes.len() ==> fresh(#[trigger] nodes[i]),
    decreases input.len(), 0nat,
{
    if !starts_with(input, dashes()) {
        lemma_part_head_shrinks(input, lt);
        if let Ok((headers, content)) = part_head(input, lt) {
            match part_kind(headers, always_use_files) {
                Ok(PartKind::Container) => {
                    law_parsed_container_is_sized(content, headers, always_use_files);
                },
                Ok(kind) => {
                    lemma_cut(content, lt.bytes() + boundary);
                    if let Ok((body, rest)) = part_content(content, lt.bytes() + boundary, kind) {
                        law_parsed_files_are_sized(rest, boundary, lt, always_use_files);
                        if let Ok((more, _)) = parts(rest, boundary, lt, always_use_files) {
                            let node = leaf(headers, body, kind);
                            assert(fresh(node));
                            let nodes = seq![node] + more;
                            assert forall|i: int| 0 <= i < nodes.len() implies fresh(
                                #[trigger] nodes[i],
                            ) by {
                                if i > 0 {
                                    assert(nodes[i] == more[i - 1]);
                                }
                            }
                        }
                    }
                },
                Err(_) => {},
            }
        }
    }
}

/// Every file in a container that parsing hands out has its size set to the
/// number of its bytes.
pub proof fn law_parsed_container_is_sized(
    input: Seq<u8>,
    headers: Entries,
    always_use_files: bool,
)
    ensures
        container(input, headers, always_use_files) matches Ok((nodes, _)) ==> forall|i: int|
            0 <= i < nodes.len() ==> fresh(#[trigger] nodes[i]),
    decreases input.len(), 1nat,
{
    if let Ok(boundary) = multipart_boundary(headers) {
        lemma_cut(input, boundary);
        if let Some((_, rest)) = cut(input, boundary) {
            if let Some(lt) = sniffed(rest) {
                law_parsed_files_are_sized(rest, boundary, lt, always_use_files);
            }
        }
    }
}

/// A body that ends inside the headers of a part fails with
/// `EofInPartHeaders` and in no other way: the line of the boundary is
/// complete, and no blank line follows it.
pub proof fn law_truncated_part_headers(
    input: Seq<u8>,
    boundary: Seq<u8>,
    lt: Terminator,
    always_use_files: bool,
)
    requires
        !starts_with(input, dashes()),
        cut(input, lt.bytes()) matches Some((_, lines)) && absent(lines, lt.twice()),
    ensures
        parts(input, boundary, lt, always_use_files) == Err::<(Seq<NodeView>, Seq<u8>), ErrorKind>(
            ErrorKind::EofInPartHeaders,
        ),
{
    let lines = cut(input, lt.bytes()).unwrap().1;
    lemma_find_none(lines, lt.twice());
}

/// The parts behind a boundary end inside the headers of a part: of the
/// first, or of a later one behind parts that are complete, or of one in a
/// nested container.
pub open spec fn ends_in_part_headers(
    input: Seq<u8>,
    boundary: Seq<u8>,
    lt: Terminator,
    always_use_files: bool,
) -> bool
    decreases input.len(), 0nat,
    via ends_in_part_headers_decreases
{
    !starts_with(input, dashes()) && match cut(input, lt.bytes()) {
        None => false,
        Some((_, lines)) => match cut(lines, lt.twice()) {
            None => true,
            Some(_) => match part_head(input, lt) {
                Err(_) => false,
                Ok((headers, content)) => match part_kind(headers, always_use_files) {
                    Err(_) => false,
                    Ok(PartKind::Container) => body_ends_in_part_headers(
                        content,
                        headers,
                        always_use_files,
                    ),
                    Ok(kind) => match part_content(content, lt.bytes() + boundary, kind) {
                        Err(_) => false,
                        Ok((_, rest)) => ends_in_part_headers(
                            rest,
                            boundary,
                            lt,
                            always_use_files,
                        ),
                    },
                },
            },
        },
    }
}

/// The body of a container ends inside the headers of one of its parts.
pub open spec fn body_ends_in_part_headers(
    input: Seq<u8>,
    headers: Entries,
    always_use_files: bool,
) -> bool
    decreases input.len(), 1nat,
    via body_ends_in_part_headers_decreases
{
    match multipart_boundary(headers) {
        Err(_) => false,
        Ok(boundary) => match cut(input, boundary) {
            None => false,
            Some((_, rest)) => match sniffed(rest) {
                None => false,
                Some(lt) => ends_in_part_headers(rest, boundary, lt, always_use_files),
            },
        },
    }
}

#[via_fn]
proof fn ends_in_part_headers_decreases(
    input: Seq<u8>,
    boundary: Seq<u8>,
    lt: Terminator,
    always_use_files: bool,
) {
    lemma_part_head_shrinks(input, lt);
    if let Ok((_, content)) = part_head(input, lt) {
        lemma_cut(content, lt.bytes() + boundary);
    }
}

#[via_fn]
proof fn body_ends_in_part_headers_decreases(
    input: Seq<u8>,
    headers: Entries,
    always_use_files: bool,
) {
    if let Ok(boundary) = multipart_boundary(headers) {
        lemma_cut(input, boundary);
    }
}

/// A body that ends inside the headers of any of its parts, at whatever
/// depth, fails with `EofInPartHeaders`.
pub proof fn law_truncation_in_part_headers(
    input: Seq<u8>,
    boundary: Seq<u8>,
    lt: Terminator,
    always_use_files: bool,
)
    requires
        ends_in_part_headers(input, boundary, lt, always_use_files),
    ensures
        parts(input, boundary, lt, always_use_files) == Err::<(Seq<NodeView>, Seq<u8>), ErrorKind>(
            ErrorKind::EofInPartHeaders,
        ),
    decreases input.len(), 0nat,
{
    lemma_part_head_shrinks(input, lt);
    let lines = cut(input, lt.bytes()).unwrap().1;
    if cut(lines, lt.twice()) is Some {
        let (headers, content) = part_head(input, lt).unwrap();
        match part_kind(headers, always_use_files) {
            Ok(PartKind::Container) => {
                law_truncation_in_nested_headers(content, headers, always_use_files);
            },
            Ok(kind) => {
                lemma_cut(content, lt.bytes() + boundary);
                let rest = part_content(content, lt.bytes() + boundary, kind).unwrap().1;
                law_truncation_in_part_headers(rest, boundary, lt, always_use_files);
            },
            Err(_) => {},
        }
    }
}

/// A container whose body ends inside the headers of one of its parts fails
/// with `EofInPartHeaders`.
pub proof fn law_truncation_in_nested_headers(
    input: Seq<u8>,
    headers: Entries,
    always_use_files: bool,
)
    requires
        body_ends_in_part_headers(input, headers, always_use_files),
    ensures
        container(input, headers, always_use_files) == Err::<(Seq<NodeView>, Seq<u8>), ErrorKind>(
            ErrorKind::EofInPartHeaders,
        ),
    decreases input.len(), 1nat,
{
    let boundary = multipart_boundary(headers).unwrap();
    lemma_cut(input, boundary);
    let rest = cut(input, boundary).unwrap().1;
    let lt = sniffed(rest).unwrap();
    law_truncation_in_part_headers(rest, boundary, lt, always_use_files);
}

/// An outcome that more input does not change: nodes, or a failure that does
/// not come of an input that ends too early.
pub open spec fn settled(parsed: Parsed) -> bool {
    match parsed {
        Ok(_) => true,
        Err(k) => !k.is_end_of_input(),
    }
}

/// An outcome with more input behind what was left.
pub open spec fn with_more(parsed: Parsed, more: Seq<u8>) -> Parsed {
    match parsed {
        Ok((nodes, rest)) => Ok((nodes, rest + more)),
        Err(k) => Err(k),
    }
}

/// What follows the closing marker does not matter, and neither does what
/// follows a failure that is not the end of the input: the parts of a
/// beginning are the parts of every input that begins with it.
pub proof fn law_more_input_to_parts(
    input: Seq<u8>,
    more: Seq<u8>,
    boundary: Seq<u8>,
    lt: Terminator,
    always_use_files: bool,
)
    requires
        settled(parts(input, boundary, lt, always_use_files)),
    ensures
        parts(input + more, boundary, lt, always_use_files) == with_more(
            parts(input, boundary, lt, always_use_files),
            more,
        ),
    decreases input.len(), 0nat,
{
    let longer = input + more;
    if starts_with(input, dashes()) {
        assert(longer.subrange(0, 2) =~= input.subrange(0, 2));
    } else {
        lemma_part_head_shrinks(input, lt);
        lemma_cut(input, lt.bytes());
        lemma_cut_with_more(input, lt.bytes(), more);
        let lines = cut(input, lt.bytes()).unwrap().1;
        lemma_cut(lines, lt.twice());
        lemma_cut_with_more(lines, lt.twice(), more);
        assert(input.len() >= 2);
        if starts_with(longer, dashes()) {
            assert(longer.subrange(0, 2) =~= input.subrange(0, 2));
        }
        if let Ok((headers, content)) = part_head(input, lt) {
            assert(part_head(longer, lt) == Ok::<(Entries, Seq<u8>), ErrorKind>(
                (headers, content + more),
            ));
            match part_kind(headers, always_use_files) {
                Ok(PartKind::Container) => {
                    law_more_input_to_container(content, more, headers, always_use_files);
                },
                Ok(kind) => {
                    let delimiter = lt.bytes() + boundary;
                    lemma_cut(content, delimiter);
                    lemma_cut_with_more(content, delimiter, more);
                    let rest = part_content(content, delimiter, kind).unwrap().1;
                    law_more_input_to_parts(rest, more, boundary, lt, always_use_files);
                },
                Err(_) => {},
            }
        }
    }
}

/// The nodes of a beginning of a body are the nodes of every input that
/// begins with it.
pub proof fn law_more_input_to_container(
    input: Seq<u8>,
    more: Seq<u8>,
    headers: Entries,
    always_use_files: bool,
)
    requires
        settled(container(input, headers, always_use_files)),
    ensures
        container(input + more, headers, always_use_files) == with_more(
            container(input, headers, always_use_files),
            more,
        ),
    decreases input.len(), 1nat,
{
    if let Ok(boundary) = multipart_boundary(headers) {
        lemma_cut(input, boundary);
        lemma_cut_with_more(input, boundary, more);
        let rest = cut(input, boundary).unwrap().1;
        let lt = sniffed(rest).unwrap();
        assert(sniffed(rest + more) == Some(lt));
        law_more_input_to_parts(rest, more, boundary, lt, always_use_files);
    }
}

/// The nodes of a beginning of a message are the nodes of every input that
/// begins with it.
pub proof fn law_more_input_to_message(input: Seq<u8>, more: Seq<u8>, always_use_files: bool)
    requires
        settled(message(input, always_use_files)),
    ensures
        message(input + more, always_use_files) == with_more(
            message(input, always_use_files),
            more,
        ),
{
    let blank = Terminator::CrLf.twice();
    lemma_cut_with_more(input, blank, more);
    let (raw, body) = cut(input, blank).unwrap();
    if let Ok(headers) = header_block(raw + blank) {
        law_more_input_to_container(body, more, headers, always_use_files);
    }
}

/// Where a bare line feed follows the first boundary, every part of the
/// container is read with the line feed as its terminator, whatever
/// terminator the headers in front of the body used.
pub proof fn law_line_feed_governs(input: Seq<u8>, headers: Entries, always_use_files: bool)
    requires
        multipart_boundary(headers) matches Ok(boundary) && cut(input, boundary) matches Some(
            (_, rest),
        ) && rest.len() > 0 && rest[0] == 10,
    ensures
        container(input, headers, always_use_files) == parts(
            cut(input, multipart_boundary(headers).unwrap()).unwrap().1,
            multipart_boundary(headers).unwrap(),
            Terminator::Lf,
            always_use_files,
        ),
{
}

} // verus!
