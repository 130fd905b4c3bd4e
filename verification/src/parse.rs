//! The body parser: from the bytes of a multipart body to the tree of its
//! parts.
//!
//! The spec functions of this module say what a body holds. [`message`] reads
//! a stream that begins with the headers, [`container`] the body of one
//! container, [`parts`] the parts of a container one after the other.

use vstd::prelude::*;
use http::header::HeaderMap;
use crate::bytes::{
    cut, ends_with, lemma_cut, lemma_cut_leaves_end, lemma_ends_with_end, starts_with,
};
use crate::classify::{classify, part_kind, PartKind};
use crate::error::{Error, ErrorKind};
use crate::header_block::{header_block, parse_headers, tokens_kept};
use crate::headers::{header_entries, Entries};
use crate::media::{dashes, get_multipart_boundary, multipart_boundary};
use crate::node::{node_view, nodes_view, FilePart, Node, NodeView, Part};
use crate::round_trip::{all_ready, law_round_trip_of_what_is_read};
use crate::scan::scan_until;
use crate::write::encoded;

verus! {

/// The line terminator that a body uses.
#[derive(Clone, Copy, Debug, PartialEq, Eq, Structural)]
pub enum Terminator {
    /// Carriage return and line feed.
    CrLf,
    /// A bare line feed.
    Lf,
}

impl Terminator {
    /// The bytes of the terminator.
    pub open spec fn bytes(self) -> Seq<u8> {
        match self {
            Terminator::CrLf => seq![13u8, 10u8],
            Terminator::Lf => seq![10u8],
        }
    }

    /// The terminator twice: the blank line that ends a block of headers.
    pub open spec fn twice(self) -> Seq<u8> {
        self.bytes() + self.bytes()
    }
}

/// The terminator that follows the first boundary: CRLF where the next two
/// bytes are those, LF where the next byte is that.
pub open spec fn sniffed(rest: Seq<u8>) -> Option<Terminator> {
    if rest.len() > 1 && rest[0] == 13 && rest[1] == 10 {
        Some(Terminator::CrLf)
    } else if rest.len() > 0 && rest[0] == 10 {
        Some(Terminator::Lf)
    } else {
        None
    }
}

/// What parsing makes of an input: the nodes and the input that is left, or
/// the failure.
pub type Parsed = Result<(Seq<NodeView>, Seq<u8>), ErrorKind>;

/// A result with `node` put in front of its nodes.
pub open spec fn prepend(node: NodeView, parsed: Parsed) -> Parsed {
    match parsed {
        Ok((nodes, rest)) => Ok((seq![node] + nodes, rest)),
        Err(e) => Err(e),
    }
}

/// The node for a part that is no container. A file has its size set and is
/// kept nowhere yet.
pub open spec fn leaf(headers: Entries, content: Seq<u8>, kind: PartKind) -> NodeView {
    if kind == PartKind::File {
        NodeView::File {
            headers,
            path: Seq::empty(),
            size: Some(content.len() as usize),
            contents: content,
            tempdir: None,
        }
    } else {
        NodeView::Part { headers, body: content }
    }
}

/// The content of a part that is no container, and the input behind the
/// delimiter that ends it: the line terminator and the boundary.
pub open spec fn part_content(input: Seq<u8>, delimiter: Seq<u8>, kind: PartKind) -> Result<
    (Seq<u8>, Seq<u8>),
    ErrorKind,
> {
    match cut(input, delimiter) {
        Some(found) => Ok(found),
        None => Err(
            if kind == PartKind::File {
                ErrorKind::EofInFile
            } else {
                ErrorKind::EofInPart
            },
        ),
    }
}

/// The head of a part: its headers, and the input behind them.
///
/// The rest of the boundary's line is passed over. The block of headers runs
/// up to the first blank line and is parsed together with that line.
pub open spec fn part_head(input: Seq<u8>, lt: Terminator) -> Result<(Entries, Seq<u8>), ErrorKind> {
    match cut(input, lt.bytes()) {
        None => Err(ErrorKind::NoCrLfAfterBoundary),
        Some((_, lines)) => match cut(lines, lt.twice()) {
            None => Err(ErrorKind::EofInPartHeaders),
            Some((raw, content)) => match header_block(raw + lt.twice()) {
                Err(e) => Err(e),
                Ok(headers) => Ok((headers, content)),
            },
        },
    }
}

/// The parts of a container, from behind a boundary to the closing marker.
///
/// Two hyphens behind a boundary close the container. Else a part follows:
/// its head, then either a nested container, which the part's own headers
/// describe, or a content that runs up to the next boundary on a line of its
/// own. The closing marker of a nested container closes this one too.
pub open spec fn parts(input: Seq<u8>, boundary: Seq<u8>, lt: Terminator, always_use_files: bool)
    -> Parsed
    decreases input.len(), 0nat,
    via parts_decreases
{
    if starts_with(input, dashes()) {
        Ok((Seq::empty(), input))
    } else {
        match part_head(input, lt) {
            Err(e) => Err(e),
            Ok((headers, content)) => match part_kind(headers, always_use_files) {
                Err(e) => Err(e),
                Ok(PartKind::Container) => match container(content, headers, always_use_files) {
                    Err(e) => Err(e),
                    Ok((children, rest)) => Ok(
                        (seq![NodeView::Multipart { headers, children }], rest),
                    ),
                },
                Ok(kind) => match part_content(content, lt.bytes() + boundary, kind) {
                    Err(e) => Err(e),
                    Ok((body, rest)) => prepend(
                        leaf(headers, body, kind),
                        parts(rest, boundary, lt, always_use_files),
                    ),
                },
            },
        }
    }
}

/// The body of a container with the given headers.
///
/// The headers declare the boundary. What precedes its first occurrence is
/// passed over; what follows it tells the line terminator, once and for all
/// parts of this container.
pub open spec fn container(input: Seq<u8>, headers: Entries, always_use_files: bool) -> Parsed
    decreases input.len(), 1nat,
    via container_decreases
{
    match multipart_boundary(headers) {
        Err(e) => Err(e),
        Ok(boundary) => match cut(input, boundary) {
            None => Err(ErrorKind::EofBeforeFirstBoundary),
            Some((_, rest)) => match sniffed(rest) {
                None => Err(ErrorKind::NoCrLfAfterBoundary),
                Some(lt) => parts(rest, boundary, lt, always_use_files),
            },
        },
    }
}

/// A stream that begins with the headers, which a blank line ends.
pub open spec fn message(input: Seq<u8>, always_use_files: bool) -> Parsed {
    match cut(input, Terminator::CrLf.twice()) {
        None => Err(ErrorKind::EofInMainHeaders),
        Some((raw, body)) => match header_block(raw + Terminator::CrLf.twice()) {
            Err(e) => Err(e),
            Ok(headers) => container(body, headers, always_use_files),
        },
    }
}

/// The block of headers of the part that the input begins with, where the
/// input holds all of it.
pub open spec fn part_block(input: Seq<u8>, lt: Terminator) -> Option<Seq<u8>> {
    match cut(input, lt.bytes()) {
        None => None,
        Some((_, lines)) => match cut(lines, lt.twice()) {
            None => None,
            Some((raw, _)) => Some(raw + lt.twice()),
        },
    }
}

/// What is known of the tokenizer once the parts of the input were read:
/// [`tokens_kept`] of every block of headers that was tokenized on the way.
pub open spec fn faithful_parts(
    input: Seq<u8>,
    boundary: Seq<u8>,
    lt: Terminator,
    always_use_files: bool,
) -> bool
    decreases input.len(), 0nat,
    via faithful_parts_decreases
{
    starts_with(input, dashes()) || match part_block(input, lt) {
        None => true,
        Some(block) => tokens_kept(block) && match part_head(input, lt) {
            Err(_) => true,
            Ok((headers, content)) => match part_kind(headers, always_use_files) {
                Err(_) => true,
                Ok(PartKind::Container) => faithful_container(content, headers, always_use_files),
                Ok(kind) => match part_content(content, lt.bytes() + boundary, kind) {
                    Err(_) => true,
                    Ok((_, rest)) => faithful_parts(rest, boundary, lt, always_use_files),
                },
            },
        },
    }
}

/// What is known of the tokenizer once the body of a container was read:
/// [`tokens_kept`] of every block of headers that was tokenized on the way.
pub open spec fn faithful_container(input: Seq<u8>, headers: Entries, always_use_files: bool)
    -> bool
    decreases input.len(), 1nat,
    via faithful_container_decreases
{
    match multipart_boundary(headers) {
        Err(_) => true,
        Ok(boundary) => match cut(input, boundary) {
            None => true,
            Some((_, rest)) => match sniffed(rest) {
                None => true,
                Some(lt) => faithful_parts(rest, boundary, lt, always_use_files),
            },
        },
    }
}

/// What is known of the tokenizer once a message was read: [`tokens_kept`]
/// of every block of headers that was tokenized on the way.
pub open spec fn faithful_message(input: Seq<u8>, always_use_files: bool) -> bool {
    match cut(input, Terminator::CrLf.twice()) {
        None => true,
        Some((raw, body)) => tokens_kept(raw + Terminator::CrLf.twice()) && match header_block(
            raw + Terminator::CrLf.twice(),
        ) {
            Err(_) => true,
            Ok(headers) => faithful_container(body, headers, always_use_files),
        },
    }
}

#[via_fn]
proof fn faithful_parts_decreases(
    input: Seq<u8>,
    boundary: Seq<u8>,
    lt: Terminator,
    always_use_files: bool,
) {
    lemma_part_head_shrinks(input, lt);
    match part_head(input, lt) {
        Ok((_, content)) => {
            lemma_cut(content, lt.bytes() + boundary);
        },
        Err(_) => {},
    }
}

#[via_fn]
proof fn faithful_container_decreases(input: Seq<u8>, headers: Entries, always_use_files: bool) {
    match multipart_boundary(headers) {
        Ok(boundary) => {
            lemma_cut(input, boundary);
        },
        Err(_) => {},
    }
}

/// The content of a part is shorter than the input that the part began in.
pub proof fn lemma_part_head_shrinks(input: Seq<u8>, lt: Terminator)
    ensures
        part_head(input, lt) matches Ok((_, content)) ==> content.len() < input.len(),
{
    lemma_cut(input, lt.bytes());
    match cut(input, lt.bytes()) {
        Some((_, lines)) => {
            lemma_cut(lines, lt.twice());
        },
        None => {},
    }
}

#[via_fn]
proof fn parts_decreases(input: Seq<u8>, boundary: Seq<u8>, lt: Terminator, always_use_files: bool) {
    lemma_part_head_shrinks(input, lt);
    match part_head(input, lt) {
        Ok((_, content)) => {
            lemma_cut(content, lt.bytes() + boundary);
        },
        Err(_) => {},
    }
}

#[via_fn]
proof fn container_decreases(input: Seq<u8>, headers: Entries, always_use_files: bool) {
    match multipart_boundary(headers) {
        Ok(boundary) => {
            lemma_cut(input, boundary);
        },
        Err(_) => {},
    }
}

/// Tells the line terminator at the front of `peek`.
fn sniff(peek: &[u8]) -> (r: Option<Terminator>)
    ensures
        r == sniffed(peek@),
{
    if peek.len() > 1 && peek[0] == 13 && peek[1] == 10 {
        Some(Terminator::CrLf)
    } else if peek.len() > 0 && peek[0] == 10 {
        Some(Terminator::Lf)
    } else {
        None
    }
}

/// The bytes of a line terminator.
fn terminator_bytes(lt: Terminator) -> (r: Vec<u8>)
    ensures
        r@ == lt.bytes(),
{
    let mut r: Vec<u8> = Vec::new();
    match lt {
        Terminator::CrLf => {
            r.push(13u8);
            r.push(10u8);
        },
        Terminator::Lf => {
            r.push(10u8);
        },
    }
    assert(r@ =~= lt.bytes());
    r
}

/// Tells whether two hyphens are at the front of `peek`.
fn at_closing_marker(peek: &[u8]) -> (r: bool)
    ensures
        r == starts_with(peek@, dashes()),
{
    if peek.len() >= 2 && peek[0] == 45 && peek[1] == 45 {
        assert(peek@.subrange(0, 2) =~= dashes());
        true
    } else {
        if peek.len() >= 2 {
            assert(peek@.subrange(0, 2)[0] == peek@[0]);
            assert(peek@.subrange(0, 2)[1] == peek@[1]);
        }
        false
    }
}

/// Reads the head of a part: passes over the rest of the boundary's line,
/// takes the block of headers up to the blank line, and parses it.
fn read_part_head(stream: &mut &[u8], lt: Terminator) -> (r: Result<HeaderMap, Error>)
    ensures
        match part_head(old(stream)@, lt) {
            Ok((headers, content)) => r matches Ok(m) && header_entries(m) == headers
                && final(stream)@ == content,
            Err(k) => r matches Err(e) && e.kind() == k,
        },
        ends_with(old(stream)@, final(stream)@),
        part_block(old(stream)@, lt) matches Some(block) ==> tokens_kept(block),
{
    let line_end = terminator_bytes(lt);
    let mut blank_line = terminator_bytes(lt);
    blank_line.extend_from_slice(line_end.as_slice());
    assert(blank_line@ =~= lt.twice());
    let mut passed: Vec<u8> = Vec::new();
    let (_, found) = scan_until(stream, line_end.as_slice(), &mut passed);
    if !found {
        return Err(Error::NoCrLfAfterBoundary);
    }
    let ghost lines = stream@;
    let mut block: Vec<u8> = Vec::new();
    let (_, found) = scan_until(stream, blank_line.as_slice(), &mut block);
    proof {
        lemma_ends_with_end(old(stream)@, lines, stream@);
    }
    if !found {
        return Err(Error::EofInPartHeaders);
    }
    let ghost raw = block@;
    block.extend_from_slice(blank_line.as_slice());
    assert(block@ =~= raw + lt.twice());
    parse_headers(block.as_slice())
}

/// A result with `nodes` put in front of its nodes.
pub open spec fn prepend_all(nodes: Seq<NodeView>, parsed: Parsed) -> Parsed {
    match parsed {
        Ok((more, rest)) => Ok((nodes + more, rest)),
        Err(e) => Err(e),
    }
}

/// The view of a vector with one more node is the view with one more node.
pub proof fn lemma_view_push(nodes: Seq<Node>, node: Node)
    ensures
        nodes_view(nodes.push(node)) == nodes_view(nodes).push(node_view(node)),
{
    assert(nodes_view(nodes.push(node)) =~= nodes_view(nodes).push(node_view(node)));
}

/// Reads the content of a part that is no container, up to the delimiter,
/// and makes the node of it.
fn read_leaf(stream: &mut &[u8], delimiter: &[u8], headers: HeaderMap, kind: PartKind) -> (r:
    Result<Node, Error>)
    requires
        delimiter@.len() > 0,
        kind != PartKind::Container,
    ensures
        match part_content(old(stream)@, delimiter@, kind) {
            Ok((body, rest)) => r matches Ok(node) && node_view(node) == leaf(
                header_entries(headers),
                body,
                kind,
            ) && final(stream)@ == rest && rest.len() < old(stream)@.len(),
            Err(k) => r matches Err(e) && e.kind() == k,
        },
        ends_with(old(stream)@, final(stream)@),
{
    let ghost input = stream@;
    let mut body: Vec<u8> = Vec::new();
    let (_, found) = scan_until(stream, delimiter, &mut body);
    proof {
        lemma_cut(input, delimiter@);
        if let Some((front, _)) = cut(input, delimiter@) {
            assert(body@ =~= front);
        }
    }
    match kind {
        PartKind::File => {
            if !found {
                return Err(Error::EofInFile);
            }
            Ok(Node::File(FilePart::received(headers, body)))
        },
        _ => {
            if !found {
                return Err(Error::EofInPart);
            }
            Ok(Node::Part(Part { headers, body }))
        },
    }
}

/// Reads the body of a container with the given headers from `stream` and
/// appends its parts to `nodes`. On success the stream stands at the two
/// hyphens of the closing marker.
fn read_container(
    stream: &mut &[u8],
    headers: &HeaderMap,
    nodes: &mut Vec<Node>,
    always_use_files: bool,
) -> (r: Result<(), Error>)
    ensures
        match container(old(stream)@, header_entries(*headers), always_use_files) {
            Ok((found, rest)) => {
                &&& r is Ok
                &&& nodes_view(final(nodes)@) == nodes_view(old(nodes)@) + found
                &&& final(stream)@ == rest
                &&& starts_with(rest, dashes())
                &&& rest.len() < old(stream)@.len()
            },
            Err(k) => r matches Err(e) && e.kind() == k,
        },
        ends_with(old(stream)@, final(stream)@),
        nodes_view(old(nodes)@).is_prefix_of(nodes_view(final(nodes)@)),
        faithful_container(old(stream)@, header_entries(*headers), always_use_files),
    decreases old(stream)@.len(),
{
    let ghost input = stream@;
    let ghost entries = header_entries(*headers);
    let ghost before = nodes_view(nodes@);
    proof {
        lemma_cut_leaves_end(input, Seq::empty());
    }
    let boundary = match get_multipart_boundary(headers) {
        Ok(b) => b,
        Err(e) => {
            return Err(e);
        },
    };
    let mut preamble: Vec<u8> = Vec::new();
    let (_, found) = scan_until(stream, boundary.as_slice(), &mut preamble);
    if !found {
        return Err(Error::EofBeforeFirstBoundary);
    }
    proof {
        lemma_cut(input, boundary@);
    }
    let lt = match sniff(*stream) {
        Some(lt) => lt,
        None => {
            return Err(Error::NoCrLfAfterBoundary);
        },
    };
    let mut delimiter = terminator_bytes(lt);
    delimiter.extend_from_slice(boundary.as_slice());
    assert(delimiter@ =~= lt.bytes() + boundary@);
    let ghost goal = container(input, entries, always_use_files);
    let ghost mut done: Seq<NodeView> = Seq::empty();
    assert(before + done =~= before);
    loop
        invariant
            input == old(stream)@,
            entries == header_entries(*headers),
            before == nodes_view(old(nodes)@),
            stream@.len() < input.len(),
            ends_with(input, stream@),
            delimiter@ == lt.bytes() + boundary@,
            goal == container(input, entries, always_use_files),
            goal == prepend_all(done, parts(stream@, boundary@, lt, always_use_files)),
            faithful_parts(stream@, boundary@, lt, always_use_files) ==> faithful_container(
                input,
                entries,
                always_use_files,
            ),
            nodes_view(nodes@) == before + done,
        decreases stream@.len(),
    {
        let ghost here = stream@;
        if at_closing_marker(*stream) {
            proof {
                assert(done + Seq::<NodeView>::empty() =~= done);
            }
            return Ok(());
        }
        proof {
            lemma_part_head_shrinks(here, lt);
        }
        let part_headers = match read_part_head(stream, lt) {
            Ok(h) => h,
            Err(e) => {
                proof {
                    lemma_ends_with_end(input, here, stream@);
                }
                return Err(e);
            },
        };
        let ghost content = stream@;
        proof {
            lemma_ends_with_end(input, here, content);
        }
        let ghost part_entries = header_entries(part_headers);
        let kind = match classify(&part_headers, always_use_files) {
            Ok(kind) => kind,
            Err(e) => {
                return Err(e);
            },
        };
        let ghost view: NodeView;
        let node = match kind {
            PartKind::Container => {
                let mut children: Vec<Node> = Vec::new();
                let read = read_container(stream, &part_headers, &mut children, always_use_files);
                proof {
                    lemma_ends_with_end(input, content, stream@);
                }
                match read {
                    Ok(()) => {},
                    Err(e) => {
                        return Err(e);
                    },
                }
                proof {
                    let kids = nodes_view(children@);
                    assert(nodes_view(Seq::<Node>::empty()) + kids =~= kids);
                    view = NodeView::Multipart { headers: part_entries, children: kids };
                    assert(parts(here, boundary@, lt, always_use_files) == Ok::<
                        (Seq<NodeView>, Seq<u8>),
                        ErrorKind,
                    >((seq![view], stream@)));
                    assert(parts(stream@, boundary@, lt, always_use_files) == Ok::<
                        (Seq<NodeView>, Seq<u8>),
                        ErrorKind,
                    >((Seq::<NodeView>::empty(), stream@)));
                    assert(done + seq![view] =~= done.push(view) + Seq::<NodeView>::empty());
                }
                Node::Multipart((part_headers, children))
            },
            _ => {
                let read = read_leaf(stream, delimiter.as_slice(), part_headers, kind);
                proof {
                    lemma_ends_with_end(input, content, stream@);
                }
                let node = match read {
                    Ok(node) => node,
                    Err(e) => {
                        return Err(e);
                    },
                };
                proof {
                    assert(faithful_parts(stream@, boundary@, lt, always_use_files)
                        ==> faithful_parts(here, boundary@, lt, always_use_files));
                    view = node_view(node);
                    let next = parts(stream@, boundary@, lt, always_use_files);
                    assert(parts(here, boundary@, lt, always_use_files) == prepend(view, next));
                    match next {
                        Ok((more, _)) => {
                            assert(done + (seq![view] + more) =~= done.push(view) + more);
                        },
                        Err(_) => {},
                    }
                }
                node
            },
        };
        proof {
            lemma_view_push(nodes@, node);
            assert((before + done).push(view) =~= before + done.push(view));
            done = done.push(view);
        }
        nodes.push(node);
    }
}

/// The nodes that were read are the given ones.
pub open spec fn read_back(read: Result<Vec<Node>, Error>, nodes: Seq<NodeView>) -> bool {
    read matches Ok(v) && nodes_view(v@) == nodes
}

/// Parse a MIME `multipart/*` body from `stream` into its nodes. Nested
/// containers are parsed too, each into a `Node::Multipart`.
///
/// If `always_use_files` is true, every part that is no container becomes a
/// file. If it is false, only those whose `content-disposition` holds
/// `attachment` or `filename` do, and the others are kept in memory.
///
/// The stream starts at the body; `headers` are those that preceded it. On
/// success the stream stands at the two hyphens of the closing marker.
///
/// What [`write_multipart`](crate::write::write_multipart) made of nodes that
/// are ready to come back is read back as these nodes, where the files are
/// not asked for.
pub fn read_multipart_body(stream: &mut &[u8], headers: &HeaderMap, always_use_files: bool) -> (r:
    Result<Vec<Node>, Error>)
    ensures
        match container(old(stream)@, header_entries(*headers), always_use_files) {
            Ok((found, rest)) => r matches Ok(nodes) && nodes_view(nodes@) == found
                && final(stream)@ == rest && starts_with(rest, dashes()),
            Err(k) => r matches Err(e) && e.kind() == k,
        },
        ends_with(old(stream)@, final(stream)@),
        faithful_container(old(stream)@, header_entries(*headers), always_use_files),
        !always_use_files ==> forall|boundary: Seq<u8>, nodes: Seq<NodeView>|
            #![trigger encoded(false, boundary, nodes)]
            multipart_boundary(header_entries(*headers)) == Ok::<Seq<u8>, ErrorKind>(
                dashes() + boundary,
            ) && all_ready(nodes, dashes() + boundary) && encoded(false, boundary, nodes) == Ok::<
                Seq<u8>,
                ErrorKind,
            >(old(stream)@) ==> read_back(r, nodes),
{
    let mut nodes: Vec<Node> = Vec::new();
    let r = match read_container(stream, headers, &mut nodes, always_use_files) {
        Ok(()) => {
            assert(nodes_view(Seq::<Node>::empty()) + nodes_view(nodes@) =~= nodes_view(nodes@));
            Ok(nodes)
        },
        Err(e) => Err(e),
    };
    proof {
        if !always_use_files {
            assert forall|boundary: Seq<u8>, found: Seq<NodeView>|
                #![trigger encoded(false, boundary, found)]
                multipart_boundary(header_entries(*headers)) == Ok::<Seq<u8>, ErrorKind>(
                    dashes() + boundary,
                ) && all_ready(found, dashes() + boundary) && encoded(false, boundary, found)
                    == Ok::<Seq<u8>, ErrorKind>(old(stream)@) implies read_back(r, found) by {
                law_round_trip_of_what_is_read(
                    boundary,
                    header_entries(*headers),
                    found,
                    old(stream)@,
                );
            }
        }
    }
    r
}

/// Parse a MIME `multipart/*` message from `stream` into its nodes: first the
/// headers, which a blank line ends, then the body as
/// [`read_multipart_body`] reads it.
pub fn read_multipart(stream: &mut &[u8], always_use_files: bool) -> (r: Result<Vec<Node>, Error>)
    ensures
        match message(old(stream)@, always_use_files) {
            Ok((found, rest)) => r matches Ok(nodes) && nodes_view(nodes@) == found
                && final(stream)@ == rest && starts_with(rest, dashes()),
            Err(k) => r matches Err(e) && e.kind() == k,
        },
        ends_with(old(stream)@, final(stream)@),
        faithful_message(old(stream)@, always_use_files),
{
    let mut blank_line = terminator_bytes(Terminator::CrLf);
    blank_line.extend_from_slice(terminator_bytes(Terminator::CrLf).as_slice());
    assert(blank_line@ =~= Terminator::CrLf.twice());
    let mut block: Vec<u8> = Vec::new();
    let (_, found) = scan_until(stream, blank_line.as_slice(), &mut block);
    if !found {
        return Err(Error::EofInMainHeaders);
    }
    let ghost raw = block@;
    block.extend_from_slice(blank_line.as_slice());
    assert(block@ =~= raw + Terminator::CrLf.twice());
    let headers = match parse_headers(block.as_slice()) {
        Ok(h) => h,
        Err(e) => {
            return Err(e);
        },
    };
    let ghost body = stream@;
    let r = read_multipart_body(stream, &headers, always_use_files);
    proof {
        lemma_ends_with_end(old(stream)@, body, stream@);
    }
    r
}

} // verus!
