//! The writer: from a tree of parts to the bytes of a multipart body, plain
//! or framed as HTTP chunks.

use vstd::prelude::*;
use http::header::HeaderMap;
use std::io::Error as IoError;
use crate::error::{Error, ErrorKind};
use crate::headers::{header_entries, header_pairs, pairs_view, Entries};
use crate::media::{boundary_parameter, dashes, get_boundary_parameter};
use crate::node::{node_view, nodes_view, Node, NodeView};

verus! {

/// `after` has grown out of `before`: it begins with it.
#[verifier::opaque]
pub open spec fn grown(before: Seq<u8>, after: Seq<u8>) -> bool {
    &&& before.len() <= after.len()
    &&& after.subrange(0, before.len() as int) == before
}

/// The line terminator of the writer.
pub open spec fn crlf() -> Seq<u8> {
    seq![13u8, 10u8]
}

/// What separates the name of a header from its value.
pub open spec fn colon_space() -> Seq<u8> {
    seq![58u8, 32u8]
}

/// The hexadecimal digit for a number below 16, in lower case.
pub open spec fn hex_digit(d: nat) -> u8 {
    if d < 10 {
        (48 + d) as u8
    } else {
        (87 + d) as u8
    }
}

/// A number in hexadecimal digits, without leading zeros.
pub open spec fn hex(n: nat) -> Seq<u8>
    decreases n,
{
    if n < 16 {
        seq![hex_digit(n)]
    } else {
        hex(n / 16).push(hex_digit(n % 16))
    }
}

/// One HTTP chunk: the length of the payload in hexadecimal digits, a line
/// terminator, the payload, and a line terminator.
pub open spec fn chunk(payload: Seq<u8>) -> Seq<u8> {
    hex(payload.len()) + crlf() + payload + crlf()
}

/// A fragment as the writer emits it: as a chunk of its own where the output
/// is framed, and as it is where not.
pub open spec fn piece(framed: bool, bytes: Seq<u8>) -> Seq<u8> {
    if framed {
        chunk(bytes)
    } else {
        bytes
    }
}

/// One header: the name, a colon and a space, the value, a line terminator.
pub open spec fn header_line(framed: bool, entry: (Seq<u8>, Seq<u8>)) -> Seq<u8> {
    piece(framed, entry.0) + piece(framed, colon_space()) + piece(framed, entry.1) + piece(
        framed,
        crlf(),
    )
}

/// The first `n` headers, in the order of the collection.
pub open spec fn header_lines(framed: bool, entries: Entries, n: nat) -> Seq<u8>
    decreases n,
{
    if n == 0 {
        Seq::empty()
    } else {
        header_lines(framed, entries, (n - 1) as nat) + header_line(framed, entries[n - 1])
    }
}

/// The line that opens a part: two hyphens, the boundary, a line terminator.
pub open spec fn opening(framed: bool, boundary: Seq<u8>) -> Seq<u8> {
    piece(framed, dashes()) + piece(framed, boundary) + piece(framed, crlf())
}

/// What closes a body: two hyphens, the boundary, two hyphens; and the empty
/// chunk where the output is framed.
pub open spec fn closing(framed: bool, boundary: Seq<u8>) -> Seq<u8> {
    piece(framed, dashes()) + piece(framed, boundary) + piece(framed, dashes()) + if framed {
        chunk(Seq::empty())
    } else {
        Seq::empty()
    }
}

/// What precedes the content of a part with these headers: the opening
/// line, the headers, and a blank line.
pub open spec fn preface(framed: bool, boundary: Seq<u8>, headers: Entries) -> Seq<u8> {
    opening(framed, boundary) + header_lines(framed, headers, headers.len()) + piece(
        framed,
        crlf(),
    )
}

/// A part with the given content on the wire: its preface, the content as
/// one fragment, and a line terminator.
pub open spec fn encoded_leaf(framed: bool, boundary: Seq<u8>, headers: Entries, content: Seq<u8>)
    -> Seq<u8> {
    preface(framed, boundary, headers) + piece(framed, content) + piece(framed, crlf())
}

/// One node on the wire.
///
/// The content of a part in memory is its body, that of a file the bytes of
/// the file. A container has its preface, then the encoding of its children
/// under the boundary that its own headers declare, then a line terminator:
/// the children are written as the body of a container with these headers
/// is read.
pub open spec fn encoded_node(framed: bool, boundary: Seq<u8>, node: NodeView) -> Result<
    Seq<u8>,
    ErrorKind,
>
    decreases node, 0nat,
{
    match node {
        NodeView::Part { headers, body } => Ok(encoded_leaf(framed, boundary, headers, body)),
        NodeView::File { headers, contents, .. } => Ok(
            encoded_leaf(framed, boundary, headers, contents),
        ),
        NodeView::Multipart { headers, children } => match boundary_parameter(headers) {
            Err(e) => Err(e),
            Ok(inner) => match encoded(framed, inner, children) {
                Err(e) => Err(e),
                Ok(bytes) => Ok(preface(framed, boundary, headers) + bytes + piece(framed, crlf())),
            },
        },
    }
}

/// The first `n` nodes on the wire, one after the other. The first node that
/// cannot be encoded fails the whole.
pub open spec fn encoded_upto(framed: bool, boundary: Seq<u8>, nodes: Seq<NodeView>, n: nat)
    -> Result<Seq<u8>, ErrorKind>
    decreases nodes, n,
{
    if n == 0 || n > nodes.len() {
        Ok(Seq::empty())
    } else {
        match encoded_upto(framed, boundary, nodes, (n - 1) as nat) {
            Err(e) => Err(e),
            Ok(front) => match encoded_node(framed, boundary, nodes[n - 1]) {
                Err(e) => Err(e),
                Ok(bytes) => Ok(front + bytes),
            },
        }
    }
}

/// A multipart body: the nodes one after the other, then the closing marker.
pub open spec fn encoded(framed: bool, boundary: Seq<u8>, nodes: Seq<NodeView>) -> Result<
    Seq<u8>,
    ErrorKind,
>
    decreases nodes, nodes.len() + 1,
{
    match encoded_upto(framed, boundary, nodes, nodes.len()) {
        Err(e) => Err(e),
        Ok(bytes) => Ok(bytes + closing(framed, boundary)),
    }
}

/// The hexadecimal digit for a number below 16.
fn digit(d: usize) -> (r: u8)
    requires
        d < 16,
    ensures
        r == hex_digit(d as nat),
{
    if d < 10 {
        48u8 + (d as u8)
    } else {
        87u8 + (d as u8)
    }
}

/// Appends a number in hexadecimal digits.
fn push_hex(out: &mut Vec<u8>, n: usize)
    ensures
        final(out)@ == old(out)@ + hex(n as nat),
    decreases n,
{
    if n >= 16 {
        push_hex(out, n / 16);
    }
    out.push(digit(n % 16));
    assert(out@ =~= old(out)@ + hex(n as nat));
}

/// Writes one HTTP chunk to `stream`: the length of `chunk` in hexadecimal
/// digits, a line terminator, the bytes of `chunk`, and a line terminator.
pub fn write_chunk(stream: &mut Vec<u8>, chunk: &[u8]) -> (r: Result<(), IoError>)
    ensures
        r is Ok,
        final(stream)@ == old(stream)@ + self::chunk(chunk@),
{
    push_hex(stream, chunk.len());
    stream.push(13u8);
    stream.push(10u8);
    stream.extend_from_slice(chunk);
    stream.push(13u8);
    stream.push(10u8);
    assert(stream@ =~= old(stream)@ + self::chunk(chunk@));
    Ok(())
}

/// Emits one fragment: as a chunk of its own where the output is framed.
fn emit(stream: &mut Vec<u8>, bytes: &[u8], framed: bool)
    ensures
        final(stream)@ == old(stream)@ + piece(framed, bytes@),
{
    if framed {
        let _ = write_chunk(stream, bytes);
    } else {
        stream.extend_from_slice(bytes);
        assert(stream@ =~= old(stream)@ + bytes@);
    }
}

/// Emits two hyphens.
fn emit_dashes(stream: &mut Vec<u8>, framed: bool)
    ensures
        final(stream)@ == old(stream)@ + piece(framed, dashes()),
{
    let bytes: [u8; 2] = [45, 45];
    assert(bytes@ =~= dashes());
    emit(stream, bytes.as_slice(), framed);
}

/// Emits a line terminator.
fn emit_crlf(stream: &mut Vec<u8>, framed: bool)
    ensures
        final(stream)@ == old(stream)@ + piece(framed, crlf()),
{
    let bytes: [u8; 2] = [13, 10];
    assert(bytes@ =~= crlf());
    emit(stream, bytes.as_slice(), framed);
}

/// Emits the line that opens a part.
fn write_opening(stream: &mut Vec<u8>, boundary: &[u8], framed: bool)
    ensures
        final(stream)@ == old(stream)@ + opening(framed, boundary@),
{
    emit_dashes(stream, framed);
    emit(stream, boundary, framed);
    emit_crlf(stream, framed);
    assert(stream@ =~= old(stream)@ + opening(framed, boundary@));
}

/// Emits the headers of a part, each on a line of its own and in the order
/// of the collection, and the blank line behind them.
fn write_headers(stream: &mut Vec<u8>, headers: &HeaderMap, framed: bool)
    ensures
        final(stream)@ == old(stream)@ + header_lines(
            framed,
            header_entries(*headers),
            header_entries(*headers).len(),
        ) + piece(framed, crlf()),
{
    let ghost entries = header_entries(*headers);
    let pairs = header_pairs(headers);
    let mut i: usize = 0;
    assert(stream@ =~= old(stream)@ + header_lines(framed, entries, 0));
    while i < pairs.len()
        invariant
            i <= pairs.len(),
            pairs_view(pairs@) == entries,
            stream@ == old(stream)@ + header_lines(framed, entries, i as nat),
        decreases pairs.len() - i,
    {
        let ghost before = stream@;
        assert(entries[i as int] == (pairs@[i as int].0@, pairs@[i as int].1@));
        let colon: [u8; 2] = [58, 32];
        assert(colon@ =~= colon_space());
        emit(stream, pairs[i].0.as_slice(), framed);
        emit(stream, colon.as_slice(), framed);
        emit(stream, pairs[i].1.as_slice(), framed);
        emit_crlf(stream, framed);
        assert(stream@ =~= before + header_line(framed, entries[i as int]));
        assert(stream@ =~= old(stream)@ + header_lines(framed, entries, (i + 1) as nat));
        i = i + 1;
    }
    emit_crlf(stream, framed);
}

/// Emits a part with the given content.
fn write_leaf(
    stream: &mut Vec<u8>,
    boundary: &[u8],
    headers: &HeaderMap,
    content: &[u8],
    framed: bool,
)
    ensures
        final(stream)@ == old(stream)@ + encoded_leaf(
            framed,
            boundary@,
            header_entries(*headers),
            content@,
        ),
{
    write_opening(stream, boundary, framed);
    write_headers(stream, headers, framed);
    emit(stream, content, framed);
    emit_crlf(stream, framed);
    assert(stream@ =~= old(stream)@ + encoded_leaf(
        framed,
        boundary@,
        header_entries(*headers),
        content@,
    ));
}

/// Writes what closes a body to `stream`: two hyphens, the boundary and two
/// hyphens, and the empty chunk behind them where `framed` is set.
pub fn write_closing(stream: &mut Vec<u8>, boundary: &[u8], framed: bool)
    ensures
        final(stream)@ == old(stream)@ + closing(framed, boundary@),
{
    emit_dashes(stream, framed);
    emit(stream, boundary, framed);
    emit_dashes(stream, framed);
    if framed {
        let last: [u8; 0] = [];
        assert(last@ =~= Seq::<u8>::empty());
        let _ = write_chunk(stream, last.as_slice());
    }
    assert(stream@ =~= old(stream)@ + closing(framed, boundary@));
}

/// Once a node fails, every longer run of nodes fails in the same way.
pub proof fn lemma_failure_stays(
    framed: bool,
    boundary: Seq<u8>,
    nodes: Seq<NodeView>,
    i: nat,
    n: nat,
)
    requires
        i <= n <= nodes.len(),
        encoded_upto(framed, boundary, nodes, i) is Err,
    ensures
        encoded_upto(framed, boundary, nodes, n) == encoded_upto(framed, boundary, nodes, i),
    decreases n,
{
    if n > i {
        lemma_failure_stays(framed, boundary, nodes, i, (n - 1) as nat);
    }
}

/// What grew and grew again has grown.
pub proof fn lemma_grown_twice(a: Seq<u8>, b: Seq<u8>, c: Seq<u8>)
    requires
        grown(a, b),
        grown(b, c),
    ensures
        grown(a, c),
{
    reveal(grown);
    assert(a =~= c.subrange(0, a.len() as int));
}

/// Bytes behind the old bytes make them grow.
pub proof fn lemma_grown_by(before: Seq<u8>, bytes: Seq<u8>)
    ensures
        grown(before, before + bytes),
{
    reveal(grown);
    assert(before =~= (before + bytes).subrange(0, before.len() as int));
}

/// Emits a container: its opening line and headers, then its children under
/// the boundary that its headers declare, then a line terminator.
fn write_container(
    stream: &mut Vec<u8>,
    boundary: &[u8],
    headers: &HeaderMap,
    children: &Vec<Node>,
    framed: bool,
) -> (r: Result<(), Error>)
    ensures
        match encoded_node(
            framed,
            boundary@,
            NodeView::Multipart {
                headers: header_entries(*headers),
                children: nodes_view(children@),
            },
        ) {
            Ok(bytes) => r is Ok && final(stream)@ == old(stream)@ + bytes,
            Err(k) => r matches Err(e) && e.kind() == k,
        },
        grown(old(stream)@, final(stream)@),
    decreases children, 1nat,
{
    write_opening(stream, boundary, framed);
    proof {
        lemma_grown_by(old(stream)@, opening(framed, boundary@));
    }
    let inner = match get_boundary_parameter(headers) {
        Ok(b) => b,
        Err(e) => {
            return Err(e);
        },
    };
    write_headers(stream, headers, framed);
    let ghost prefaced = stream@;
    assert(prefaced =~= old(stream)@ + preface(framed, boundary@, header_entries(*headers)));
    let written = write_nodes(stream, inner.as_slice(), children, framed);
    proof {
        lemma_grown_by(old(stream)@, preface(framed, boundary@, header_entries(*headers)));
        lemma_grown_twice(old(stream)@, prefaced, stream@);
    }
    match written {
        Ok(()) => {},
        Err(e) => {
            return Err(e);
        },
    }
    let ghost bytes = encoded(framed, inner@, nodes_view(children@)).unwrap();
    emit_crlf(stream, framed);
    assert(stream@ =~= old(stream)@ + (preface(framed, boundary@, header_entries(*headers))
        + bytes + piece(framed, crlf())));
    proof {
        lemma_grown_by(
            old(stream)@,
            preface(framed, boundary@, header_entries(*headers)) + bytes + piece(framed, crlf()),
        );
    }
    Ok(())
}

/// Writes one node to `stream`: its opening line, its headers, a blank line,
/// its content and a line terminator, each fragment as an HTTP chunk of its
/// own where `framed` is set. A body is its nodes written one after the
/// other and closed by [`write_closing`].
pub fn write_node(stream: &mut Vec<u8>, boundary: &[u8], node: &Node, framed: bool) -> (r: Result<
    (),
    Error,
>)
    ensures
        match encoded_node(framed, boundary@, node_view(*node)) {
            Ok(bytes) => r is Ok && final(stream)@ == old(stream)@ + bytes,
            Err(k) => r matches Err(e) && e.kind() == k,
        },
        grown(old(stream)@, final(stream)@),
    decreases node, 0nat,
{
    match node {
        Node::Part(part) => {
            write_leaf(stream, boundary, &part.headers, part.body.as_slice(), framed);
            proof {
                lemma_grown_by(
                    old(stream)@,
                    encoded_leaf(framed, boundary@, header_entries(part.headers), part.body@),
                );
            }
            Ok(())
        },
        Node::File(file) => {
            write_leaf(stream, boundary, file.headers(), file.contents().as_slice(), framed);
            proof {
                lemma_grown_by(
                    old(stream)@,
                    encoded_leaf(framed, boundary@, file@.headers, file@.contents),
                );
            }
            Ok(())
        },
        Node::Multipart((headers, children)) => write_container(
            stream,
            boundary,
            headers,
            children,
            framed,
        ),
    }
}

/// Emits a body: the nodes one after the other, and the closing marker
/// behind the last.
fn write_nodes(stream: &mut Vec<u8>, boundary: &[u8], nodes: &Vec<Node>, framed: bool) -> (r:
    Result<(), Error>)
    ensures
        match encoded(framed, boundary@, nodes_view(nodes@)) {
            Ok(bytes) => r is Ok && final(stream)@ == old(stream)@ + bytes,
            Err(k) => r matches Err(e) && e.kind() == k,
        },
        grown(old(stream)@, final(stream)@),
    decreases nodes, 0nat,
{
    let ghost views = nodes_view(nodes@);
    let mut i: usize = 0;
    assert(stream@ =~= old(stream)@ + Seq::<u8>::empty());
    while i < nodes.len()
        invariant
            i <= nodes.len(),
            views == nodes_view(nodes@),
            encoded_upto(framed, boundary@, views, i as nat) matches Ok(front) && stream@ == old(
                stream,
            )@ + front,
        decreases nodes.len() - i,
    {
        let ghost front = encoded_upto(framed, boundary@, views, i as nat).unwrap();
        assert(views[i as int] == node_view(nodes@[i as int]));
        let ghost before = stream@;
        let written = write_node(stream, boundary, &nodes[i], framed);
        proof {
            lemma_grown_by(old(stream)@, front);
            lemma_grown_twice(old(stream)@, before, stream@);
        }
        match written {
            Ok(()) => {},
            Err(e) => {
                proof {
                    lemma_failure_stays(framed, boundary@, views, (i + 1) as nat, views.len());
                }
                return Err(e);
            },
        }
        proof {
            let bytes = encoded_node(framed, boundary@, views[i as int]).unwrap();
            assert(stream@ =~= old(stream)@ + (front + bytes));
        }
        i = i + 1;
    }
    let ghost front = stream@;
    write_closing(stream, boundary, framed);
    assert(stream@ =~= old(stream)@ + encoded(framed, boundary@, views).unwrap());
    proof {
        lemma_grown_by(old(stream)@, encoded(framed, boundary@, views).unwrap());
    }
    Ok(())
}

/// Write a multipart body to `stream`, made up of the `nodes` given. The
/// headers that precede the body are not written: the caller sends those
/// first. Returns the number of bytes written.
pub fn write_multipart(stream: &mut Vec<u8>, boundary: &[u8], nodes: &Vec<Node>) -> (r: Result<
    usize,
    Error,
>)
    ensures
        match encoded(false, boundary@, nodes_view(nodes@)) {
            Ok(bytes) => r matches Ok(count) && count == bytes.len() && final(stream)@ == old(
                stream,
            )@ + bytes,
            Err(k) => r matches Err(e) && e.kind() == k,
        },
        grown(old(stream)@, final(stream)@),
{
    let start: usize = stream.len();
    match write_nodes(stream, boundary, nodes, false) {
        Ok(()) => Ok(stream.len() - start),
        Err(e) => Err(e),
    }
}

/// Write a multipart body to `stream`, made up of the `nodes` given, every
/// fragment as an HTTP chunk of its own and the empty chunk at the end. The
/// headers that precede the body are not written: the caller sends those
/// first.
pub fn write_multipart_chunked(stream: &mut Vec<u8>, boundary: &[u8], nodes: &Vec<Node>) -> (r:
    Result<(), Error>)
    ensures
        match encoded(true, boundary@, nodes_view(nodes@)) {
            Ok(bytes) => r is Ok && final(stream)@ == old(stream)@ + bytes,
            Err(k) => r matches Err(e) && e.kind() == k,
        },
        grown(old(stream)@, final(stream)@),
{
    write_nodes(stream, boundary, nodes, true)
}

} // verus!
