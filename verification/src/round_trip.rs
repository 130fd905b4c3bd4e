//! Writing and reading back: a body that the writer made of nodes gives
//! the same nodes when it is parsed.
//!
//! Nodes come back if they are ready to ([`all_ready`]) and the tokenizer
//! finds their headers in the lines that the writer made of them. The laws
//! take the second either as a premise ([`law_round_trip`],
//! [`law_nested_round_trip`]) or from a reading of the body
//! ([`law_round_trip_of_what_is_read`]), where the tokenizer is called and
//! what is trusted of it applies.

use vstd::prelude::*;
use crate::bytes::{
    cut, first_match, lemma_cut_at_front, lemma_cut_behind, lemma_find_first, matches_at, skip,
    starts_with,
};
use crate::classify::{part_kind, PartKind};
use crate::error::ErrorKind;
use crate::header_block::{
    collected, header_block, plain, room, tokenized, tokens_kept, trimmed, written,
};
use crate::headers::{
    appended, last_named, lemma_last_named_bounds, lower_name, valid_entries, Entries,
    MAX_HEADERS,
};
use crate::media::{boundary_parameter, dashes, multipart_boundary};
use crate::node::NodeView;
use crate::parse::{
    container, faithful_container, faithful_parts, part_block, part_content, part_head, parts,
    prepend, sniffed, Terminator,
};
use crate::write::{
    closing, colon_space, crlf, encoded, encoded_leaf, encoded_node, encoded_upto, header_line,
    header_lines, preface,
};

verus! {

/// The headers as the writer puts them on the wire, plainly.
pub open spec fn lines_of(headers: Entries) -> Seq<u8> {
    header_lines(false, headers, headers.len())
}

/// Headers as a collection holds them and as the header block parser leaves
/// them: every name and value is valid, the names are in lower case, no value
/// is empty or ends with a space, and the values of one name stand together.
pub open spec fn tidy(entries: Entries) -> bool {
    &&& valid_entries(entries)
    &&& forall|i: int|
        0 <= i < entries.len() ==> {
            let (name, value) = #[trigger] entries[i];
            lower_name(name) == name && value.len() > 0 && value.last() != 32
        }
    &&& forall|i: int, j: int, k: int|
        0 <= i < j < k < entries.len() && (#[trigger] entries[i]).0 == (#[trigger] entries[k]).0
            ==> (#[trigger] entries[j]).0 == entries[i].0
}

/// The tokenizer finds in the lines of the headers the names and values
/// that were written there.
pub open spec fn tokens_come_back(headers: Entries) -> bool {
    let block = lines_of(headers) + crlf();
    tokenized(block, room(block)) matches Ok(Some(tokens)) && tokens == headers
}

/// A part that is ready to come back as it is written, under the given
/// delimiter.
///
/// It is a part in memory with at least one header and no more than the
/// collection takes; its headers are tidy and plain, and make the part
/// neither a container nor a file; and the delimiter does not begin inside
/// its body.
pub open spec fn ready(node: NodeView, delimiter: Seq<u8>) -> bool {
    match node {
        NodeView::Part { headers, body } => {
            &&& 1 <= headers.len() <= MAX_HEADERS
            &&& tidy(headers)
            &&& plain(headers)
            &&& part_kind(headers, false) == Ok::<PartKind, ErrorKind>(PartKind::Memory)
            &&& first_match(body + delimiter, delimiter, body.len() as int)
        },
        _ => false,
    }
}

/// A part that comes back as it was written, under the given delimiter: it
/// is ready to, and the tokenizer finds its headers in their lines.
pub open spec fn comes_back(node: NodeView, delimiter: Seq<u8>) -> bool {
    ready(node, delimiter) && told(node)
}

/// Where the values of one name stand together, the last pair of a name in
/// front of a pair of that name is the pair just in front of it.
pub proof fn lemma_last_named_is_neighbour(entries: Entries, n: int)
    requires
        tidy(entries),
        0 <= n < entries.len(),
    ensures
        ({
            let at = last_named(entries.subrange(0, n), entries[n].0);
            at == -1 || at == n - 1
        }),
{
    let front = entries.subrange(0, n);
    let name = entries[n].0;
    lemma_last_named_bounds(front, name);
    let at = last_named(front, name);
    if 0 <= at < n - 1 {
        assert(front[at] == entries[at]);
        assert(entries[at].0 == entries[n].0);
        assert(entries[n - 1].0 == name);
        lemma_last_named_is_last(front, name);
        assert(front[n - 1] == entries[n - 1]);
    }
}

/// No pair behind the last pair of a name has that name.
pub proof fn lemma_last_named_is_last(entries: Entries, name: Seq<u8>)
    ensures
        forall|j: int|
            0 <= j && last_named(entries, name) < j < entries.len() ==> (#[trigger] entries[j]).0
                != name,
    decreases entries.len(),
{
    if entries.len() > 0 && entries.last().0 != name {
        lemma_last_named_is_last(entries.drop_last(), name);
        assert forall|j: int|
            0 <= j && last_named(entries, name) < j < entries.len() implies (
        #[trigger] entries[j]).0 != name by {
            if j < entries.len() - 1 {
                assert(entries.drop_last()[j] == entries[j]);
            }
        }
    }
}

/// Tidy headers are collected from their tokens as they are.
pub proof fn lemma_collected_tidy(headers: Entries, n: int)
    requires
        tidy(headers),
        0 <= n <= headers.len(),
    ensures
        collected(headers, n, headers.subrange(0, n)) == Ok::<Entries, ErrorKind>(headers),
    decreases headers.len() - n,
{
    let front = headers.subrange(0, n);
    if n == headers.len() {
        assert(front =~= headers);
    } else {
        let (name, value) = headers[n];
        assert(trimmed(value) == value);
        lemma_last_named_is_neighbour(headers, n);
        assert(appended(front, name, value) =~= headers.subrange(0, n + 1));
        lemma_collected_tidy(headers, n + 1);
    }
}

/// Where the tokenizer finds tidy headers in their lines, the header block
/// parser reads them back as they are.
pub proof fn lemma_headers_come_back(headers: Entries)
    requires
        tidy(headers),
        tokens_come_back(headers),
    ensures
        header_block(lines_of(headers) + crlf()) == Ok::<Entries, ErrorKind>(headers),
{
    lemma_collected_tidy(headers, 0);
    assert(headers.subrange(0, 0) =~= Seq::<(Seq<u8>, Seq<u8>)>::empty());
}

/// No line feed in `text` is followed by a carriage return.
pub open spec fn no_blank_line(text: Seq<u8>) -> bool {
    forall|p: int| 0 <= p && p + 1 < text.len() && #[trigger] text[p] == 10 ==> text[p + 1] != 13
}

/// The lines of valid headers hold no blank line, and end with a line
/// terminator.
pub proof fn lemma_lines(headers: Entries, n: nat)
    requires
        valid_entries(headers),
        n <= headers.len(),
    ensures
        no_blank_line(header_lines(false, headers, n)),
        n >= 1 ==> {
            let lines = header_lines(false, headers, n);
            lines.len() >= 2 && lines[lines.len() - 2] == 13 && lines[lines.len() - 1] == 10
        },
    decreases n,
{
    if n > 0 {
        lemma_lines(headers, (n - 1) as nat);
        let front = header_lines(false, headers, (n - 1) as nat);
        let entry = headers[n - 1];
        let name = entry.0;
        let value = entry.1;
        let line = header_line(false, entry);
        let lines = header_lines(false, headers, n);
        assert(line =~= name + colon_space() + value + crlf());
        assert(lines == front + line);
        let end = line.len() as int;
        assert(end == name.len() + value.len() + 4);
        assert forall|q: int| 0 <= q < end - 1 implies line[q] != 10 by {
            if q < name.len() {
                assert(line[q] == name[q]);
            } else if q < name.len() + 2 {
                assert(line[q] == colon_space()[q - name.len()]);
            } else if q < name.len() + 2 + value.len() {
                assert(line[q] == value[q - name.len() - 2]);
            } else {
                assert(line[q] == 13);
            }
        }
        assert(line[0] == name[0]);
        assert(line[end - 2] == 13 && line[end - 1] == 10);
        assert forall|p: int|
            0 <= p && p + 1 < lines.len() && #[trigger] lines[p] == 10 implies lines[p + 1]
            != 13 by {
            if p + 1 < front.len() {
                assert(lines[p] == front[p]);
                assert(lines[p + 1] == front[p + 1]);
            } else if p < front.len() {
                assert(lines[p + 1] == line[0]);
            } else {
                assert(lines[p] == line[p - front.len()]);
            }
        }
    }
}

/// Behind the lines of valid headers, the first blank line is the one that
/// ends the block.
pub proof fn lemma_block_ends(headers: Entries, back: Seq<u8>)
    requires
        valid_entries(headers),
        headers.len() >= 1,
    ensures
        cut(lines_of(headers) + crlf() + back, Terminator::CrLf.twice()) matches Some(
            (raw, content),
        ) && raw + Terminator::CrLf.twice() == lines_of(headers) + crlf() && content == back,
{
    let lines = lines_of(headers);
    let blank = Terminator::CrLf.twice();
    let data = lines + crlf() + back;
    lemma_lines(headers, headers.len());
    let at = lines.len() - 2;
    assert(blank =~= seq![13u8, 10u8, 13u8, 10u8]);
    assert(data.subrange(at, at + 4) =~= blank);
    assert forall|j: int| 0 <= j < at implies !#[trigger] matches_at(data, blank, j) by {
        if matches_at(data, blank, j) {
            let window = data.subrange(j, j + 4);
            assert(window[1] == 10 && window[2] == 13);
            assert(data[j + 1] == lines[j + 1]);
            assert(data[j + 2] == lines[j + 2]);
        }
    }
    assert(first_match(data, blank, at));
    lemma_find_first(data, blank, at);
    assert(data.subrange(0, at) + blank =~= lines + crlf());
    assert(skip(data, at + 4) =~= back);
}

/// The headers of a container that is ready to come back as it is written:
/// they are tidy and plain, and they make the part a container and declare
/// its boundary.
pub open spec fn container_ready(headers: Entries) -> bool {
    &&& 1 <= headers.len() <= MAX_HEADERS
    &&& tidy(headers)
    &&& plain(headers)
    &&& part_kind(headers, false) == Ok::<PartKind, ErrorKind>(PartKind::Container)
    &&& boundary_parameter(headers) is Ok
}

/// Nodes that are ready to come back as they are written, under the given
/// boundary token.
///
/// There is at least one node. Each is a part in memory that is ready, but
/// the last may be a container whose children are ready under its own
/// boundary: the closing marker of a container closes the one around it, so
/// nothing is read behind it.
pub open spec fn all_ready(nodes: Seq<NodeView>, token: Seq<u8>) -> bool
    decreases nodes,
{
    if nodes.len() == 0 {
        false
    } else {
        &&& forall|i: int| 0 <= i < nodes.len() - 1 ==> ready(#[trigger] nodes[i], crlf() + token)
        &&& match nodes[nodes.len() - 1] {
            NodeView::Multipart { headers, children } => container_ready(headers) && all_ready(
                children,
                multipart_boundary(headers).unwrap(),
            ),
            last => ready(last, crlf() + token),
        }
    }
}

/// The tokenizer finds the headers of the node, and of every node in it, in
/// their lines.
pub open spec fn told(node: NodeView) -> bool
    decreases node,
{
    match node {
        NodeView::Part { headers, .. } => tokens_come_back(headers),
        NodeView::File { headers, .. } => tokens_come_back(headers),
        NodeView::Multipart { headers, children } => tokens_come_back(headers) && forall|i: int|
            0 <= i < children.len() ==> told(#[trigger] children[i]),
    }
}

/// The tokenizer finds the headers of every node in their lines.
pub open spec fn all_told(nodes: Seq<NodeView>) -> bool {
    forall|i: int| 0 <= i < nodes.len() ==> told(#[trigger] nodes[i])
}

/// Nodes that come back as they were written, under the given boundary
/// token: they are ready to, and the tokenizer finds the headers of each in
/// their lines.
pub open spec fn come_back(nodes: Seq<NodeView>, token: Seq<u8>) -> bool {
    all_ready(nodes, token) && all_told(nodes)
}

/// What follows the boundary in front of the `k`-th node, up to the two
/// hyphens of the closing marker: the nodes from the `k`-th on, each closed
/// by the delimiter.
pub open spec fn behind(nodes: Seq<NodeView>, token: Seq<u8>, k: nat) -> Seq<u8>
    decreases nodes, nodes.len() - k,
{
    if k >= nodes.len() {
        dashes()
    } else {
        match nodes[k as int] {
            NodeView::Part { headers, body } => crlf() + lines_of(headers) + crlf() + body + (
            crlf() + token) + behind(nodes, token, k + 1),
            NodeView::Multipart { headers, children } => {
                let inner = multipart_boundary(headers).unwrap();
                crlf() + lines_of(headers) + crlf() + (inner + behind(children, inner, 0)) + (
                crlf() + token) + behind(nodes, token, k + 1)
            },
            _ => dashes(),
        }
    }
}

/// What parsing leaves of a body that was written: the two hyphens of the
/// closing marker, and in front of them what was left of the container that
/// came last, and the delimiter behind that.
pub open spec fn ending(nodes: Seq<NodeView>, token: Seq<u8>) -> Seq<u8>
    decreases nodes,
{
    if nodes.len() == 0 {
        dashes()
    } else {
        match nodes[nodes.len() - 1] {
            NodeView::Multipart { headers, children } => ending(
                children,
                multipart_boundary(headers).unwrap(),
            ) + (crlf() + token) + dashes(),
            _ => dashes(),
        }
    }
}

/// What `all_ready` says of the nodes, one level deep.
pub proof fn lemma_ready(nodes: Seq<NodeView>, token: Seq<u8>)
    requires
        all_ready(nodes, token),
    ensures
        nodes.len() >= 1,
        forall|i: int| 0 <= i < nodes.len() - 1 ==> ready(#[trigger] nodes[i], crlf() + token),
        forall|i: int| 0 <= i < nodes.len() ==> (#[trigger] nodes[i]) is Part || nodes[i] is Multipart,
        match nodes[nodes.len() - 1] {
            NodeView::Multipart { headers, children } => container_ready(headers) && all_ready(
                children,
                multipart_boundary(headers).unwrap(),
            ),
            last => ready(last, crlf() + token),
        },
        behind(nodes, token, 0).len() >= 2,
        behind(nodes, token, 0)[0] == 13,
        behind(nodes, token, 0)[1] == 10,
{
    assert forall|i: int| 0 <= i < nodes.len() implies (#[trigger] nodes[i]) is Part
        || nodes[i] is Multipart by {
        if i < nodes.len() - 1 {
            assert(ready(nodes[i], crlf() + token));
        }
    }
    assert(nodes[0] is Part || nodes[0] is Multipart);
}

/// A node on the wire, with the next boundary behind it, is the boundary and
/// what stands behind it.
pub proof fn lemma_node_wire(
    boundary: Seq<u8>,
    headers: Entries,
    content: Seq<u8>,
    next: Seq<u8>,
)
    ensures
        preface(false, boundary, headers) + content + crlf() + (dashes() + boundary + next)
            == dashes() + boundary + (crlf() + lines_of(headers) + crlf() + content + (crlf() + (
        dashes() + boundary)) + next),
{
    assert(preface(false, boundary, headers) + content + crlf() + (dashes() + boundary + next)
        =~= dashes() + boundary + (crlf() + lines_of(headers) + crlf() + content + (crlf() + (
    dashes() + boundary)) + next));
}

/// The writer's output is the boundary and what follows it.
pub proof fn lemma_wire(boundary: Seq<u8>, nodes: Seq<NodeView>, k: nat)
    requires
        k <= nodes.len(),
        all_ready(nodes, dashes() + boundary),
    ensures
        encoded_upto(false, boundary, nodes, k) matches Ok(front) && front + (dashes() + boundary
            + behind(nodes, dashes() + boundary, k)) == dashes() + boundary + behind(
            nodes,
            dashes() + boundary,
            0,
        ),
    decreases nodes, k,
{
    let token = dashes() + boundary;
    let whole = token + behind(nodes, token, 0);
    if k == 0 {
        assert(Seq::<u8>::empty() + (token + behind(nodes, token, 0)) =~= whole);
    } else {
        lemma_wire(boundary, nodes, (k - 1) as nat);
        lemma_ready(nodes, token);
        let front = encoded_upto(false, boundary, nodes, (k - 1) as nat).unwrap();
        let node = nodes[k - 1];
        let next = behind(nodes, token, k);
        let here = behind(nodes, token, (k - 1) as nat);
        let bytes: Seq<u8>;
        match node {
            NodeView::Part { headers, body } => {
                bytes = encoded_leaf(false, boundary, headers, body);
                lemma_node_wire(boundary, headers, body, next);
            },
            NodeView::Multipart { headers, children } => {
                if k - 1 < nodes.len() - 1 {
                    assert(ready(node, crlf() + token));
                }
                let inner = boundary_parameter(headers).unwrap();
                lemma_container_wire(inner, children);
                let body = encoded(false, inner, children).unwrap();
                bytes = preface(false, boundary, headers) + body + crlf();
                lemma_node_wire(boundary, headers, body, next);
            },
            _ => {
                bytes = Seq::empty();
            },
        }
        assert(encoded_node(false, boundary, node) == Ok::<Seq<u8>, ErrorKind>(bytes));
        assert(bytes + (token + next) == token + here);
        assert((front + bytes) + (token + next) =~= front + (token + here));
    }
}

/// Nodes on the wire are their boundary and what follows it.
pub proof fn lemma_container_wire(boundary: Seq<u8>, nodes: Seq<NodeView>)
    requires
        all_ready(nodes, dashes() + boundary),
    ensures
        encoded(false, boundary, nodes) == Ok::<Seq<u8>, ErrorKind>(
            dashes() + boundary + behind(nodes, dashes() + boundary, 0),
        ),
    decreases nodes, nodes.len() + 1,
{
    let token = dashes() + boundary;
    lemma_wire(boundary, nodes, nodes.len());
    let front = encoded_upto(false, boundary, nodes, nodes.len()).unwrap();
    assert(behind(nodes, token, nodes.len()) == dashes());
    assert(closing(false, boundary) =~= token + dashes());
}

/// Behind a boundary, the lines of valid headers are the block of headers
/// of a part.
pub proof fn lemma_part_block(headers: Entries, content: Seq<u8>, here: Seq<u8>)
    requires
        valid_entries(headers),
        headers.len() >= 1,
        here == crlf() + lines_of(headers) + crlf() + content,
    ensures
        !starts_with(here, dashes()),
        part_block(here, Terminator::CrLf) == Some(written(headers)),
        cut(here, crlf()) == Some((Seq::<u8>::empty(), lines_of(headers) + crlf() + content)),
        cut(lines_of(headers) + crlf() + content, Terminator::CrLf.twice()) matches Some(
            (raw, back),
        ) && raw + Terminator::CrLf.twice() == written(headers) && back == content,
{
    let lt = Terminator::CrLf;
    assert(lt.bytes() =~= crlf());
    let rest = lines_of(headers) + crlf() + content;
    assert(here =~= crlf() + rest);
    assert(here[0] == 13);
    if starts_with(here, dashes()) {
        assert(here.subrange(0, 2)[0] == here[0]);
        assert(dashes()[0] == 45);
    }
    lemma_cut_at_front(crlf(), rest);
    lemma_block_ends(headers, content);
}

/// A part that comes back is read from the wire, and the parts behind it
/// are read from what follows its delimiter.
pub proof fn lemma_part_step(
    token: Seq<u8>,
    headers: Entries,
    body: Seq<u8>,
    next: Seq<u8>,
    here: Seq<u8>,
)
    requires
        comes_back(NodeView::Part { headers, body }, crlf() + token),
        here == crlf() + lines_of(headers) + crlf() + body + (crlf() + token) + next,
    ensures
        parts(here, token, Terminator::CrLf, false) == prepend(
            NodeView::Part { headers, body },
            parts(next, token, Terminator::CrLf, false),
        ),
        part_head(here, Terminator::CrLf) == Ok::<(Entries, Seq<u8>), ErrorKind>(
            (headers, body + (crlf() + token) + next),
        ),
        part_content(body + (crlf() + token) + next, crlf() + token, PartKind::Memory) == Ok::<
            (Seq<u8>, Seq<u8>),
            ErrorKind,
        >((body, next)),
{
    let delimiter = crlf() + token;
    let lt = Terminator::CrLf;
    assert(lt.bytes() =~= crlf());
    let content = body + delimiter + next;
    assert(here =~= crlf() + lines_of(headers) + crlf() + content);
    lemma_part_block(headers, content, here);
    lemma_headers_come_back(headers);
    assert(part_head(here, lt) == Ok::<(Entries, Seq<u8>), ErrorKind>((headers, content)));
    lemma_cut_behind(body, delimiter, next);
}

/// The head of a container that comes back is read from the wire, and its
/// body begins with its own boundary.
pub proof fn lemma_container_head(headers: Entries, inside: Seq<u8>, here: Seq<u8>)
    requires
        container_ready(headers),
        tokens_come_back(headers),
        here == crlf() + lines_of(headers) + crlf() + (multipart_boundary(headers).unwrap()
            + inside),
    ensures
        !starts_with(here, dashes()),
        part_head(here, Terminator::CrLf) == Ok::<(Entries, Seq<u8>), ErrorKind>(
            (headers, multipart_boundary(headers).unwrap() + inside),
        ),
        cut(multipart_boundary(headers).unwrap() + inside, multipart_boundary(headers).unwrap())
            == Some((Seq::<u8>::empty(), inside)),
{
    let inner = multipart_boundary(headers).unwrap();
    let content = inner + inside;
    lemma_part_block(headers, content, here);
    lemma_headers_come_back(headers);
    lemma_cut_at_front(inner, inside);
}

/// A container that comes back is read from the wire as the node of its
/// headers and of the children that are read from its body.
pub proof fn lemma_container_step(
    token: Seq<u8>,
    headers: Entries,
    children: Seq<NodeView>,
    inside: Seq<u8>,
    left: Seq<u8>,
    here: Seq<u8>,
)
    requires
        container_ready(headers),
        tokens_come_back(headers),
        inside.len() >= 2 && inside[0] == 13 && inside[1] == 10,
        here == crlf() + lines_of(headers) + crlf() + (multipart_boundary(headers).unwrap()
            + inside),
        parts(inside, multipart_boundary(headers).unwrap(), Terminator::CrLf, false) == Ok::<
            (Seq<NodeView>, Seq<u8>),
            ErrorKind,
        >((children, left)),
    ensures
        parts(here, token, Terminator::CrLf, false) == Ok::<(Seq<NodeView>, Seq<u8>), ErrorKind>(
            (seq![NodeView::Multipart { headers, children }], left),
        ),
{
    let inner = multipart_boundary(headers).unwrap();
    let content = inner + inside;
    lemma_container_head(headers, inside, here);
    assert(sniffed(inside) == Some(Terminator::CrLf));
    assert(container(content, headers, false) == Ok::<(Seq<NodeView>, Seq<u8>), ErrorKind>(
        (children, left),
    ));
}

/// What follows the boundary in front of the `k`-th node, with anything
/// behind it, is parsed into the nodes from the `k`-th on.
///
/// The nodes are ready to come back. That the tokenizer finds their headers
/// is either known of all of them, or it is known of the blocks that this
/// very parsing tokenizes.
pub proof fn lemma_nodes_come_back(
    token: Seq<u8>,
    nodes: Seq<NodeView>,
    k: nat,
    suffix: Seq<u8>,
)
    requires
        k < nodes.len(),
        all_ready(nodes, token),
        all_told(nodes) || faithful_parts(
            behind(nodes, token, k) + suffix,
            token,
            Terminator::CrLf,
            false,
        ),
    ensures
        parts(behind(nodes, token, k) + suffix, token, Terminator::CrLf, false) == Ok::<
            (Seq<NodeView>, Seq<u8>),
            ErrorKind,
        >((nodes.subrange(k as int, nodes.len() as int), ending(nodes, token) + suffix)),
    decreases nodes, nodes.len() - k, 1nat,
{
    lemma_ready(nodes, token);
    if nodes[k as int] is Part {
        lemma_part_comes_back(token, nodes, k, suffix);
    } else {
        lemma_container_comes_back(token, nodes, k, suffix);
    }
}

/// The case of `lemma_nodes_come_back` where the `k`-th node is a part.
pub proof fn lemma_part_comes_back(
    token: Seq<u8>,
    nodes: Seq<NodeView>,
    k: nat,
    suffix: Seq<u8>,
)
    requires
        k < nodes.len(),
        all_ready(nodes, token),
        all_told(nodes) || faithful_parts(
            behind(nodes, token, k) + suffix,
            token,
            Terminator::CrLf,
            false,
        ),
        nodes[k as int] is Part,
    ensures
        parts(behind(nodes, token, k) + suffix, token, Terminator::CrLf, false) == Ok::<
            (Seq<NodeView>, Seq<u8>),
            ErrorKind,
        >((nodes.subrange(k as int, nodes.len() as int), ending(nodes, token) + suffix)),
    decreases nodes, nodes.len() - k, 0nat,
{
    let here = behind(nodes, token, k) + suffix;
    let node = nodes[k as int];
    let next = behind(nodes, token, k + 1) + suffix;
    let all = nodes.subrange(k as int, nodes.len() as int);
    lemma_ready(nodes, token);
    if let NodeView::Part { headers, body } = node {
        let content = body + (crlf() + token) + next;
        assert(here =~= crlf() + lines_of(headers) + crlf() + content);
        assert(here =~= crlf() + lines_of(headers) + crlf() + body + (crlf() + token) + next);
        lemma_part_block(headers, content, here);
        assert(told(node) || tokens_kept(written(headers)));
        assert(plain(headers));
        assert(tokens_come_back(headers));
        lemma_part_step(token, headers, body, next, here);
        let after = parts(next, token, Terminator::CrLf, false);
        if k + 1 < nodes.len() {
            lemma_nodes_come_back(token, nodes, k + 1, suffix);
            assert(seq![node] + nodes.subrange(k as int + 1, nodes.len() as int) =~= all);
        } else {
            assert(next =~= dashes() + suffix);
            assert(next.subrange(0, 2) =~= dashes());
            assert(after == Ok::<(Seq<NodeView>, Seq<u8>), ErrorKind>((Seq::empty(), next)));
            assert(seq![node] + Seq::<NodeView>::empty() =~= all);
            assert(ending(nodes, token) == dashes());
        }
    }
}

/// Byte strings put together in one order are the same however they are
/// grouped.
pub proof fn lemma_regroup(
    front: Seq<u8>,
    inner: Seq<u8>,
    inside: Seq<u8>,
    delimiter: Seq<u8>,
    last: Seq<u8>,
    suffix: Seq<u8>,
    left: Seq<u8>,
)
    ensures
        (front + (inner + inside) + delimiter + last) + suffix == front + (inner + (inside + (
        delimiter + (last + suffix)))),
        left + (delimiter + (last + suffix)) == (left + delimiter + last) + suffix,
        (inside + (delimiter + (last + suffix))).len() >= inside.len(),
        forall|i: int|
            0 <= i < inside.len() ==> (inside + (delimiter + (last + suffix)))[i] == inside[i],
{
    assert((front + (inner + inside) + delimiter + last) + suffix =~= front + (inner + (inside + (
    delimiter + (last + suffix)))));
    assert(left + (delimiter + (last + suffix)) =~= (left + delimiter + last) + suffix);
}

/// What a container at the end of the nodes leaves behind, and what stands
/// behind the boundary in front of it.
pub proof fn lemma_last_container(nodes: Seq<NodeView>, token: Seq<u8>, k: nat)
    requires
        k < nodes.len(),
        all_ready(nodes, token),
        nodes[k as int] is Multipart,
    ensures
        k == nodes.len() - 1,
        nodes[k as int] matches NodeView::Multipart { headers, children } && {
            let inner = multipart_boundary(headers).unwrap();
            &&& container_ready(headers)
            &&& all_ready(children, inner)
            &&& ending(nodes, token) == ending(children, inner) + (crlf() + token) + dashes()
            &&& behind(nodes, token, k) == crlf() + lines_of(headers) + crlf() + (inner + behind(
                children,
                inner,
                0,
            )) + (crlf() + token) + dashes()
        },
        nodes.subrange(k as int, nodes.len() as int) == seq![nodes[k as int]],
{
    if k < nodes.len() - 1 {
        assert(ready(nodes[k as int], crlf() + token));
    }
    assert(behind(nodes, token, k + 1) == dashes());
    assert(nodes.subrange(k as int, nodes.len() as int) =~= seq![nodes[k as int]]);
}

/// The case of `lemma_nodes_come_back` where the `k`-th node is a
/// container, which is then the last.
pub proof fn lemma_container_comes_back(
    token: Seq<u8>,
    nodes: Seq<NodeView>,
    k: nat,
    suffix: Seq<u8>,
)
    requires
        k < nodes.len(),
        all_ready(nodes, token),
        all_told(nodes) || faithful_parts(
            behind(nodes, token, k) + suffix,
            token,
            Terminator::CrLf,
            false,
        ),
        nodes[k as int] is Multipart,
    ensures
        parts(behind(nodes, token, k) + suffix, token, Terminator::CrLf, false) == Ok::<
            (Seq<NodeView>, Seq<u8>),
            ErrorKind,
        >((nodes.subrange(k as int, nodes.len() as int), ending(nodes, token) + suffix)),
    decreases nodes, nodes.len() - k, 0nat,
{
    lemma_last_container(nodes, token, k);
    let here = behind(nodes, token, k) + suffix;
    let node = nodes[k as int];
    if let NodeView::Multipart { headers, children } = node {
        let inner = multipart_boundary(headers).unwrap();
        let delimiter = crlf() + token;
        let more = delimiter + (dashes() + suffix);
        let inside = behind(children, inner, 0);
        let left = ending(children, inner);
        lemma_ready(children, inner);
        lemma_regroup(
            crlf() + lines_of(headers) + crlf(),
            inner,
            inside,
            delimiter,
            dashes(),
            suffix,
            left,
        );
        let content = inner + (inside + more);
        lemma_part_block(headers, content, here);
        assert(told(node) || tokens_kept(written(headers)));
        assert(plain(headers));
        assert(tokens_come_back(headers));
        lemma_container_head(headers, inside + more, here);
        assert(sniffed(inside + more) == Some(Terminator::CrLf));
        if all_told(nodes) {
            assert(told(node));
            assert(all_told(children));
        } else {
            assert(faithful_parts(here, token, Terminator::CrLf, false));
            assert(part_kind(headers, false) == Ok::<PartKind, ErrorKind>(PartKind::Container));
            assert(faithful_container(content, headers, false));
            assert(cut(content, inner) == Some((Seq::<u8>::empty(), inside + more)));
            assert(faithful_parts(inside + more, inner, Terminator::CrLf, false));
        }
        lemma_nodes_come_back(inner, children, 0, more);
        assert(children.subrange(0, children.len() as int) =~= children);
        lemma_container_step(token, headers, children, inside + more, left + more, here);
    }
}

/// Nested round trip: nodes that are written and parsed again come back as
/// they were, in their order and at their depth.
///
/// The headers in front of the body declare the boundary that the body was
/// written with, and the nodes come back under that boundary (see
/// [`come_back`]). Parsing then yields the same nodes and stops at the two
/// hyphens of a closing marker: that of the body, or that of the innermost
/// container that came last.
pub proof fn law_nested_round_trip(boundary: Seq<u8>, headers: Entries, nodes: Seq<NodeView>)
    requires
        multipart_boundary(headers) == Ok::<Seq<u8>, ErrorKind>(dashes() + boundary),
        come_back(nodes, dashes() + boundary),
    ensures
        encoded(false, boundary, nodes) matches Ok(bytes) && container(bytes, headers, false)
            == Ok::<(Seq<NodeView>, Seq<u8>), ErrorKind>(
            (nodes, ending(nodes, dashes() + boundary)),
        ),
{
    let token = dashes() + boundary;
    let rest = behind(nodes, token, 0);
    lemma_container_wire(boundary, nodes);
    lemma_cut_at_front(token, rest);
    lemma_ready(nodes, token);
    assert(sniffed(rest) == Some(Terminator::CrLf));
    lemma_nodes_come_back(token, nodes, 0, Seq::empty());
    assert(rest + Seq::<u8>::empty() =~= rest);
    assert(ending(nodes, token) + Seq::<u8>::empty() =~= ending(nodes, token));
    assert(nodes.subrange(0, nodes.len() as int) =~= nodes);
}

/// Round trip of what is read: nodes that are ready to come back are the
/// nodes of the body that the writer makes of them, once that body was
/// read.
///
/// Of the tokenizer this asks [`faithful_container`] alone, which the reader
/// states of every input that it was given: so what the writer made of such
/// nodes is read back as these nodes.
pub proof fn law_round_trip_of_what_is_read(
    boundary: Seq<u8>,
    headers: Entries,
    nodes: Seq<NodeView>,
    bytes: Seq<u8>,
)
    requires
        multipart_boundary(headers) == Ok::<Seq<u8>, ErrorKind>(dashes() + boundary),
        all_ready(nodes, dashes() + boundary),
        encoded(false, boundary, nodes) == Ok::<Seq<u8>, ErrorKind>(bytes),
        faithful_container(bytes, headers, false),
    ensures
        container(bytes, headers, false) == Ok::<(Seq<NodeView>, Seq<u8>), ErrorKind>(
            (nodes, ending(nodes, dashes() + boundary)),
        ),
{
    let token = dashes() + boundary;
    let rest = behind(nodes, token, 0);
    lemma_container_wire(boundary, nodes);
    lemma_cut_at_front(token, rest);
    lemma_ready(nodes, token);
    assert(sniffed(rest) == Some(Terminator::CrLf));
    assert(rest + Seq::<u8>::empty() =~= rest);
    lemma_nodes_come_back(token, nodes, 0, Seq::empty());
    assert(ending(nodes, token) + Seq::<u8>::empty() =~= ending(nodes, token));
    assert(nodes.subrange(0, nodes.len() as int) =~= nodes);
}

/// Round trip: parts in memory that are written and parsed again come back
/// as they were, in their order.
///
/// The headers in front of the body declare the boundary that the body was
/// written with. There is at least one part, and each of them comes back
/// under that boundary (see [`comes_back`]). Parsing then yields the same
/// nodes and stops at the two hyphens of the closing marker.
pub proof fn law_round_trip(boundary: Seq<u8>, headers: Entries, nodes: Seq<NodeView>)
    requires
        multipart_boundary(headers) == Ok::<Seq<u8>, ErrorKind>(dashes() + boundary),
        nodes.len() >= 1,
        forall|i: int|
            0 <= i < nodes.len() ==> comes_back(#[trigger] nodes[i], crlf() + dashes() + boundary),
    ensures
        encoded(false, boundary, nodes) matches Ok(bytes) && container(bytes, headers, false)
            == Ok::<(Seq<NodeView>, Seq<u8>), ErrorKind>((nodes, dashes())),
{
    let token = dashes() + boundary;
    assert(crlf() + token =~= crlf() + dashes() + boundary);
    assert(nodes[nodes.len() - 1] is Part);
    assert(all_ready(nodes, token));
    assert forall|i: int| 0 <= i < nodes.len() implies told(#[trigger] nodes[i]) by {
        assert(comes_back(nodes[i], crlf() + token));
    }
    law_nested_round_trip(boundary, headers, nodes);
}

} // verus!
