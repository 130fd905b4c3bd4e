//! The tree of parts that a multipart body holds.

use vstd::prelude::*;
use http::header::HeaderMap;
use mime::Mime;
use crate::bytes::ascii_text;
use crate::disposition::{get_content_disposition_filename, headers_filename};
use crate::error::Error;
use crate::headers::{clone_headers, get_header, header_entries, Entries};
use crate::media::{lenient_type, read_content_type};

verus! {

/// A part whose content is kept in memory.
#[derive(Debug, PartialEq)]
pub struct Part {
    /// The headers of the part.
    pub headers: HeaderMap,
    /// The content of the part.
    pub body: Vec<u8>,
}

impl Clone for Part {
    /// A copy with the same headers and the same body.
    fn clone(&self) -> (r: Part)
        ensures
            header_entries(r.headers) == header_entries(self.headers),
            r.body@ == self.body@,
    {
        Part { headers: clone_headers(&self.headers), body: self.body.clone() }
    }
}

impl Part {
    /// The media type that the `content-type` header declares, if it declares
    /// one that can be read.
    pub fn content_type(&self) -> (r: Option<Mime>)
        ensures
            r == lenient_type(header_entries(self.headers)),
    {
        match read_content_type(&self.headers) {
            Ok(m) => m,
            Err(_) => None,
        }
    }
}

/// A part whose content is a file: one to be put into a body, or one that
/// came out of a body.
///
/// This library does not touch the disk. `contents` are the bytes of the
/// file; `path` says where the caller keeps them, and is empty as long as
/// they are kept nowhere. A part that owns its storage knows the directory
/// that was made for the file alone; once the ownership is given up, nothing
/// gives it back.
#[derive(Debug, PartialEq)]
pub struct FilePart {
    /// The headers of the part.
    pub headers: HeaderMap,
    /// Where the file is.
    pub path: String,
    /// The size of the file. Decoding sets it; encoding does not need it.
    pub size: Option<usize>,
    /// The bytes of the file.
    pub contents: Vec<u8>,
    // The directory that was made for the file alone, where the part owns
    // its storage.
    tempdir: Option<String>,
}

/// What a [`FilePart`] stands for.
pub struct FileView {
    /// The headers of the part.
    pub headers: Entries,
    /// Where the file is.
    pub path: Seq<char>,
    /// The size of the file, where it is set.
    pub size: Option<usize>,
    /// The bytes of the file.
    pub contents: Seq<u8>,
    /// The directory that was made for the file alone, where the part owns
    /// its storage.
    pub tempdir: Option<Seq<char>>,
}

impl View for FilePart {
    type V = FileView;

    closed spec fn view(&self) -> FileView {
        FileView {
            headers: header_entries(self.headers),
            path: self.path@,
            size: self.size,
            contents: self.contents@,
            tempdir: match self.tempdir {
                Some(dir) => Some(dir@),
                None => None,
            },
        }
    }
}

impl Clone for FilePart {
    /// A copy that stands for the same. It owns the storage if this part
    /// does: only one of the two should go on to remove it.
    fn clone(&self) -> (r: FilePart)
        ensures
            r@ == self@,
    {
        FilePart {
            headers: clone_headers(&self.headers),
            path: self.path.clone(),
            size: self.size,
            contents: self.contents.clone(),
            tempdir: match &self.tempdir {
                Some(dir) => Some(dir.clone()),
                None => None,
            },
        }
    }
}

impl FilePart {
    /// Whether the part owns the file and its directory, so that both are to
    /// be removed when the part is given up.
    pub open spec fn spec_owns_storage(&self) -> bool {
        self@.tempdir is Some
    }

    /// A part for a file that the caller keeps at `path`. The part does not
    /// own it.
    pub fn new(headers: HeaderMap, path: &str) -> (r: FilePart)
        ensures
            r@ == (FileView {
                headers: header_entries(headers),
                path: path@,
                size: None,
                contents: Seq::empty(),
                tempdir: None,
            }),
    {
        FilePart { headers, path: path.to_owned(), size: None, contents: Vec::new(), tempdir: None }
    }

    /// A part for a file at `path` in the directory `tempdir`, which was made
    /// for this file alone. The part owns both.
    pub fn create(headers: HeaderMap, tempdir: &str, path: &str) -> (r: FilePart)
        ensures
            r@ == (FileView {
                headers: header_entries(headers),
                path: path@,
                size: None,
                contents: Seq::empty(),
                tempdir: Some(tempdir@),
            }),
    {
        FilePart {
            headers,
            path: path.to_owned(),
            size: None,
            contents: Vec::new(),
            tempdir: Some(tempdir.to_owned()),
        }
    }

    /// A part for a file that came out of a body: it has its bytes and their
    /// number, is kept nowhere yet, and owns no storage.
    pub fn received(headers: HeaderMap, contents: Vec<u8>) -> (r: FilePart)
        ensures
            r@ == (FileView {
                headers: header_entries(headers),
                path: Seq::empty(),
                size: Some(contents@.len() as usize),
                contents: contents@,
                tempdir: None,
            }),
    {
        let size = contents.len();
        FilePart { headers, path: String::new(), size: Some(size), contents, tempdir: None }
    }

    /// Gives up the ownership of the file: from now on it is the caller who
    /// removes it. Nothing else changes, and nothing gives the ownership
    /// back.
    pub fn do_not_delete_on_drop(&mut self)
        ensures
            final(self)@ == (FileView { tempdir: None, ..old(self)@ }),
    {
        self.tempdir = None;
    }

    /// Whether the part owns the file and its directory.
    #[verifier::when_used_as_spec(spec_owns_storage)]
    pub fn owns_storage(&self) -> (r: bool)
        ensures
            r == self.spec_owns_storage(),
    {
        self.tempdir.is_some()
    }

    /// The directory that was made for the file alone, where the part owns
    /// its storage.
    pub fn tempdir(&self) -> (r: Option<&String>)
        ensures
            match r {
                Some(dir) => self@.tempdir == Some(dir@),
                None => self@.tempdir is None,
            },
    {
        self.tempdir.as_ref()
    }

    /// The headers of the part.
    pub fn headers(&self) -> (r: &HeaderMap)
        ensures
            header_entries(*r) == self@.headers,
    {
        &self.headers
    }

    /// The bytes of the file.
    pub fn contents(&self) -> (r: &Vec<u8>)
        ensures
            r@ == self@.contents,
    {
        &self.contents
    }

    /// The file name that the `content-disposition` header gives, and
    /// `Ok(None)` where there is no such header or it gives none.
    pub fn filename(&self) -> (r: Result<Option<String>, Error>)
        ensures
            match headers_filename(self@.headers) {
                Ok(Some(name)) => r matches Ok(Some(s)) && s@ == ascii_text(name),
                Ok(None) => r matches Ok(None),
                Err(k) => r matches Err(e) && e.kind() == k,
            },
    {
        proof {
            reveal_strlit("content-disposition");
        }
        match get_header(&self.headers, "content-disposition") {
            Some(cd) => get_content_disposition_filename(cd),
            None => Ok(None),
        }
    }

    /// The media type that the `content-type` header declares, if it declares
    /// one that can be read.
    pub fn content_type(&self) -> (r: Option<Mime>)
        ensures
            r == lenient_type(self@.headers),
    {
        match read_content_type(&self.headers) {
            Ok(m) => m,
            Err(_) => None,
        }
    }
}

/// One part of a multipart body: kept in memory, kept as a file, or itself a
/// container of parts.
#[derive(Debug)]
pub enum Node {
    /// A part in memory.
    Part(Part),
    /// A part that is a file.
    File(FilePart),
    /// A container: its headers, and the parts in it.
    Multipart((HeaderMap, Vec<Node>)),
}

/// What a [`Node`] stands for.
pub enum NodeView {
    /// A part in memory.
    Part { headers: Entries, body: Seq<u8> },
    /// A part that is a file.
    File {
        headers: Entries,
        path: Seq<char>,
        size: Option<usize>,
        contents: Seq<u8>,
        tempdir: Option<Seq<char>>,
    },
    /// A container of parts.
    Multipart { headers: Entries, children: Seq<NodeView> },
}

/// What a node stands for.
pub open spec fn node_view(node: Node) -> NodeView
    decreases node,
{
    match node {
        Node::Part(part) => NodeView::Part {
            headers: header_entries(part.headers),
            body: part.body@,
        },
        Node::File(file) => NodeView::File {
            headers: file@.headers,
            path: file@.path,
            size: file@.size,
            contents: file@.contents,
            tempdir: file@.tempdir,
        },
        Node::Multipart((headers, children)) => NodeView::Multipart {
            headers: header_entries(headers),
            children: nodes_view(children@),
        },
    }
}

/// What a sequence of nodes stands for.
pub open spec fn nodes_view(nodes: Seq<Node>) -> Seq<NodeView>
    decreases nodes,
{
    Seq::new(
        nodes.len(),
        |i: int|
            if 0 <= i < nodes.len() {
                node_view(nodes[i])
            } else {
                arbitrary()
            },
    )
}

/// Copies of the nodes, in their order.
fn clone_nodes(nodes: &Vec<Node>) -> (r: Vec<Node>)
    ensures
        nodes_view(r@) == nodes_view(nodes@),
    decreases nodes,
{
    let mut copies: Vec<Node> = Vec::new();
    let mut i: usize = 0;
    while i < nodes.len()
        invariant
            i <= nodes.len(),
            copies.len() == i,
            forall|j: int| 0 <= j < i ==> node_view(#[trigger] copies@[j]) == node_view(nodes@[j]),
        decreases nodes.len() - i,
    {
        let copy = nodes[i].clone();
        copies.push(copy);
        i = i + 1;
    }
    assert(nodes_view(copies@) =~= nodes_view(nodes@));
    copies
}

impl Clone for Node {
    /// A copy of the node and of all that is in it.
    fn clone(&self) -> (r: Node)
        ensures
            node_view(r) == node_view(*self),
        decreases self,
    {
        match self {
            Node::Part(part) => Node::Part(part.clone()),
            Node::File(file) => Node::File(file.clone()),
            Node::Multipart((headers, children)) => Node::Multipart(
                (clone_headers(headers), clone_nodes(children)),
            ),
        }
    }
}

impl View for Node {
    type V = NodeView;

    open spec fn view(&self) -> NodeView {
        node_view(*self)
    }
}

} // verus!
