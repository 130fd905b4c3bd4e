//! The header block parser: from the raw bytes of a block of headers, which
//! a blank line ends, to the header collection.

use vstd::prelude::*;
use vstd::slice::slice_subrange;
use http::header::HeaderMap;
use httparse::Error as HttparseError;
use crate::error::{Error, ErrorKind};
use crate::headers::{
    append_header, appended, header_entries, lemma_appended_len, lower_name, make_name,
    make_value, name_byte, pairs_view, valid_name, valid_value, Entries, MAX_HEADERS,
};
use crate::write::{crlf, header_line, header_lines};

verus! {

/// What `httparse::parse_headers` makes of a block, given room for
/// `capacity` headers: the pairs of name and value in the order of the block,
/// `None` where the block is incomplete, or the tokenizer's error.
pub uninterp spec fn tokenized(block: Seq<u8>, capacity: usize) -> Result<
    Option<Seq<(Seq<u8>, Seq<u8>)>>,
    HttparseError,
>;

/// Headers that stand on their lines without any play: each name is made of
/// token characters, and each value of bytes that a value admits, with no
/// space or tab at its beginning or at its end; neither is empty.
pub open spec fn plain(entries: Entries) -> bool {
    forall|i: int|
        0 <= i < entries.len() ==> {
            let (name, value) = #[trigger] entries[i];
            &&& name.len() >= 1
            &&& forall|j: int| 0 <= j < name.len() ==> name_byte(#[trigger] name[j]) != 0
            &&& value.len() >= 1
            &&& valid_value(value)
            &&& value[0] != 32 && value[0] != 9
            &&& value.last() != 32 && value.last() != 9
        }
}

/// The block that is made of headers: each on a line of its own, as the
/// writer puts it, and a blank line behind the last.
pub open spec fn written(entries: Entries) -> Seq<u8> {
    header_lines(false, entries, entries.len()) + crlf()
}

/// The tokenizer found these headers and no others.
pub open spec fn finds(
    found: Result<Option<Vec<(Vec<u8>, Vec<u8>)>>, HttparseError>,
    entries: Entries,
) -> bool {
    found matches Ok(Some(v)) && pairs_view(v@) == entries
}

/// `httparse::parse_headers`, with room for `capacity` headers: each header
/// found is copied out as the bytes of its name and of its value. The headers
/// found never outnumber the room given. The room is allocated, so it has to
/// be of a size that can be.
///
/// Of a block that is made of plain headers, each on a line of its own as
/// name, colon, space, value and line terminator, with a blank line behind
/// the last, the tokenizer finds these names and values and no others, as
/// long as it has room for them: it takes the token characters up to the
/// colon as the name, passes over the space, and takes the bytes up to the
/// line terminator as the value, from which it has nothing to trim.
#[verifier::external_body]
pub(crate) fn tokenize(block: &[u8], capacity: usize) -> (r: Result<
    Option<Vec<(Vec<u8>, Vec<u8>)>>,
    HttparseError,
>)
    requires
        capacity <= MAX_HEADERS,
    ensures
        match tokenized(block@, capacity) {
            Ok(Some(found)) => r matches Ok(Some(v)) && pairs_view(v@) == found && found.len()
                <= capacity,
            Ok(None) => r matches Ok(None),
            Err(e) => r matches Err(x) && x == e,
        },
        forall|entries: Entries|
            plain(entries) && entries.len() <= capacity && block@ == written(entries) ==> (
            #[trigger] finds(r, entries)),
{
    let mut slots = Vec::new();
    slots.resize(capacity, httparse::EMPTY_HEADER);
    match httparse::parse_headers(block, &mut slots) {
        Ok(httparse::Status::Complete((_, found))) => Ok(
            Some(found.iter().map(|h| (h.name.as_bytes().to_vec(), h.value.to_vec())).collect()),
        ),
        Ok(httparse::Status::Partial) => Ok(None),
        Err(e) => Err(e),
    }
}

/// A value without the spaces at its end.
pub open spec fn trimmed(value: Seq<u8>) -> Seq<u8>
    decreases value.len(),
{
    if value.len() > 0 && value.last() == 32 {
        trimmed(value.drop_last())
    } else {
        value
    }
}

/// The headers collected from the tokens `raw[i..]`, on top of `acc`.
///
/// A token with an empty value ends the collection. Every other token is
/// appended with its name in lower case and its value trimmed, and fails the
/// whole block where either is not valid.
pub open spec fn collected(raw: Entries, i: int, acc: Entries) -> Result<Entries, ErrorKind>
    decreases raw.len() - i,
{
    if i < 0 || i >= raw.len() {
        Ok(acc)
    } else if raw[i].1.len() == 0 {
        Ok(acc)
    } else if !valid_value(trimmed(raw[i].1)) || !valid_name(raw[i].0) {
        Err(ErrorKind::InvalidHeaderNameOrValue)
    } else {
        collected(raw, i + 1, appended(acc, lower_name(raw[i].0), trimmed(raw[i].1)))
    }
}

/// The room that the tokenizer gets for the headers of a block: one header
/// for each byte, which is more than a block can hold, but no more than the
/// collection takes.
pub open spec fn room(block: Seq<u8>) -> usize {
    if block.len() < MAX_HEADERS {
        block.len() as usize
    } else {
        MAX_HEADERS
    }
}

/// What is known of the tokenizer on a block once it has tokenized it: if
/// the block is made of the lines of plain headers, no more than the
/// collection takes, then these headers are what it finds there.
pub open spec fn tokens_kept(block: Seq<u8>) -> bool {
    forall|entries: Entries|
        #![trigger plain(entries)]
        plain(entries) && entries.len() <= MAX_HEADERS && block == written(entries) ==> found_by(
            block,
            entries,
        )
}

/// The tokenizer, with the room that a block gets, finds these headers in
/// the block and no others.
pub open spec fn found_by(block: Seq<u8>, entries: Entries) -> bool {
    tokenized(block, room(block)) matches Ok(Some(tokens)) && tokens == entries
}

/// Lines hold at least one byte for each header.
pub proof fn lemma_lines_len(entries: Entries, n: nat)
    requires
        n <= entries.len(),
    ensures
        header_lines(false, entries, n).len() >= n,
    decreases n,
{
    if n > 0 {
        lemma_lines_len(entries, (n - 1) as nat);
        assert(header_line(false, entries[n - 1]).len() >= 1);
    }
}

/// The headers of a block.
pub open spec fn header_block(block: Seq<u8>) -> Result<Entries, ErrorKind> {
    match tokenized(block, room(block)) {
        Err(_) => Err(ErrorKind::Httparse),
        Ok(None) => Err(ErrorKind::PartialHeaders),
        Ok(Some(raw)) => collected(raw, 0, Seq::empty()),
    }
}

/// The length of a value without the spaces at its end.
fn trimmed_len(value: &[u8]) -> (n: usize)
    ensures
        n <= value@.len(),
        value@.subrange(0, n as int) == trimmed(value@),
{
    let mut n: usize = value.len();
    assert(value@.subrange(0, n as int) =~= value@);
    while n > 0 && value[n - 1] == 32
        invariant
            n <= value@.len(),
            trimmed(value@) == trimmed(value@.subrange(0, n as int)),
        decreases n,
    {
        assert(value@.subrange(0, n as int).drop_last() =~= value@.subrange(0, n - 1));
        n = n - 1;
    }
    n
}

/// Parses a block of headers, which ends with a blank line, into a header
/// collection.
///
/// The block may hold any number of headers that the collection takes: the
/// tokenizer refuses a block of more than `MAX_HEADERS`.
pub fn parse_headers(block: &[u8]) -> (r: Result<HeaderMap, Error>)
    ensures
        match header_block(block@) {
            Ok(entries) => r matches Ok(m) && header_entries(m) == entries,
            Err(k) => r matches Err(e) && e.kind() == k,
        },
        tokens_kept(block@),
{
    let capacity: usize = if block.len() < MAX_HEADERS {
        block.len()
    } else {
        MAX_HEADERS
    };
    let found = tokenize(block, capacity);
    proof {
        assert forall|entries: Entries|
            #![trigger plain(entries)]
            plain(entries) && entries.len() <= MAX_HEADERS && block@ == written(
                entries,
            ) implies found_by(block@, entries) by {
            lemma_lines_len(entries, entries.len());
            assert(finds(found, entries));
        }
    }
    let raw = match found {
        Err(e) => {
            return Err(Error::Httparse(e));
        },
        Ok(None) => {
            return Err(Error::PartialHeaders);
        },
        Ok(Some(raw)) => raw,
    };
    let ghost tokens = pairs_view(raw@);
    let mut headers = HeaderMap::new();
    let mut i: usize = 0;
    while i < raw.len()
        invariant
            i <= raw.len(),
            raw.len() <= capacity <= MAX_HEADERS,
            tokens == pairs_view(raw@),
            tokens_kept(block@),
            header_entries(headers).len() <= i,
            header_block(block@) == collected(tokens, i as int, header_entries(headers)),
        decreases raw.len() - i,
    {
        let name: &[u8] = raw[i].0.as_slice();
        let value: &[u8] = raw[i].1.as_slice();
        assert(tokens[i as int] == (name@, value@));
        if value.len() == 0 {
            return Ok(headers);
        }
        let kept = trimmed_len(value);
        let header_value = match make_value(slice_subrange(value, 0, kept)) {
            Some(v) => v,
            None => {
                return Err(Error::InvalidHeaderNameOrValue);
            },
        };
        let header_name = match make_name(name) {
            Some(n) => n,
            None => {
                return Err(Error::InvalidHeaderNameOrValue);
            },
        };
        proof {
            lemma_appended_len(header_entries(headers), lower_name(name@), trimmed(value@));
        }
        append_header(&mut headers, header_name, header_value);
        i = i + 1;
    }
    Ok(headers)
}

} // verus!
