//! The header collection: an ordered multimap from lower-case names to values.
//!
//! The collection itself is `http::header::HeaderMap`. What it holds is
//! modelled by [`header_entries`]: the pairs of name and value in the order in
//! which the map is walked. The functions of this module say what the map's
//! methods do to that sequence.

use vstd::prelude::*;
use http::header::{HeaderMap, HeaderName, HeaderValue, ToStrError};
use crate::bytes::{ascii_bytes, ascii_text};

verus! {

/// `http::header::HeaderMap`, the header collection. Its fields are private:
/// what a map holds is [`header_entries`].
#[verifier::external_type_specification]
#[verifier::external_body]
#[verifier::reject_recursive_types(T)]
pub struct ExHeaderMap<T>(HeaderMap<T>);

/// `http::header::HeaderValue`, the value of one header. What it holds is
/// [`value_bytes`].
#[verifier::external_type_specification]
#[verifier::external_body]
pub struct ExHeaderValue(HeaderValue);

/// `http::header::HeaderName`, the name of one header. What it holds is
/// [`name_bytes`].
#[verifier::external_type_specification]
#[verifier::external_body]
pub struct ExHeaderName(HeaderName);

/// The headers as a sequence of pairs.
pub type Entries = Seq<(Seq<u8>, Seq<u8>)>;

/// The pairs of name and value that a map holds, in the order in which
/// `HeaderMap::iter` yields them. Version 1.5 of the crate walks the names in
/// the order in which they came in, and with each name all of its values.
pub uninterp spec fn header_entries(m: HeaderMap<HeaderValue>) -> Seq<(Seq<u8>, Seq<u8>)>;

/// The bytes of a header value, as `HeaderValue::as_bytes` returns them.
pub uninterp spec fn value_bytes(v: HeaderValue) -> Seq<u8>;

/// The bytes of a header name, as `HeaderName::as_str` returns them.
pub uninterp spec fn name_bytes(n: HeaderName) -> Seq<u8>;

/// Pairs of byte vectors as pairs of byte sequences.
pub open spec fn pairs_view(pairs: Seq<(Vec<u8>, Vec<u8>)>) -> Entries {
    Seq::new(pairs.len(), |i: int| (pairs[i].0@, pairs[i].1@))
}

/// The most pairs that this library puts into one map. The map itself
/// panics where its table would have to grow beyond 32,768 slots, which takes
/// some thousands of names more than this.
pub const MAX_HEADERS: usize = 4096;

/// A byte that may stand in a header value: no control character but the tab.
pub open spec fn value_byte(b: u8) -> bool {
    b >= 32 && b != 127 || b == 9
}

/// A byte of a header value that reads as text: visible ASCII, or the tab.
pub open spec fn visible_byte(b: u8) -> bool {
    b >= 32 && b < 127 || b == 9
}

/// Every byte may stand in a header value.
pub open spec fn valid_value(bytes: Seq<u8>) -> bool {
    forall|i: int| 0 <= i < bytes.len() ==> value_byte(#[trigger] bytes[i])
}

/// Every byte reads as text.
pub open spec fn visible(bytes: Seq<u8>) -> bool {
    forall|i: int| 0 <= i < bytes.len() ==> visible_byte(#[trigger] bytes[i])
}

/// A byte of a header name as the map stores it: a letter in lower case, any
/// other token character as it is, and 0 for a byte that no name admits.
pub open spec fn name_byte(b: u8) -> u8 {
    if 65 <= b <= 90 {
        (b + 32) as u8
    } else if 97 <= b <= 122 || 48 <= b <= 57 {
        b
    } else if b == 33 || (35 <= b <= 39) || b == 42 || b == 43 || b == 45 || b == 46
        || (94 <= b <= 96) || b == 124 || b == 126 {
        b
    } else {
        0
    }
}

/// A header name: between 1 and 65,535 token characters.
pub open spec fn valid_name(bytes: Seq<u8>) -> bool {
    &&& 1 <= bytes.len() <= 65535
    &&& forall|i: int| 0 <= i < bytes.len() ==> name_byte(#[trigger] bytes[i]) != 0
}

/// A header name with its letters in lower case.
pub open spec fn lower_name(bytes: Seq<u8>) -> Seq<u8> {
    Seq::new(bytes.len(), |i: int| name_byte(bytes[i]))
}

/// Every pair has a header name and a header value, as the map's own types
/// see to.
pub open spec fn valid_entries(entries: Entries) -> bool {
    forall|i: int|
        0 <= i < entries.len() ==> valid_name((#[trigger] entries[i]).0) && valid_value(
            entries[i].1,
        )
}

/// A key for a lookup: between 1 and 64 lower-case letters and hyphens.
pub open spec fn plain_key(key: Seq<char>) -> bool {
    &&& 1 <= key.len() <= 64
    &&& forall|i: int| 0 <= i < key.len() ==> {
        let c = #[trigger] key[i];
        ('a' <= c && c <= 'z') || c == '-'
    }
}

/// The index of the last pair named `name`, or -1 where no pair has that
/// name.
pub open spec fn last_named(entries: Entries, name: Seq<u8>) -> int
    decreases entries.len(),
{
    if entries.len() == 0 {
        -1
    } else if entries.last().0 == name {
        entries.len() - 1
    } else {
        last_named(entries.drop_last(), name)
    }
}

/// The index of the first pair named `name`, or the length where no pair has
/// that name.
pub open spec fn first_named(entries: Entries, name: Seq<u8>) -> int
    decreases entries.len(),
{
    if entries.len() == 0 {
        0
    } else if entries[0].0 == name {
        0
    } else {
        1 + first_named(entries.subrange(1, entries.len() as int), name)
    }
}

/// The value of the first pair named `name`.
pub open spec fn first_value(entries: Entries, name: Seq<u8>) -> Option<Seq<u8>> {
    let i = first_named(entries, name);
    if 0 <= i < entries.len() {
        Some(entries[i].1)
    } else {
        None
    }
}

/// The entries after one more pair was appended: the values of one name stay
/// together, so the pair goes behind the last pair of its name, and to the
/// end where the name is new.
pub open spec fn appended(entries: Entries, name: Seq<u8>, value: Seq<u8>) -> Entries {
    let at = last_named(entries, name);
    if at >= 0 {
        entries.insert(at + 1, (name, value))
    } else {
        entries.push((name, value))
    }
}

/// `last_named` is an index of the entries, or -1.
pub proof fn lemma_last_named_bounds(entries: Entries, name: Seq<u8>)
    ensures
        -1 <= last_named(entries, name) < entries.len(),
        last_named(entries, name) >= 0 ==> entries[last_named(entries, name)].0 == name,
    decreases entries.len(),
{
    if entries.len() > 0 && entries.last().0 != name {
        lemma_last_named_bounds(entries.drop_last(), name);
    }
}

/// Appending adds one pair.
pub proof fn lemma_appended_len(entries: Entries, name: Seq<u8>, value: Seq<u8>)
    ensures
        appended(entries, name, value).len() == entries.len() + 1,
{
    lemma_last_named_bounds(entries, name);
}

/// `HeaderMap::new`: the map holds nothing.
pub assume_specification[ HeaderMap::<HeaderValue>::new ]() -> (m: HeaderMap<HeaderValue>)
    ensures
        header_entries(m) == Seq::<(Seq<u8>, Seq<u8>)>::empty(),
;

/// `HeaderValue::as_bytes`: the bytes of the value.
pub assume_specification[ HeaderValue::as_bytes ](v: &HeaderValue) -> (b: &[u8])
    ensures
        b@ == value_bytes(*v),
;

/// `HeaderMap::clone` on a map of header values, which `derive` wrote: the
/// copy holds the same pairs in the same order.
#[verifier::external_body]
pub(crate) fn clone_headers(m: &HeaderMap) -> (r: HeaderMap)
    ensures
        header_entries(r) == header_entries(*m),
{
    m.clone()
}

/// `HeaderMap::append`: the pair joins the values of its name, behind those
/// that are there, or becomes the last pair where the name is new. The result
/// tells whether the name was there. The map panics where its table would
/// have to grow past its limit, which a map of fewer than `MAX_HEADERS` pairs
/// is far from.
#[verifier::external_body]
pub(crate) fn append_header(m: &mut HeaderMap, name: HeaderName, value: HeaderValue) -> (existed: bool)
    requires
        header_entries(*old(m)).len() < MAX_HEADERS,
    ensures
        header_entries(*final(m)) == appended(
            header_entries(*old(m)),
            name_bytes(name),
            value_bytes(value),
        ),
        existed == (last_named(header_entries(*old(m)), name_bytes(name)) >= 0),
{
    m.append(name, value)
}

/// `HeaderMap::get` with a `&str` key: the first value stored under the key.
/// A key of lower-case letters and hyphens is a header name as it stands, so
/// the lookup compares it with the stored names byte for byte.
#[verifier::external_body]
pub(crate) fn get_header<'a>(m: &'a HeaderMap, key: &str) -> (r: Option<&'a HeaderValue>)
    requires
        plain_key(key@),
    ensures
        match r {
            Some(v) => first_value(header_entries(*m), ascii_bytes(key@)) == Some(value_bytes(*v)),
            None => first_value(header_entries(*m), ascii_bytes(key@)) is None,
        },
{
    m.get(key)
}

/// `HeaderMap::iter`, each pair copied out as bytes: the name as
/// `HeaderName::as_str` gives it, the value as `HeaderValue::as_bytes` does.
#[verifier::external_body]
pub(crate) fn header_pairs(m: &HeaderMap) -> (r: Vec<(Vec<u8>, Vec<u8>)>)
    ensures
        pairs_view(r@) == header_entries(*m),
{
    m.iter().map(|(k, v)| (k.as_str().as_bytes().to_vec(), v.as_bytes().to_vec())).collect()
}

/// `HeaderValue::from_bytes`: a value of exactly these bytes, unless one of
/// them is a control character other than the tab.
#[verifier::external_body]
pub(crate) fn make_value(bytes: &[u8]) -> (r: Option<HeaderValue>)
    ensures
        r is Some <==> valid_value(bytes@),
        r matches Some(v) ==> value_bytes(v) == bytes@,
{
    HeaderValue::from_bytes(bytes).ok()
}

/// `HeaderName::from_bytes`: the name in lower case, unless it is empty, too
/// long, or holds a byte that is no token character.
#[verifier::external_body]
pub(crate) fn make_name(bytes: &[u8]) -> (r: Option<HeaderName>)
    ensures
        r is Some <==> valid_name(bytes@),
        r matches Some(n) ==> name_bytes(n) == lower_name(bytes@),
{
    HeaderName::from_bytes(bytes).ok()
}

/// `HeaderValue::to_str`: the value as text, one character for each byte,
/// unless a byte is neither visible ASCII nor the tab.
#[verifier::external_body]
pub(crate) fn value_text<'a>(v: &'a HeaderValue) -> (r: Result<&'a str, ToStrError>)
    ensures
        r is Ok <==> visible(value_bytes(*v)),
        r matches Ok(s) ==> s@ == ascii_text(value_bytes(*v)),
{
    v.to_str()
}

} // verus!
