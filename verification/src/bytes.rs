//! Byte sequences: where a token occurs in them, and how they read as text.

use vstd::prelude::*;
use vstd::string::{is_ascii, is_ascii_spec_bytes};

verus! {

/// `token` stands in `data` at index `i`.
pub open spec fn matches_at(data: Seq<u8>, token: Seq<u8>, i: int) -> bool {
    &&& 0 <= i
    &&& i + token.len() <= data.len()
    &&& data.subrange(i, i + token.len()) == token
}

/// `i` is the index of the first occurrence of `token` in `data`.
pub open spec fn first_match(data: Seq<u8>, token: Seq<u8>, i: int) -> bool {
    &&& matches_at(data, token, i)
    &&& forall|j: int| 0 <= j < i ==> !#[trigger] matches_at(data, token, j)
}

/// `token` occurs nowhere in `data`.
pub open spec fn absent(data: Seq<u8>, token: Seq<u8>) -> bool {
    forall|j: int| !#[trigger] matches_at(data, token, j)
}

/// The index of the first occurrence of `token` in `data`, if it occurs.
#[verifier::opaque]
pub open spec fn find(data: Seq<u8>, token: Seq<u8>) -> Option<int> {
    if exists|i: int| first_match(data, token, i) {
        Some(choose|i: int| first_match(data, token, i))
    } else {
        None
    }
}

/// `token` occurs somewhere in `data`.
pub open spec fn contains(data: Seq<u8>, token: Seq<u8>) -> bool {
    exists|i: int| matches_at(data, token, i)
}

/// `data` begins with `prefix`.
pub open spec fn starts_with(data: Seq<u8>, prefix: Seq<u8>) -> bool {
    matches_at(data, prefix, 0)
}

/// `data` ends with `tail`.
pub open spec fn ends_with(data: Seq<u8>, tail: Seq<u8>) -> bool {
    &&& tail.len() <= data.len()
    &&& data.subrange(data.len() - tail.len(), data.len() as int) == tail
}

/// What is left of `data` behind the first `n` bytes.
pub open spec fn skip(data: Seq<u8>, n: int) -> Seq<u8> {
    data.subrange(n, data.len() as int)
}

/// The data in front of the first occurrence of `token`, and the data behind
/// it.
pub open spec fn cut(data: Seq<u8>, token: Seq<u8>) -> Option<(Seq<u8>, Seq<u8>)> {
    match find(data, token) {
        Some(i) => Some((data.subrange(0, i), skip(data, i + token.len()))),
        None => None,
    }
}

/// Bytes read as text, one character for each byte.
pub open spec fn ascii_text(bytes: Seq<u8>) -> Seq<char> {
    Seq::new(bytes.len(), |i: int| bytes[i] as char)
}

/// Text written as bytes, one byte for each character.
pub open spec fn ascii_bytes(text: Seq<char>) -> Seq<u8> {
    Seq::new(text.len(), |i: int| text[i] as u8)
}

/// A first occurrence is the only first occurrence.
pub proof fn lemma_first_match_unique(data: Seq<u8>, token: Seq<u8>, i: int, k: int)
    requires
        first_match(data, token, i),
        first_match(data, token, k),
    ensures
        i == k,
{
    if i < k {
        assert(matches_at(data, token, i));
    } else if k < i {
        assert(matches_at(data, token, k));
    }
}

/// `find` returns the first occurrence, whichever way it was found.
pub proof fn lemma_find_first(data: Seq<u8>, token: Seq<u8>, i: int)
    requires
        first_match(data, token, i),
    ensures
        find(data, token) == Some(i),
{
    reveal(find);
    let k = choose|k: int| first_match(data, token, k);
    lemma_first_match_unique(data, token, i, k);
}

/// An occurrence at `i` bounds a first occurrence from above.
pub proof fn lemma_first_match_exists(data: Seq<u8>, token: Seq<u8>, i: int)
    requires
        matches_at(data, token, i),
    ensures
        exists|k: int| 0 <= k <= i && first_match(data, token, k),
    decreases i,
{
    if exists|j: int| 0 <= j < i && matches_at(data, token, j) {
        let j = choose|j: int| 0 <= j < i && matches_at(data, token, j);
        lemma_first_match_exists(data, token, j);
    } else {
        assert(first_match(data, token, i));
    }
}

/// `find` fails exactly where the token is absent.
pub proof fn lemma_find_none(data: Seq<u8>, token: Seq<u8>)
    ensures
        find(data, token) is None <==> absent(data, token),
        find(data, token) is Some <==> contains(data, token),
{
    reveal(find);
    if exists|i: int| matches_at(data, token, i) {
        let i = choose|i: int| matches_at(data, token, i);
        lemma_first_match_exists(data, token, i);
    }
    if exists|i: int| first_match(data, token, i) {
        let i = choose|i: int| first_match(data, token, i);
        assert(matches_at(data, token, i));
    }
}

/// What `find` returns, said without `choose`.
pub proof fn lemma_find(data: Seq<u8>, token: Seq<u8>)
    ensures
        match find(data, token) {
            Some(i) => first_match(data, token, i),
            None => absent(data, token),
        },
{
    reveal(find);
    lemma_find_none(data, token);
}

/// A cut takes the data apart: what is in front of the token, the token, and
/// what is behind it.
pub proof fn lemma_cut(data: Seq<u8>, token: Seq<u8>)
    ensures
        match cut(data, token) {
            Some((front, back)) => {
                &&& data == front + token + back
                &&& front.len() + token.len() + back.len() == data.len()
            },
            None => absent(data, token),
        },
{
    lemma_find(data, token);
    match find(data, token) {
        Some(i) => {
            let front = data.subrange(0, i);
            let back = skip(data, i + token.len());
            assert(data.subrange(i, i + token.len()) == token);
            assert(data =~= front + token + back);
        },
        None => {},
    }
}

/// The end of an end is an end.
pub proof fn lemma_ends_with_end(data: Seq<u8>, tail: Seq<u8>, end: Seq<u8>)
    requires
        ends_with(data, tail),
        ends_with(tail, end),
    ensures
        ends_with(data, end),
{
    assert(data.subrange(data.len() - end.len(), data.len() as int) =~= tail.subrange(
        tail.len() - end.len(),
        tail.len() as int,
    ));
}

/// What a cut leaves behind the token is an end of the data.
pub proof fn lemma_cut_leaves_end(data: Seq<u8>, token: Seq<u8>)
    ensures
        cut(data, token) matches Some((_, back)) ==> ends_with(data, back),
        ends_with(data, data),
        ends_with(data, Seq::<u8>::empty()),
{
    lemma_cut(data, token);
    assert(data.subrange(0, data.len() as int) =~= data);
    assert(data.subrange(data.len() as int, data.len() as int) =~= Seq::<u8>::empty());
    if let Some((front, back)) = cut(data, token) {
        assert(data.subrange(data.len() - back.len(), data.len() as int) =~= back);
    }
}

/// More data behind the data does not move the first occurrence of a token:
/// the cut leaves the same in front and the more behind.
pub proof fn lemma_cut_with_more(data: Seq<u8>, token: Seq<u8>, more: Seq<u8>)
    ensures
        cut(data, token) matches Some((front, back)) ==> cut(data + more, token) == Some(
            (front, back + more),
        ),
{
    lemma_find(data, token);
    if let Some(i) = find(data, token) {
        let longer = data + more;
        assert(longer.subrange(i, i + token.len()) =~= data.subrange(i, i + token.len()));
        assert forall|j: int| 0 <= j < i implies !#[trigger] matches_at(longer, token, j) by {
            if matches_at(longer, token, j) {
                assert(longer.subrange(j, j + token.len()) =~= data.subrange(j, j + token.len()));
                assert(matches_at(data, token, j));
            }
        }
        assert(first_match(longer, token, i));
        lemma_find_first(longer, token, i);
        assert(longer.subrange(0, i) =~= data.subrange(0, i));
        assert(skip(longer, i + token.len()) =~= skip(data, i + token.len()) + more);
    }
}

/// A token at the front of the data is its first occurrence.
pub proof fn lemma_cut_at_front(token: Seq<u8>, back: Seq<u8>)
    ensures
        cut(token + back, token) == Some((Seq::<u8>::empty(), back)),
{
    let data = token + back;
    assert(data.subrange(0, token.len() as int) =~= token);
    assert(first_match(data, token, 0));
    lemma_find_first(data, token, 0);
    assert(data.subrange(0, 0) =~= Seq::<u8>::empty());
    assert(skip(data, token.len() as int) =~= back);
}

/// Where the first occurrence of the token in `front + token` is the one at
/// the end, a cut of `front + token + back` gives `front` and `back`.
pub proof fn lemma_cut_behind(front: Seq<u8>, token: Seq<u8>, back: Seq<u8>)
    requires
        first_match(front + token, token, front.len() as int),
    ensures
        cut(front + token + back, token) == Some((front, back)),
{
    let short = front + token;
    let data = front + token + back;
    let at = front.len() as int;
    assert(data.subrange(at, at + token.len()) =~= token);
    assert forall|j: int| 0 <= j < at implies !#[trigger] matches_at(data, token, j) by {
        if matches_at(data, token, j) {
            assert(short.subrange(j, j + token.len()) =~= data.subrange(j, j + token.len()));
            assert(matches_at(short, token, j));
        }
    }
    assert(first_match(data, token, at));
    lemma_find_first(data, token, at);
    assert(data.subrange(0, at) =~= front);
    assert(skip(data, at + token.len()) =~= back);
}

/// Tells whether `token` stands in `data` at index `i`.
pub(crate) fn token_at(data: &[u8], token: &[u8], i: usize) -> (r: bool)
    ensures
        r == matches_at(data@, token@, i as int),
{
    if token.len() > data.len() || i > data.len() - token.len() {
        return false;
    }
    let mut k: usize = 0;
    while k < token.len()
        invariant
            k <= token.len(),
            i + token.len() <= data.len(),
            forall|j: int| 0 <= j < k ==> data@[i + j] == token@[j],
        decreases token.len() - k,
    {
        if data[i + k] != token[k] {
            proof {
                let part = data@.subrange(i as int, i + token@.len());
                assert(part[k as int] == data@[i + k]);
            }
            return false;
        }
        k = k + 1;
    }
    assert(data@.subrange(i as int, i + token@.len()) =~= token@);
    true
}

/// Tells whether two byte strings are the same.
pub(crate) fn same_bytes(a: &[u8], b: &[u8]) -> (r: bool)
    ensures
        r == (a@ == b@),
{
    if a.len() != b.len() {
        return false;
    }
    let r = token_at(a, b, 0);
    assert(a@.subrange(0, a@.len() as int) =~= a@);
    r
}

/// The bytes of a text that is all ASCII.
pub(crate) fn text_bytes(text: &str) -> (r: &[u8])
    requires
        is_ascii(text),
    ensures
        r@ == ascii_bytes(text@),
{
    proof {
        is_ascii_spec_bytes(text);
    }
    let r = text.as_bytes();
    assert(r@ =~= ascii_bytes(text@));
    r
}

/// The index of the first occurrence of `token` in `data`.
pub fn find_bytes(data: &[u8], token: &[u8]) -> (r: Option<usize>)
    ensures
        match r {
            Some(i) => find(data@, token@) == Some(i as int) && i + token@.len() <= data@.len()
                <= usize::MAX,
            None => find(data@, token@) is None,
        },
{
    if token.len() > data.len() {
        proof {
            lemma_find_none(data@, token@);
        }
        return None;
    }
    let last: usize = data.len() - token.len();
    let mut i: usize = 0;
    loop
        invariant
            last == data.len() - token.len(),
            i <= last,
            forall|j: int| 0 <= j < i ==> !#[trigger] matches_at(data@, token@, j),
        decreases last - i,
    {
        if token_at(data, token, i) {
            proof {
                lemma_find_first(data@, token@, i as int);
            }
            return Some(i);
        }
        if i == last {
            proof {
                lemma_find_none(data@, token@);
            }
            return None;
        }
        i = i + 1;
    }
}

} // verus!
