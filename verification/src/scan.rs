//! The token scanner: it moves bytes from a source to a sink until a token
//! turns up.
//!
//! The scanning itself is that of `buf_read_ext`, which holds back the
//! beginning of a token at the end of its input and, on a source that ends
//! there, never writes it. [`scan_until`] writes what was held back.

use vstd::prelude::*;
use vstd::pervasive::unreached;
use vstd::slice::slice_subrange;
use std::io::Error as IoError;
use crate::bytes::{cut, ends_with, lemma_cut_leaves_end};

verus! {

/// The last `w` bytes of `data` are the first `w` bytes of `token`, and `token`
/// is longer than that: the data might end in the middle of the token.
pub open spec fn ends_inside(data: Seq<u8>, token: Seq<u8>, w: int) -> bool {
    &&& 1 <= w < token.len()
    &&& w <= data.len()
    &&& data.subrange(data.len() - w, data.len() as int) == token.subrange(0, w)
}

/// `w` is the number of bytes at the end of `data` that the scanner holds
/// back in case the token goes on behind them: the longest beginning of the
/// token that `data` ends with, and 0 where it ends with none.
pub open spec fn held_back(data: Seq<u8>, token: Seq<u8>, w: int) -> bool {
    &&& w == 0 || ends_inside(data, token, w)
    &&& forall|v: int| v > w ==> !#[trigger] ends_inside(data, token, v)
}

/// What a scan for `token` does to a source that holds `data` and to a sink
/// that holds `before`: the result, what is left in the source, and what the
/// sink holds then.
///
/// Where the token occurs, the bytes in front of its first occurrence go to
/// the sink, the source goes on behind the token, and the result is the
/// number of bytes that went to the sink, with `true`. Where it does not
/// occur the source is used up and the result is its length, with `false`;
/// the sink has got the data but for the bytes held back at its end.
pub open spec fn scanned(
    data: Seq<u8>,
    token: Seq<u8>,
    before: Seq<u8>,
    result: (usize, bool),
    rest: Seq<u8>,
    after: Seq<u8>,
) -> bool {
    match cut(data, token) {
        Some((front, back)) => {
            &&& result == (front.len() as usize, true)
            &&& rest == back
            &&& after == before + front
        },
        None => {
            &&& result == (data.len() as usize, false)
            &&& rest.len() == 0
            &&& exists|w: int| #[trigger]
                held_back(data, token, w) && after == before + data.subrange(0, data.len() - w)
        },
    }
}

/// What a scan leaves in the source is an end of what was there, and what
/// was in the sink stays at its front.
pub proof fn lemma_scanned(
    data: Seq<u8>,
    token: Seq<u8>,
    before: Seq<u8>,
    result: (usize, bool),
    rest: Seq<u8>,
    after: Seq<u8>,
)
    requires
        scanned(data, token, before, result, rest, after),
    ensures
        ends_with(data, rest),
        before.is_prefix_of(after),
{
    lemma_cut_leaves_end(data, token);
    if cut(data, token) is None {
        assert(rest =~= Seq::<u8>::empty());
    }
}

/// `buf_read_ext::BufReadExt::stream_until_token`, with a byte slice as the
/// source and a byte vector as the sink. A slice hands out all of its bytes
/// as one buffer, so the token is looked for in the whole of it; neither the
/// slice nor the vector ever fails, so the result is `Ok`. The outside
/// function panics on an empty token.
#[verifier::external_body]
fn stream_until_token(stream: &mut &[u8], token: &[u8], out: &mut Vec<u8>) -> (r: Result<
    (usize, bool),
    IoError,
>)
    requires
        token@.len() > 0,
    ensures
        r matches Ok(result) && scanned(
            old(stream)@,
            token@,
            old(out)@,
            result,
            final(stream)@,
            final(out)@,
        ),
{
    buf_read_ext::BufReadExt::stream_until_token(stream, token, out)
}

/// What moving the bytes in front of `token` does to a source that holds
/// `data` and to a sink that holds `before`: the result, what is left in the
/// source, and what the sink holds then.
///
/// Where the token occurs, the bytes in front of its first occurrence go to
/// the sink, the source goes on behind the token, and the result is the
/// number of bytes that went to the sink, with `true`. Where it does not
/// occur, all the data goes to the sink, the source is used up, and the
/// result is the length of the data, with `false`.
pub open spec fn moved(
    data: Seq<u8>,
    token: Seq<u8>,
    before: Seq<u8>,
    result: (usize, bool),
    rest: Seq<u8>,
    after: Seq<u8>,
) -> bool {
    match cut(data, token) {
        Some((front, back)) => {
            &&& result == (front.len() as usize, true)
            &&& rest == back
            &&& after == before + front
        },
        None => {
            &&& result == (data.len() as usize, false)
            &&& rest.len() == 0
            &&& after == before + data
        },
    }
}

/// Moves bytes from `stream` to `out` until `token` turns up.
///
/// Returns the number of bytes moved and whether the token was found. The
/// token itself is taken from the stream and not written to `out`. Where the
/// token does not turn up, `out` gets all that the stream held, also the
/// beginning of the token that the stream may end with.
pub fn scan_until(stream: &mut &[u8], token: &[u8], out: &mut Vec<u8>) -> (r: (usize, bool))
    requires
        token@.len() > 0,
    ensures
        moved(old(stream)@, token@, old(out)@, r, final(stream)@, final(out)@),
        ends_with(old(stream)@, final(stream)@),
        old(out)@.is_prefix_of(final(out)@),
{
    let data: &[u8] = *stream;
    let start: usize = out.len();
    match stream_until_token(stream, token, out) {
        Ok(result) => {
            proof {
                lemma_scanned(data@, token@, old(out)@, result, stream@, out@);
            }
            if !result.1 {
                let ghost held = choose|w: int|
                    held_back(data@, token@, w) && out@ == old(out)@ + data@.subrange(
                        0,
                        data@.len() - w,
                    );
                let written: usize = out.len() - start;
                assert(written == data@.len() - held);
                out.extend_from_slice(slice_subrange(data, written, data.len()));
                assert(out@ =~= old(out)@ + data@);
            }
            result
        },
        Err(_) => unreached(),
    }
}

} // verus!
