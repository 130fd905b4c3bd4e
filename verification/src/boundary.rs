//! The boundary generator: a fresh boundary token for a body that is to be
//! written.

use vstd::prelude::*;
use textnonce::TextNonce;

verus! {

/// The length of a generated boundary.
pub const BOUNDARY_LENGTH: usize = 68;

/// A character of the standard base64 alphabet: a letter, a digit, `+` or
/// `/`.
pub open spec fn base64_byte(b: u8) -> bool {
    (65 <= b <= 90) || (97 <= b <= 122) || (48 <= b <= 57) || b == 43 || b == 47
}

/// A byte of a nonce as it stands in a boundary: `-` for `=`, `.` for `/`,
/// and any other byte as it is.
pub open spec fn boundary_byte(b: u8) -> u8 {
    if b == 61 {
        45
    } else if b == 47 {
        46
    } else {
        b
    }
}

/// The boundary made of a nonce, byte for byte.
pub open spec fn boundary_of(nonce: Seq<u8>) -> Seq<u8> {
    Seq::new(nonce.len(), |i: int| boundary_byte(nonce[i]))
}

/// `textnonce::TextNonce::sized`, the text copied out as bytes: a nonce of
/// `length` characters of the standard base64 alphabet, made of the time and
/// of random bytes. It fails where `length` is below 16 or no multiple of 4,
/// and where the clock stands before 1970. The bytes are allocated, so the
/// length has to be one that can be. Where the random source of the
/// operating system fails, the generator panics: that depends on the machine
/// and on no input, as running out of memory does.
#[verifier::external_body]
fn nonce(length: usize) -> (r: Result<Vec<u8>, String>)
    requires
        length <= 4096,
    ensures
        (length < 16 || length % 4 != 0) ==> r is Err,
        r matches Ok(text) ==> text@.len() == length && forall|i: int|
            0 <= i < text@.len() ==> base64_byte(#[trigger] text@[i]),
{
    TextNonce::sized(length).map(|text| text.into_string().into_bytes())
}

/// Makes a boundary of a nonce: `=` becomes `-` and `/` becomes `.`, so that
/// the token can stand in a header and in a file name.
pub fn boundary_from_nonce(nonce: &[u8]) -> (r: Vec<u8>)
    ensures
        r@ == boundary_of(nonce@),
        forall|i: int| 0 <= i < r@.len() ==> #[trigger] r@[i] != 61 && r@[i] != 47,
{
    let mut r: Vec<u8> = Vec::new();
    let mut i: usize = 0;
    while i < nonce.len()
        invariant
            i <= nonce.len(),
            r@ == boundary_of(nonce@.subrange(0, i as int)),
        decreases nonce.len() - i,
    {
        let ch = nonce[i];
        let out: u8 = if ch == 61 {
            45
        } else if ch == 47 {
            46
        } else {
            ch
        };
        r.push(out);
        assert(r@ =~= boundary_of(nonce@.subrange(0, i + 1)));
        i = i + 1;
    }
    assert(nonce@.subrange(0, i as int) =~= nonce@);
    r
}

/// Makes of the outcome of the nonce generator the outcome of the boundary
/// generator: a nonce becomes the boundary made of it, and a failure is
/// handed on as it is.
pub fn boundary_from_outcome(outcome: Result<Vec<u8>, String>) -> (r: Result<Vec<u8>, String>)
    ensures
        match outcome {
            Ok(nonce) => r matches Ok(boundary) && boundary@ == boundary_of(nonce@),
            Err(e) => r == Err::<Vec<u8>, String>(e),
        },
{
    match outcome {
        Ok(nonce) => Ok(boundary_from_nonce(nonce.as_slice())),
        Err(e) => Err(e),
    }
}

/// Generate a boundary that is unlikely to occur in the content of the
/// parts: 68 characters, none of them `=` or `/`.
///
/// The token is made of a nonce of the time and of random bytes. The error is
/// that of the nonce generator.
pub fn generate_boundary() -> (r: Result<Vec<u8>, String>)
    ensures
        r matches Ok(boundary) ==> {
            &&& boundary@.len() == BOUNDARY_LENGTH
            &&& forall|i: int|
                0 <= i < boundary@.len() ==> #[trigger] boundary@[i] != 61 && boundary@[i] != 47
            &&& exists|nonce: Seq<u8>|
                nonce.len() == BOUNDARY_LENGTH && boundary@ == #[trigger] boundary_of(nonce) && (
                forall|i: int| 0 <= i < nonce.len() ==> base64_byte(#[trigger] nonce[i]))
        },
{
    boundary_from_outcome(nonce(BOUNDARY_LENGTH))
}

} // verus!
