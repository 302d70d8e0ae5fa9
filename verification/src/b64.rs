//! The transport encoding of the protocol: standard padded base64, supplied
//! by the `base64` crate and described here by the name `b64_of`.

use vstd::prelude::*;

use base64::Engine;

use crate::text::plain_char;

verus! {

/// The canonical standard-alphabet, padded base64 text of a byte sequence.
pub uninterp spec fn b64_of(data: Seq<u8>) -> Seq<char>;

/// A character of the standard base64 alphabet, or the padding sign.
pub open spec fn b64_char(c: char) -> bool {
    ||| 'A' <= c <= 'Z'
    ||| 'a' <= c <= 'z'
    ||| '0' <= c <= '9'
    ||| c == '+'
    ||| c == '/'
    ||| c == '='
}

pub broadcast proof fn lemma_b64_char_plain(c: char)
    requires
        #[trigger] b64_char(c),
    ensures
        plain_char(c),
{
}

/// Relies on the `base64` crate's `STANDARD` engine `encode`: the canonical
/// padded encoding of the bytes, over the standard alphabet.
#[verifier::external_body]
pub(crate) fn b64_encode(data: &[u8]) -> (r: String)
    ensures
        r@ == b64_of(data@),
        forall|i: int| 0 <= i < r@.len() ==> b64_char(#[trigger] r@[i]),
        data@.len() > 0 ==> r@.len() > 0,
{
    base64::engine::general_purpose::STANDARD.encode(data)
}

/// Relies on the `base64` crate's `STANDARD` engine `decode`: it requires
/// canonical padding and rejects non-zero trailing bits, so it succeeds on
/// exactly the texts `encode` produces and inverts it there.
#[verifier::external_body]
pub(crate) fn b64_decode(s: &str) -> (r: Option<Vec<u8>>)
    ensures
        match r {
            Some(b) => s@ == b64_of(b@),
            None => true,
        },
        forall|b: Seq<u8>| s@ == b64_of(b) ==> r is Some && r->0@ == b,
{
    match base64::engine::general_purpose::STANDARD.decode(s) {
        Ok(b) => Some(b),
        Err(_) => None,
    }
}

} // verus!
