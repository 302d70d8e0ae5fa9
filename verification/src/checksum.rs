//! The activation-key checksum: the 16-bit X.25 (IBM-SDLC) CRC of the
//! plaintext, rendered as four uppercase hexadecimal digits.

use vstd::prelude::*;

verus! {

use crate::text::{hex4_chars, hex4_bytes, lemma_hex4_ascii, plain_chars, utf8_to_string};

/// The CRC-16/IBM-SDLC (X.25 polynomial) checksum of a byte sequence.
pub uninterp spec fn crc16_x25(data: Seq<u8>) -> u16;

/// Relies on the `crc` crate's `CRC_16_IBM_SDLC` algorithm: a checksum that
/// is a function of the bytes alone.
#[verifier::external_body]
pub(crate) fn crc16_checksum(data: &[u8]) -> (r: u16)
    ensures
        r == crc16_x25(data@),
{
    crc::Crc::<u16>::new(&crc::CRC_16_IBM_SDLC).checksum(data)
}

/// The activation key of a plaintext: its checksum as four uppercase
/// hexadecimal digits.
pub open spec fn actokey_of(data: Seq<u8>) -> Seq<char> {
    hex4_chars(crc16_x25(data))
}

/// Computes the activation key text of a plaintext.
pub fn actokey_text(data: &[u8]) -> (r: String)
    ensures
        r@ == actokey_of(data@),
        r@.len() == 4,
        plain_chars(r@),
{
    let c = crc16_checksum(data);
    let digits = hex4_bytes(c);
    proof {
        lemma_hex4_ascii(c);
    }
    utf8_to_string(digits.as_slice())
}

} // verus!
