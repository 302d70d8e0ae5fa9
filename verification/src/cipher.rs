//! The symmetric cipher of the protocol: AES in ECB mode with a selectable
//! padding scheme, supplied by the `soft-aes` crate and described here by the
//! names `aes_ecb_enc` and `aes_ecb_dec`.

use vstd::prelude::*;

use soft_aes::aes::{aes_dec_ecb, aes_enc_ecb};

verus! {

/// A padding selector the cipher understands: none, PKCS#7, or the 0x80
/// (ISO/IEC 9797-1) scheme.
pub open spec fn pad_wf(p: Option<&str>) -> bool {
    match p {
        None => true,
        Some(s) => s@ == "PKCS7"@ || s@ == "0x80"@,
    }
}

pub open spec fn pad_view(p: Option<&str>) -> Option<Seq<char>> {
    match p {
        None => None,
        Some(s) => Some(s@),
    }
}

/// A padding selector under which encryption accepts every plaintext:
/// both padding schemes always pad up to a block multiple. (With no
/// padding, a plaintext that is not a block multiple is rejected.)
pub open spec fn total_pad(p: Option<Seq<char>>) -> bool {
    p == Some("PKCS7"@) || p == Some("0x80"@)
}

/// The AES-ECB encryption of a plaintext under a key and padding selector;
/// `None` where the cipher rejects the input (a plaintext not a multiple of
/// the block size, with no padding selected).
pub uninterp spec fn aes_ecb_enc(pt: Seq<u8>, key: Seq<u8>, pad: Option<Seq<char>>) -> Option<
    Seq<u8>,
>;

/// The AES-ECB decryption of a ciphertext under a key and padding selector;
/// `None` where the cipher rejects the input (a length not a multiple of the
/// block size, or padding that cannot be removed).
pub uninterp spec fn aes_ecb_dec(ct: Seq<u8>, key: Seq<u8>, pad: Option<Seq<char>>) -> Option<
    Seq<u8>,
>;

/// Relies on `soft_aes::aes::aes_enc_ecb`: deterministic AES-ECB encryption;
/// with a 16-byte key and either padding scheme it accepts every plaintext
/// (both pad up to a block multiple and the pad step rejects only a zero or
/// oversized block size). An unrecognised padding selector can make it panic
/// on a plaintext that is not a block multiple, so selectors are restricted
/// to the documented ones.
#[verifier::external_body]
pub(crate) fn aes_encrypt(pt: &[u8], key: &[u8; 16], pad: Option<&str>) -> (r: Option<Vec<u8>>)
    requires
        pad_wf(pad),
    ensures
        match r {
            Some(ct) => aes_ecb_enc(pt@, key@, pad_view(pad)) == Some(ct@),
            None => aes_ecb_enc(pt@, key@, pad_view(pad)) is None,
        },
        total_pad(pad_view(pad)) ==> r is Some,
{
    match aes_enc_ecb(pt, key, pad) {
        Ok(ct) => Some(ct),
        Err(_) => None,
    }
}

/// Relies on `soft_aes::aes::aes_dec_ecb`: deterministic AES-ECB decryption,
/// the inverse of `aes_enc_ecb` under the same key and padding selector.
#[verifier::external_body]
pub(crate) fn aes_decrypt(ct: &[u8], key: &[u8; 16], pad: Option<&str>) -> (r: Option<Vec<u8>>)
    requires
        pad_wf(pad),
    ensures
        match r {
            Some(pt) => aes_ecb_dec(ct@, key@, pad_view(pad)) == Some(pt@),
            None => aes_ecb_dec(ct@, key@, pad_view(pad)) is None,
        },
        forall|pt: Seq<u8>|
            aes_ecb_enc(pt, key@, pad_view(pad)) == Some(ct@) ==> r is Some && r->0@ == pt,
{
    match aes_dec_ecb(ct, key, pad) {
        Ok(pt) => Some(pt),
        Err(_) => None,
    }
}

} // verus!
