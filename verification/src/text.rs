//! Characters, bytes and the small text encodings the protocol uses:
//! the printable subset safe inside the envelope's quoted strings, decimal
//! rendering of timestamps, and uppercase hexadecimal rendering of checksums.

use vstd::prelude::*;

verus! {

use vstd::utf8::{
    decode_utf8, encode_utf8, valid_utf8, encode_utf8_valid_utf8, encode_utf8_decode_utf8,
    decode_utf8_encode_utf8, is_ascii_chars, is_ascii_chars_encode_utf8,
};

/// A character that may stand unescaped inside a quoted envelope string:
/// printable ASCII, but neither the quote nor the backslash.
pub open spec fn plain_char(c: char) -> bool {
    &&& ' ' <= c <= '~'
    &&& c != '"'
    &&& c != '\\'
}

pub open spec fn plain_chars(s: Seq<char>) -> bool {
    forall|i: int| 0 <= i < s.len() ==> plain_char(#[trigger] s[i])
}

/// The byte image of a plain character: printable ASCII except 34 (the
/// quote) and 92 (the backslash).
pub open spec fn plain_byte(b: u8) -> bool {
    &&& 32 <= b <= 126
    &&& b != 34
    &&& b != 92
}

pub open spec fn plain_bytes(s: Seq<u8>) -> bool {
    forall|i: int| 0 <= i < s.len() ==> plain_byte(#[trigger] s[i])
}

pub open spec fn ascii_bytes(s: Seq<u8>) -> bool {
    forall|i: int| 0 <= i < s.len() ==> #[trigger] s[i] < 128
}

/// A plain character sequence encodes byte-for-byte, to plain bytes.
pub proof fn lemma_plain_encode(s: Seq<char>)
    requires
        plain_chars(s),
    ensures
        encode_utf8(s).len() == s.len(),
        forall|i: int| 0 <= i < s.len() ==> encode_utf8(s)[i] == #[trigger] (s[i] as u8),
        plain_bytes(encode_utf8(s)),
        ascii_bytes(encode_utf8(s)),
{
    assert(is_ascii_chars(s)) by {
        assert(forall|i: int| 0 <= i < s.len() ==> plain_char(#[trigger] s[i]) ==> '\0' <= s[i] <= '\u{7f}');
    }
    is_ascii_chars_encode_utf8(s);
    assert forall|i: int| 0 <= i < s.len() implies plain_byte(#[trigger] encode_utf8(s)[i]) by {
        assert(plain_char(s[i]));
        assert(encode_utf8(s)[i] == s[i] as u8);
    }
}

/// ASCII bytes are valid UTF-8 and decode byte-for-byte.
pub proof fn lemma_ascii_decode(b: Seq<u8>)
    requires
        ascii_bytes(b),
    ensures
        valid_utf8(b),
        decode_utf8(b).len() == b.len(),
        forall|i: int| 0 <= i < b.len() ==> (#[trigger] decode_utf8(b)[i]) as u8 == b[i],
        plain_bytes(b) ==> plain_chars(decode_utf8(b)),
        encode_utf8(decode_utf8(b)) == b,
{
    let cs = Seq::new(b.len(), |i: int| b[i] as char);
    assert(is_ascii_chars(cs)) by {
        assert forall|i: int| 0 <= i < cs.len() implies '\0' <= #[trigger] cs[i] <= '\u{7f}' by {
            assert(b[i] < 128);
        }
    }
    is_ascii_chars_encode_utf8(cs);
    assert(encode_utf8(cs) =~= b) by {
        assert forall|i: int| 0 <= i < b.len() implies encode_utf8(cs)[i] == b[i] by {
            assert(cs[i] as u8 == encode_utf8(cs)[i]);
            assert(cs[i] == b[i] as char);
        }
    }
    encode_utf8_valid_utf8(cs);
    encode_utf8_decode_utf8(cs);
    assert(decode_utf8(b) == cs);
    if plain_bytes(b) {
        assert forall|i: int| 0 <= i < cs.len() implies plain_char(#[trigger] cs[i]) by {
            assert(cs[i] == b[i] as char);
            assert(plain_byte(b[i]));
        }
    }
    decode_utf8_encode_utf8(b);
}

/// Byte-level equality of two slices.
pub fn bytes_eq(a: &[u8], b: &[u8]) -> (r: bool)
    ensures
        r == (a@ == b@),
{
    if a.len() != b.len() {
        proof {
            assert(a@.len() != b@.len());
        }
        return false;
    }
    let mut i: usize = 0;
    while i < a.len()
        invariant
            i <= a.len(),
            a@.len() == b@.len(),
            forall|j: int| 0 <= j < i ==> a@[j] == b@[j],
        decreases a.len() - i,
    {
        if a[i] != b[i] {
            return false;
        }
        i = i + 1;
    }
    proof {
        assert(a@ =~= b@);
    }
    true
}

/// Equality of two string slices, through their UTF-8 images.
pub fn str_eq(a: &str, b: &str) -> (r: bool)
    ensures
        r == (a@ == b@),
{
    let r = bytes_eq(a.as_bytes(), b.as_bytes());
    proof {
        if encode_utf8(a@) == encode_utf8(b@) {
            encode_utf8_decode_utf8(a@);
            encode_utf8_decode_utf8(b@);
        }
    }
    r
}

/// Whether `pat` occurs at position `i` of `v`.
pub fn match_at(v: &[u8], i: usize, pat: &[u8]) -> (r: bool)
    ensures
        r == (i + pat@.len() <= v@.len() && v@.subrange(i as int, i + pat@.len()) == pat@),
{
    if pat.len() > v.len() || i > v.len() - pat.len() {
        return false;
    }
    let mut j: usize = 0;
    while j < pat.len()
        invariant
            j <= pat.len(),
            i + pat.len() <= v.len(),
            forall|k: int| 0 <= k < j ==> v@[i + k] == pat@[k],
        decreases pat.len() - j,
    {
        if v[i + j] != pat[j] {
            proof {
                assert(v@.subrange(i as int, i + pat@.len())[j as int] != pat@[j as int]);
            }
            return false;
        }
        j = j + 1;
    }
    proof {
        assert(v@.subrange(i as int, i + pat@.len()) =~= pat@);
    }
    true
}

/// Whether `needle` occurs contiguously somewhere in `hay`.
pub open spec fn contains_seq(hay: Seq<u8>, needle: Seq<u8>) -> bool {
    exists|k: int| 0 <= k && k + needle.len() <= hay.len() && #[trigger] hay.subrange(k, k + needle.len()) == needle
}

pub fn contains_bytes(hay: &[u8], needle: &[u8]) -> (r: bool)
    ensures
        r == contains_seq(hay@, needle@),
{
    if needle.len() > hay.len() {
        return false;
    }
    let mut k: usize = 0;
    let last = hay.len() - needle.len();
    loop
        invariant
            needle@.len() <= hay@.len(),
            last == hay@.len() - needle@.len(),
            k <= last,
            forall|k2: int| 0 <= k2 < k ==> #[trigger] hay@.subrange(k2, k2 + needle@.len()) != needle@,
        decreases last - k,
    {
        if match_at(hay, k, needle) {
            return true;
        }
        if k == last {
            return false;
        }
        k = k + 1;
    }
}

/// The decimal digit bytes of a natural number, most significant first.
pub open spec fn dec_digits(n: nat) -> Seq<u8>
    decreases n,
{
    if n < 10 {
        seq![(48 + n) as u8]
    } else {
        dec_digits(n / 10).push((48 + n % 10) as u8)
    }
}

/// The decimal rendering of a signed number: a minus sign, if negative,
/// then the digits of its magnitude.
pub open spec fn dec_i64_bytes(v: int) -> Seq<u8> {
    if v < 0 {
        seq![45u8] + dec_digits((-v) as nat)
    } else {
        dec_digits(v as nat)
    }
}

pub proof fn lemma_dec_digits_ascii(n: nat)
    ensures
        forall|i: int| 0 <= i < dec_digits(n).len() ==> 48 <= #[trigger] dec_digits(n)[i] <= 57,
        dec_digits(n).len() >= 1,
    decreases n,
{
    if n >= 10 {
        lemma_dec_digits_ascii(n / 10);
    }
}

pub proof fn lemma_dec_i64_ascii(v: int)
    ensures
        ascii_bytes(dec_i64_bytes(v)),
        dec_i64_bytes(v).len() >= 1,
{
    if v < 0 {
        lemma_dec_digits_ascii((-v) as nat);
    } else {
        lemma_dec_digits_ascii(v as nat);
    }
}

fn push_dec_u64(out: &mut Vec<u8>, n: u64)
    ensures
        final(out)@ == old(out)@ + dec_digits(n as nat),
    decreases n,
{
    if n < 10 {
        out.push(48 + (n as u8));
        assert(out@ =~= old(out)@ + dec_digits(n as nat));
    } else {
        push_dec_u64(out, n / 10);
        out.push(48 + ((n % 10) as u8));
        assert(out@ =~= old(out)@ + dec_digits(n as nat));
    }
}

/// Appends the decimal rendering of `v` to `out`.
pub fn push_dec_i64(out: &mut Vec<u8>, v: i64)
    ensures
        final(out)@ == old(out)@ + dec_i64_bytes(v as int),
{
    if v >= 0 {
        push_dec_u64(out, v as u64);
    } else {
        out.push(45);
        let m: u64 = (-(v as i128)) as u64;
        proof {
            assert(m as int == -(v as int));
        }
        push_dec_u64(out, m);
        assert(out@ =~= old(out)@ + dec_i64_bytes(v as int));
    }
}

/// The uppercase hexadecimal digit byte for a value below 16.
pub open spec fn hex_digit(d: int) -> u8 {
    if d < 10 {
        (48 + d) as u8
    } else {
        (55 + d) as u8
    }
}

/// The four uppercase hexadecimal digit bytes of a 16-bit value,
/// most significant first.
pub open spec fn hex4(x: u16) -> Seq<u8> {
    seq![
        hex_digit((x >> 12) as int),
        hex_digit(((x >> 8) & 0xf) as int),
        hex_digit(((x >> 4) & 0xf) as int),
        hex_digit((x & 0xf) as int),
    ]
}

/// The same four digits as characters.
pub open spec fn hex4_chars(x: u16) -> Seq<char> {
    decode_utf8(hex4(x))
}

pub proof fn lemma_hex4_ascii(x: u16)
    ensures
        ascii_bytes(hex4(x)),
        valid_utf8(hex4(x)),
        plain_bytes(hex4(x)),
        hex4_chars(x).len() == 4,
        plain_chars(hex4_chars(x)),
        encode_utf8(hex4_chars(x)) == hex4(x),
{
    assert((x >> 12) < 16 && ((x >> 8) & 0xf) < 16 && ((x >> 4) & 0xf) < 16 && (x & 0xf) < 16)
        by (bit_vector);
    lemma_ascii_decode(hex4(x));
}

fn hex_digit_byte(d: u16) -> (r: u8)
    requires
        d < 16,
    ensures
        r == hex_digit(d as int),
{
    if d < 10 {
        48 + (d as u8)
    } else {
        55 + (d as u8)
    }
}

/// The four-digit uppercase hexadecimal rendering of a 16-bit value.
pub fn hex4_bytes(x: u16) -> (r: Vec<u8>)
    ensures
        r@ == hex4(x),
{
    proof {
        assert((x >> 12) < 16 && ((x >> 8) & 0xf) < 16 && ((x >> 4) & 0xf) < 16 && (x & 0xf) < 16)
            by (bit_vector);
    }
    let mut out: Vec<u8> = Vec::new();
    out.push(hex_digit_byte(x >> 12));
    out.push(hex_digit_byte((x >> 8) & 0xf));
    out.push(hex_digit_byte((x >> 4) & 0xf));
    out.push(hex_digit_byte(x & 0xf));
    proof {
        assert(out@ =~= hex4(x));
    }
    out
}

/// Relies on `String::from_utf8`: returns the string those bytes encode
/// exactly when they are valid UTF-8.
#[verifier::external_body]
pub(crate) fn bytes_to_string(v: &[u8]) -> (r: Option<String>)
    ensures
        match r {
            Some(s) => valid_utf8(v@) && s@ == decode_utf8(v@),
            None => !valid_utf8(v@),
        },
{
    match String::from_utf8(v.to_vec()) {
        Ok(s) => Some(s),
        Err(_) => None,
    }
}

/// The string a sequence of valid UTF-8 bytes encodes.
pub fn utf8_to_string(v: &[u8]) -> (r: String)
    requires
        valid_utf8(v@),
    ensures
        r@ == decode_utf8(v@),
{
    match bytes_to_string(v) {
        Some(s) => s,
        None => {
            proof {
                assert(false);
            }
            String::new()
        },
    }
}

} // verus!
