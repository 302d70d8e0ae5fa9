//! The two ambient effects of the protocol: fresh session identifiers and
//! the current time. Both are supplied by outside crates; nothing beyond
//! their shape is assumed of their values.

use vstd::prelude::*;

verus! {

use crate::text::plain_chars;

/// A character of a hyphenated lowercase-hexadecimal identifier.
pub open spec fn uuid_char(c: char) -> bool {
    ||| c == '-'
    ||| '0' <= c <= '9'
    ||| 'a' <= c <= 'f'
}

/// The textual shape of a hyphenated UUID: 36 characters, lowercase
/// hexadecimal in five groups separated by hyphens at positions 8, 13, 18
/// and 23.
pub open spec fn uuid_text(s: Seq<char>) -> bool {
    &&& s.len() == 36
    &&& forall|i: int|
        0 <= i < 36 ==> (#[trigger] s[i] == '-' <==> (i == 8 || i == 13 || i == 18 || i == 23))
    &&& forall|i: int| 0 <= i < 36 ==> uuid_char(#[trigger] s[i])
}

/// Relies on `uuid::Uuid::new_v4` and its `Display` rendering: 36
/// characters, lowercase hexadecimal with hyphens at positions 8, 13, 18
/// and 23. The value is random, so nothing is assumed of it beyond its
/// shape.
#[verifier::external_body]
pub(crate) fn fresh_session_id() -> (r: String)
    ensures
        uuid_text(r@),
        plain_chars(r@),
{
    uuid::Uuid::new_v4().to_string()
}

/// Relies on `chrono::Local::now().timestamp()`: the current Unix timestamp.
/// Nothing is assumed of the value.
#[verifier::external_body]
pub(crate) fn current_timestamp() -> (r: i64)
{
    chrono::Local::now().timestamp()
}

} // verus!
