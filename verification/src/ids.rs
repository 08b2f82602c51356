//! Random connection and agent identifiers.
//!
//! Identifiers are fresh 128-bit random values rendered as 36-character
//! lowercase hyphenated hex (8-4-4-4-12). They pair a pending client stream
//! on the server with the data stream an agent later opens, and they name
//! agent sessions; collisions are assumed negligible and are not detected.

use vstd::prelude::*;

verus! {

/// Whether `c` is a lowercase hex digit.
pub open spec fn is_lower_hex_digit(c: char) -> bool {
    ('0' <= c && c <= '9') || ('a' <= c && c <= 'f')
}

/// The shape of a rendered identifier: 36 characters, hyphens at positions
/// 8, 13, 18 and 23, lowercase hex digits everywhere else.
pub open spec fn is_guid_chars(s: Seq<char>) -> bool {
    &&& s.len() == 36
    &&& forall|i: int|
        0 <= i < 36 ==> #[trigger] s[i] == '-' <==> (i == 8 || i == 13 || i == 18 || i == 23)
    &&& forall|i: int|
        0 <= i < 36 && !(i == 8 || i == 13 || i == 18 || i == 23)
            ==> is_lower_hex_digit(#[trigger] s[i])
}

/// Relies on `uuid::Uuid::new_v4` and its hyphenated `Display` form: a
/// random identifier rendered as 36 lowercase hyphenated hex characters.
/// The value is random, so nothing beyond its shape is promised.
#[verifier::external_body]
pub fn get_rand_guid() -> (r: String)
    ensures
        is_guid_chars(r@),
{
    uuid::Uuid::new_v4().hyphenated().to_string()
}

/// An identifier never holds a line terminator, so it always travels
/// intact as a single framed line.
pub proof fn lemma_guid_has_no_newline(s: Seq<char>)
    requires
        is_guid_chars(s),
    ensures
        !s.contains('\n'),
{
    assert forall|i: int| 0 <= i < s.len() implies s[i] != '\n' by {
        if i == 8 || i == 13 || i == 18 || i == 23 {
            assert(s[i] == '-');
        } else {
            assert(is_lower_hex_digit(s[i]));
        }
    }
}

} // verus!
