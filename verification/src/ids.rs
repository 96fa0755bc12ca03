//! Random identifiers for runs and tasks.
use vstd::prelude::*;

verus! {

/// A lowercase hexadecimal digit.
pub open spec fn is_hex_digit(c: char) -> bool {
    ('0' <= c && c <= '9') || ('a' <= c && c <= 'f')
}

/// The text of a random (version 4) UUID in hyphenated lowercase form:
/// 36 characters, hyphens at 8, 13, 18 and 23, the version digit `4` at 14,
/// and lowercase hex digits elsewhere.
pub open spec fn is_v4_uuid_text(s: Seq<char>) -> bool {
    &&& s.len() == 36
    &&& forall|i: int|
        0 <= i < 36 ==> if i == 8 || i == 13 || i == 18 || i == 23 {
            #[trigger] s[i] == '-'
        } else if i == 14 {
            s[i] == '4'
        } else {
            is_hex_digit(s[i])
        }
}

/// Draws a fresh identifier: `uuid::Uuid::new_v4().to_string()`. The value
/// is random, so nothing is claimed of it but its form, which the crate's
/// `Display` (hyphenated lowercase hex) and `new_v4` (version bits `4`) fix.
/// Distinct calls are not claimed to differ. `new_v4` panics when the
/// operating system's random source fails, which no argument can rule out.
#[verifier::external_body]
pub(crate) fn new_uuid() -> (id: String)
    ensures
        is_v4_uuid_text(id@),
{
    uuid::Uuid::new_v4().to_string()
}

} // verus!
