//! Fresh bid identifiers.

use vstd::prelude::*;

verus! {

/// A lowercase hexadecimal digit.
pub open spec fn is_lower_hex_char(c: char) -> bool {
    (48 <= c as int <= 57) || (97 <= c as int <= 102)
}

/// A fresh 32-digit lowercase-hex identifier.
pub open spec fn spec_is_fresh_id(s: Seq<char>) -> bool {
    s.len() == 32 && forall|i: int| 0 <= i < 32 ==> is_lower_hex_char(#[trigger] s[i])
}

/// Relies on uuid's `Uuid::now_v7` and its simple formatter: a time-ordered
/// random identifier rendered as exactly 32 lowercase hexadecimal digits.
#[verifier::external_body]
pub(crate) fn new_id() -> (r: String)
    ensures
        spec_is_fresh_id(r@),
{
    uuid::Uuid::now_v7().as_simple().to_string()
}

} // verus!
