//! Random identifiers for sessions, requests and temporary files.
use vstd::prelude::*;

verus! {

/// A lower-case hexadecimal digit.
pub open spec fn is_hex_digit(c: char) -> bool {
    ||| '0' <= c <= '9'
    ||| 'a' <= c <= 'f'
}

/// A random (version 4) UUID written as 32 lower-case hexadecimal digits without hyphens: the
/// version digit is `4`, and the variant digit is one of `8`, `9`, `a` and `b`.
pub open spec fn is_identifier(s: Seq<char>) -> bool {
    &&& s.len() == 32
    &&& forall|i: int| 0 <= i < s.len() ==> is_hex_digit(#[trigger] s[i])
    &&& s[12] == '4'
    &&& s[16] == '8' || s[16] == '9' || s[16] == 'a' || s[16] == 'b'
}

/// A fresh identifier. Calls `uuid::Uuid::new_v4`, then `simple` and `to_string`. Which
/// identifier comes out is left to chance; of every one it is believed that it has the form
/// of a version 4 UUID in simple notation. That no two calls agree is not claimed. Where the
/// operating system has no random bytes to give, `new_v4` panics.
#[verifier::external_body]
pub(crate) fn fresh_identifier() -> (id: String)
    ensures
        is_identifier(id@),
{
    uuid::Uuid::new_v4().simple().to_string()
}

} // verus!
