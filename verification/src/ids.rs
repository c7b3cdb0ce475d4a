//! Random identifiers.
use vstd::prelude::*;

verus! {

/// A lower-case hexadecimal digit.
pub open spec fn hex(c: char) -> bool {
    ||| '0' <= c && c <= '9'
    ||| 'a' <= c && c <= 'f'
}

/// The digit that tells the variant of a random UUID.
pub open spec fn variant_digit(c: char) -> bool {
    c == '8' || c == '9' || c == 'a' || c == 'b'
}

/// The 32 hexadecimal digits of a random UUID, two of which tell its version and its variant.
pub open spec fn simple_id(s: Seq<char>) -> bool {
    &&& s.len() == 32
    &&& s[12] == '4'
    &&& variant_digit(s[16])
    &&& forall|i: int| 0 <= i < s.len() ==> hex(#[trigger] s[i])
}

/// The places of the hyphens in a UUID that has them.
pub open spec fn hyphen_place(i: int) -> bool {
    i == 8 || i == 13 || i == 18 || i == 23
}

/// A random UUID with hyphens between groups of eight, four, four, four and twelve digits.
pub open spec fn hyphenated_id(s: Seq<char>) -> bool {
    &&& s.len() == 36
    &&& s[14] == '4'
    &&& variant_digit(s[19])
    &&& forall|i: int|
        0 <= i < s.len() ==> if hyphen_place(i) {
            #[trigger] s[i] == '-'
        } else {
            hex(s[i])
        }
}

/// `Uuid::new_v4`, formatted without hyphens. The digits are random; how many they are, and which
/// of them tell the version and the variant, holds of every outcome. It panics where the operating
/// system has no randomness to give.
#[verifier::external_body]
pub(crate) fn fresh_id() -> (r: String)
    ensures
        simple_id(r@),
{
    uuid::Uuid::new_v4().simple().to_string()
}

/// `Uuid::new_v4`, formatted with hyphens. Of the digits holds what holds without hyphens.
#[verifier::external_body]
fn fresh_uuid() -> (r: String)
    ensures
        hyphenated_id(r@),
{
    uuid::Uuid::new_v4().to_string()
}

/// A fresh random id for a row of a table: a UUID with hyphens.
pub fn fresh_row_id() -> (r: String)
    ensures
        hyphenated_id(r@),
{
    fresh_uuid()
}

} // verus!
