//! Fresh identifiers and their textual form.
use vstd::prelude::*;

verus! {

/// The lower-case hexadecimal digit of a value in `0..16`.
pub open spec fn hex_digit(n: int) -> char {
    if n < 10 {
        (('0' as int) + n) as char
    } else {
        (('a' as int) + n - 10) as char
    }
}

/// The `k`-th hexadecimal digit (most significant first) of a 128-bit value.
pub open spec fn nibble(v: u128, k: int) -> int {
    (v as int / vstd::arithmetic::power::pow(16, (31 - k) as nat)) % 16
}

/// True at the four positions of the hyphenated form that hold a `-`.
pub open spec fn is_hyphen_pos(i: int) -> bool {
    i == 8 || i == 13 || i == 18 || i == 23
}

/// Number of hyphens strictly before position `i` of the hyphenated form.
pub open spec fn hyphens_before(i: int) -> int {
    if i > 23 { 4 } else if i > 18 { 3 } else if i > 13 { 2 } else if i > 8 { 1 } else { 0 }
}

/// The hyphenated, lower-case form of a UUID, such as
/// `67e55044-10b1-426f-9247-bb680e5fe0c8`: 32 hexadecimal digits of the
/// big-endian value, with hyphens after the 8th, 12th, 16th and 20th digit.
pub open spec fn uuid_hyphenated(v: u128) -> Seq<char> {
    Seq::new(36, |i: int| if is_hyphen_pos(i) { '-' } else { hex_digit(nibble(v, i - hyphens_before(i))) })
}

/// The text of some UUID.
pub open spec fn is_uuid_text(s: Seq<char>) -> bool {
    exists|v: u128| s == uuid_hyphenated(v)
}

/// Draws a fresh random (version 4) UUID by `uuid::Uuid::new_v4` and returns
/// its 128-bit value. The value is random; `new_v4` masks in only the version
/// nibble (4) and the variant bits (binary 10), and nothing more is promised.
#[verifier::external_body]
pub fn uniq_id() -> (r: u128)
    ensures
        (r >> 76u128) & 0xfu128 == 4u128,
        (r >> 62u128) & 3u128 == 2u128,
{
    uuid::Uuid::new_v4().as_u128()
}

/// The text of a UUID: `uuid::Uuid::from_u128(v).to_string()`, which the
/// `Display` impl of `uuid` writes in its hyphenated lower-case form.
#[verifier::external_body]
pub(crate) fn id_to_string(v: u128) -> (s: String)
    ensures
        s@ == uuid_hyphenated(v),
{
    uuid::Uuid::from_u128(v).to_string()
}

/// A fresh identifier as text: the hyphenated form of a new random UUID.
pub fn uniq_id_string() -> (s: String)
    ensures
        exists|v: u128| s@ == uuid_hyphenated(v),
{
    let v = uniq_id();
    id_to_string(v)
}

} // verus!
