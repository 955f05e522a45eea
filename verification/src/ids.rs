//! Node and task identifiers: 128-bit UUIDs, written in the hyphenated
//! lower-case hexadecimal form.
use vstd::prelude::*;

verus! {

/// The lower-case hexadecimal digit of a value below 16.
pub open spec fn hex_digit(n: int) -> char {
    if n < 10 {
        ((('0' as int) + n) as u32) as char
    } else {
        ((('a' as int) + n - 10) as u32) as char
    }
}

/// Whether position `i` of the hyphenated form holds a hyphen.
pub open spec fn is_hyphen_pos(i: int) -> bool {
    i == 8 || i == 13 || i == 18 || i == 23
}

/// The index of the hexadecimal digit shown at position `i`, counted from the most significant.
pub open spec fn nibble_index(i: int) -> int {
    if i < 8 {
        i
    } else if i < 13 {
        i - 1
    } else if i < 18 {
        i - 2
    } else if i < 23 {
        i - 3
    } else {
        i - 4
    }
}

/// The `k`-th hexadecimal digit of `id`, counted from the most significant.
pub open spec fn nibble(id: u128, k: int) -> int {
    ((id as int) / vstd::arithmetic::power2::pow2((124 - 4 * k) as nat) as int) % 16
}

/// The hyphenated form of a UUID: 32 lower-case hex digits in groups of 8-4-4-4-12.
pub open spec fn uuid_text(id: u128) -> Seq<char> {
    Seq::new(36, |i: int| if is_hyphen_pos(i) { '-' } else { hex_digit(nibble(id, nibble_index(i))) })
}

/// The UUID that `Uuid::parse_str` reads from a string, if it accepts it.
pub uninterp spec fn uuid_parse(s: Seq<char>) -> Option<u128>;

/// Parses a UUID.
///
/// Calls `uuid::Uuid::parse_str`; the result, as a 128-bit number, is named
/// `uuid_parse`. The crate accepts several textual forms (hyphenated, simple,
/// braced, URN), which the name leaves unsaid; of the hyphenated lower-case
/// form that `uuid_text` spells out, it reads back the UUID written.
#[verifier::external_body]
pub(crate) fn parse_uuid(s: &str) -> (r: Option<u128>)
    ensures
        r == uuid_parse(s@),
        forall|id: u128| #[trigger] uuid_text(id) == s@ ==> r == Some(id),
{
    match uuid::Uuid::parse_str(s) {
        Ok(u) => Some(u.as_u128()),
        Err(_) => None,
    }
}

/// The hyphenated text of a UUID.
///
/// Calls `uuid::Uuid::from_u128` and its `Display`, which writes the
/// hyphenated lower-case form that `uuid_text` spells out.
#[verifier::external_body]
pub(crate) fn uuid_to_string(id: u128) -> (r: String)
    ensures
        r@ == uuid_text(id),
{
    uuid::Uuid::from_u128(id).to_string()
}

/// A fresh random (version 4) UUID.
///
/// Calls `uuid::Uuid::new_v4`. The value is random; what holds of every
/// outcome is that its version digit is 4 and its variant bits are `10`.
#[verifier::external_body]
pub(crate) fn new_v4() -> (r: u128)
    ensures
        (r >> 76u128) & 15u128 == 4u128,
        (r >> 62u128) & 3u128 == 2u128,
{
    uuid::Uuid::new_v4().as_u128()
}

/// The nil UUID, all zeros.
pub const NIL_ID: u128 = 0;

} // verus!
