//! Task identifiers as UUID text, and new identifiers.

use vstd::arithmetic::power::pow;
use vstd::prelude::*;
use crate::domain::TaskId;

verus! {

/// The lowercase hexadecimal digit of `n`.
pub open spec fn hex_digit(n: int) -> char {
    if n < 10 {
        (48 + n) as char
    } else {
        (87 + n) as char
    }
}

/// The `i`-th of the 32 hexadecimal digits of an identifier, highest first.
pub open spec fn nibble(id: TaskId, i: int) -> int {
    (id as int / pow(16, (31 - i) as nat)) % 16
}

/// The canonical text of a UUID: lowercase hexadecimal digits in groups of 8,
/// 4, 4, 4 and 12, with hyphens between the groups.
pub open spec fn hyphenated(id: TaskId) -> Seq<char> {
    Seq::new(
        36,
        |i: int|
            if i == 8 || i == 13 || i == 18 || i == 23 {
                '-'
            } else if i < 8 {
                hex_digit(nibble(id, i))
            } else if i < 13 {
                hex_digit(nibble(id, i - 1))
            } else if i < 18 {
                hex_digit(nibble(id, i - 2))
            } else if i < 23 {
                hex_digit(nibble(id, i - 3))
            } else {
                hex_digit(nibble(id, i - 4))
            },
    )
}

/// Whether the bits are those of a UUID of version 7: the version digit is 7 and
/// the two variant bits are 1 and 0.
pub open spec fn is_version_7(id: TaskId) -> bool {
    &&& nibble(id, 12) == 7
    &&& 8 <= nibble(id, 16) < 12
}

/// The view of what reading an identifier gives.
pub open spec fn id_result(r: Result<TaskId, String>) -> Result<u128, Seq<char>> {
    match r {
        Ok(id) => Ok(id),
        Err(m) => Err(m@),
    }
}

/// What `uuid::Uuid::parse_str` reads from a text: the 128 bits, or the text of
/// its error.
pub uninterp spec fn uuid_reading(text: Seq<char>) -> Result<u128, Seq<char>>;

/// `uuid::Uuid::from_u128(id).to_string()`: the canonical hyphenated text.
#[verifier::external_body]
pub(crate) fn uuid_text(id: TaskId) -> (r: String)
    ensures
        r@ == hyphenated(id),
{
    uuid::Uuid::from_u128(id).to_string()
}

/// `uuid::Uuid::parse_str`: a function of the text alone, which reads the
/// canonical text of an identifier as that identifier. Which of the other
/// spellings it reads, and what its errors say, is left to the name.
#[verifier::external_body]
pub(crate) fn parse_uuid(text: &str) -> (r: Result<TaskId, String>)
    ensures
        id_result(r) == uuid_reading(text@),
        forall|id: TaskId| text@ == #[trigger] hyphenated(id) ==> r is Ok && r->Ok_0 == id,
{
    match uuid::Uuid::parse_str(text) {
        Ok(id) => Ok(id.as_u128()),
        Err(error) => Err(error.to_string()),
    }
}

/// `uuid::Uuid::now_v7`: a UUID of version 7 made of the present time and random
/// bits. Nothing else is known of it, not even that it differs from others.
#[verifier::external_body]
pub(crate) fn now_v7() -> (id: TaskId)
    ensures
        is_version_7(id),
{
    uuid::Uuid::now_v7().as_u128()
}

} // verus!
