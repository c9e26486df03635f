//! Identifiers: random version-4 UUIDs, held as their 128-bit value, and
//! their text form.

use vstd::prelude::*;

verus! {

/// The lower-case hexadecimal digit of `n` (below 16).
pub open spec fn hex_digit(n: int) -> char {
    if n < 10 { ('0' as int + n) as char } else { ('a' as int + n - 10) as char }
}

/// The `d`-th hexadecimal digit of `id`, most significant first (`d` below 32).
pub open spec fn uuid_nibble(id: u128, d: int) -> int {
    ((id >> ((31 - d) * 4) as u128) & 0xfu128) as int
}

/// The text that `uuid::Uuid`'s `Display` gives for the UUID with value `id`:
/// its 32 lower-case hexadecimal digits, most significant first, with
/// hyphens after the 8th, 12th, 16th and 20th (the 8-4-4-4-12 form).
pub open spec fn uuid_text(id: u128) -> Seq<char> {
    Seq::new(36, |i: int|
        if i == 8 || i == 13 || i == 18 || i == 23 {
            '-'
        } else {
            hex_digit(uuid_nibble(id, i - if i < 8 { 0int } else if i < 13 { 1int } else if i < 18 { 2int } else if i < 23 { 3int } else { 4int }))
        })
}

/// What `uuid::Uuid::parse_str` gives for `text`: the UUID's value, or the
/// text of the error it reports.
pub uninterp spec fn uuid_parse(text: Seq<char>) -> Result<u128, Seq<char>>;

/// A parse that gives the UUID with value `id`.
pub open spec fn parsed(id: u128) -> Result<u128, Seq<char>> {
    Ok(id)
}

/// A parse refused with error text `message`.
pub open spec fn refused(message: Seq<char>) -> Result<u128, Seq<char>> {
    Err(message)
}

/// Whether `id` carries the version (4) and variant (RFC 4122) bits of a
/// randomly generated UUID.
pub open spec fn is_random_uuid(id: u128) -> bool {
    &&& (id >> 76u128) & 0xFu128 == 4
    &&& (id >> 62u128) & 0x3u128 == 2
}

/// A random UUID never has the value zero.
pub proof fn lemma_random_uuid_not_nil(id: u128)
    requires
        is_random_uuid(id),
    ensures
        id != 0,
{
    assert((id >> 76u128) & 0xFu128 == 4 ==> id != 0) by (bit_vector);
}

/// Calls `uuid::Uuid::new_v4` and returns the UUID's value (`as_u128`).
/// The value is random; what is claimed is what `new_v4` always sets: the
/// version nibble to 4 and the variant bits to `10`.
#[verifier::external_body]
pub(crate) fn new_uuid() -> (res: u128)
    ensures
        is_random_uuid(res),
{
    uuid::Uuid::new_v4().as_u128()
}

/// Calls `Uuid::to_string` on the UUID with value `id`. Claims that the
/// text is `uuid_text(id)`, and that `Uuid::parse_str` reads it back as the
/// same UUID (the hyphenated form that `Display` writes is one that
/// `parse_str` accepts).
#[verifier::external_body]
pub(crate) fn uuid_to_string(id: u128) -> (res: String)
    ensures
        res@ == uuid_text(id),
        uuid_parse(res@) == parsed(id),
{
    uuid::Uuid::from_u128(id).to_string()
}

/// Calls `uuid::Uuid::parse_str` on `text`: the UUID's value, or the text
/// of the error (its `Display`). Claims that the result is `uuid_parse(text@)`.
#[verifier::external_body]
pub(crate) fn parse_uuid(text: &str) -> (res: Result<u128, String>)
    ensures
        uuid_parse(text@) == match res {
            Ok(v) => parsed(v),
            Err(message) => refused(message@),
        },
{
    match uuid::Uuid::parse_str(text) {
        Ok(u) => Ok(u.as_u128()),
        Err(e) => Err(e.to_string()),
    }
}

} // verus!
