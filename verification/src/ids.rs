use vstd::prelude::*;

verus! {

/// Character of the lower-case hexadecimal digit for a nibble.
pub open spec fn hex_digit(n: u128) -> char {
    if n < 10 {
        (48 + n) as char
    } else {
        (87 + n) as char
    }
}

/// Position in the 32-digit hex form that text position `p` shows
/// (`p` not being one of the four hyphens at 8, 13, 18 and 23).
pub open spec fn digit_index(p: int) -> int {
    if p < 8 {
        p
    } else if p < 13 {
        p - 1
    } else if p < 18 {
        p - 2
    } else if p < 23 {
        p - 3
    } else {
        p - 4
    }
}

/// The hyphenated lower-case text of a 128-bit identifier:
/// `xxxxxxxx-xxxx-xxxx-xxxx-xxxxxxxxxxxx`, most significant digit first.
pub open spec fn id_text(id: u128) -> Seq<char> {
    Seq::new(
        36,
        |p: int|
            if p == 8 || p == 13 || p == 18 || p == 23 {
                '-'
            } else {
                hex_digit((id >> ((4 * (31 - digit_index(p))) as u128)) & 15)
            },
    )
}

/// Whether an identifier carries the version-4 and RFC 4122 variant bits.
pub open spec fn is_v4(id: u128) -> bool {
    &&& (id >> 76u128) & 15 == 4
    &&& (id >> 62u128) & 3 == 2
}

/// Draws a random identifier with `uuid::Uuid::new_v4` and returns its 128 bits.
/// Claimed: the result carries the version-4 and variant bits that `new_v4` sets;
/// nothing else is claimed, the other bits being random.
#[verifier::external_body]
pub(crate) fn fresh_id() -> (id: u128)
    ensures
        is_v4(id),
{
    uuid::Uuid::new_v4().as_u128()
}

/// Formats an identifier with `uuid::Uuid::from_u128` and its `Display` impl.
/// Claimed: the text is the hyphenated lower-case hexadecimal form of the bits.
#[verifier::external_body]
pub(crate) fn format_id(id: u128) -> (s: String)
    ensures
        s@ == id_text(id),
{
    uuid::Uuid::from_u128(id).to_string()
}

} // verus!
