//! Identity tokens: 128-bit values drawn at random, and their textual form.

use vstd::prelude::*;

verus! {

/// Whether `value` carries the marks of a randomly drawn token: the four
/// version bits say 4 and the two variant bits say binary 10.
pub open spec fn is_random_token(value: u128) -> bool {
    value & 0x0000_0000_0000_f000_c000_0000_0000_0000u128
        == 0x0000_0000_0000_4000_8000_0000_0000_0000u128
}

/// The lower-case hexadecimal digit for `nibble`, which is below 16.
pub open spec fn hex_digit(nibble: int) -> char {
    if nibble < 10 {
        (0x30 + nibble) as u8 as char
    } else {
        (0x61 + nibble - 10) as u8 as char
    }
}

/// The `k`-th of the 32 hexadecimal digits of `value`, the most significant
/// first.
pub open spec fn nibble(value: u128, k: int) -> int {
    (value as int / pow16(31 - k)) % 16
}

/// Sixteen to the power `e`.
pub open spec fn pow16(e: int) -> int
    decreases e,
{
    if e <= 0 {
        1
    } else {
        16 * pow16(e - 1)
    }
}

/// The textual form of a token: its 32 hexadecimal digits in lower case, most
/// significant first, in groups of 8, 4, 4, 4 and 12 with a hyphen between
/// two groups.
pub open spec fn hyphenated(value: u128) -> Seq<char> {
    Seq::new(
        36,
        |i: int|
            if i == 8 || i == 13 || i == 18 || i == 23 {
                '-'
            } else if i < 8 {
                hex_digit(nibble(value, i))
            } else if i < 13 {
                hex_digit(nibble(value, i - 1))
            } else if i < 18 {
                hex_digit(nibble(value, i - 2))
            } else if i < 23 {
                hex_digit(nibble(value, i - 3))
            } else {
                hex_digit(nibble(value, i - 4))
            },
    )
}

/// Calls `uuid::Uuid::new_v4` and hands out the token as a number. The value
/// is random; what is claimed of it is only that the version and variant bits
/// are those that `new_v4` sets on every token it makes.
#[verifier::external_body]
pub(crate) fn fresh_token() -> (value: u128)
    ensures
        is_random_token(value),
{
    uuid::Uuid::new_v4().as_u128()
}

/// Calls the `Display` of `uuid::Uuid` (`to_string`) on the token with the
/// number `value`. The claim is that the text is the hyphenated lower-case
/// form, the first digit being the most significant.
#[verifier::external_body]
pub(crate) fn token_text(value: u128) -> (text: String)
    ensures
        text@ == hyphenated(value),
{
    uuid::Uuid::from_u128(value).to_string()
}

} // verus!
