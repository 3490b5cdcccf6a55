//! Text operations of the standard library that the assembler relies on.
//!
//! Nothing in this file is proved: each item states what the standard
//! library's documentation says of one of its functions.

use vstd::prelude::*;

verus! {

/// Whether a character is a letter or a number in the sense of Unicode.
pub uninterp spec fn is_alphanumeric(c: char) -> bool;

/// `char::is_alphanumeric`.
///
/// Believed: the answer depends on the character alone.
#[verifier::external_body]
pub(crate) fn char_is_alphanumeric(c: char) -> (r: bool)
    ensures
        r == is_alphanumeric(c),
{
    c.is_alphanumeric()
}

/// The character of the decimal digit `d`.
pub open spec fn digit_char(d: nat) -> char {
    (0x30 + d) as char
}

/// The decimal digits of `n`, most significant first, without leading
/// zeros.
pub open spec fn decimal_digits(n: nat) -> Seq<char>
    decreases n,
{
    if n < 10 {
        seq![digit_char(n)]
    } else {
        decimal_digits(n / 10).push(digit_char(n % 10))
    }
}

/// `format!` of an unsigned integer.
///
/// Believed: the text is the number in decimal, without sign, padding or
/// leading zeros.
#[verifier::external_body]
pub(crate) fn decimal_string(n: usize) -> (text: String)
    ensures
        text@ == decimal_digits(n as nat),
{
    format!("{}", n)
}

/// `String::push` appends the character to the end of the string.
pub assume_specification[ std::string::String::push ](s: &mut std::string::String, ch: char)
    ensures
        final(s)@ == old(s)@.push(ch),
;

} // verus!
