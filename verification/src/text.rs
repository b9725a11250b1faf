//! Character classes and numeric readings used by the scanner.
//!
//! Everything here is stated over `Seq<char>` so that the scanner's
//! contracts can speak about the source text directly.  The only
//! facts taken on trust are the two Unicode character classes named
//! below.

use vstd::prelude::*;

verus! {

/// Whitespace skipped between tokens: space, tab, carriage return, newline.
pub open spec fn is_ws(c: char) -> bool {
    c == ' ' || c == '\t' || c == '\r' || c == '\n'
}

/// ASCII decimal digit.
pub open spec fn is_digit(c: char) -> bool {
    48 <= c as u32 <= 57
}

/// ASCII hexadecimal digit.
pub open spec fn is_hex_digit(c: char) -> bool {
    48 <= c as u32 <= 57 || 97 <= c as u32 <= 102 || 65 <= c as u32 <= 70
}

/// ASCII punctuation, in the four ranges `!..=/`, `:..=@`, `[..=`` ` ``, `{..=~`.
pub open spec fn is_ascii_punct(c: char) -> bool {
    33 <= c as u32 <= 47 || 58 <= c as u32 <= 64 || 91 <= c as u32 <= 96 || 123 <= c as u32 <= 126
}

/// What the result of `char::is_alphabetic` is; the class itself is Unicode data.
pub uninterp spec fn is_alpha(c: char) -> bool;

/// What the result of `char::is_alphanumeric` is; the class itself is Unicode data.
pub uninterp spec fn is_alnum(c: char) -> bool;

/// A character allowed inside an OSC address after the leading slash.
pub open spec fn is_addr_char(c: char) -> bool {
    is_alnum(c) || is_ascii_punct(c)
}

/// Relies on `char::is_alphabetic`: a pure classification of one character.
#[verifier::external_body]
pub fn char_is_alphabetic(c: char) -> (r: bool)
    ensures
        r == is_alpha(c),
{
    c.is_alphabetic()
}

/// Relies on `char::is_alphanumeric`: a pure classification of one character.
#[verifier::external_body]
pub fn char_is_alphanumeric(c: char) -> (r: bool)
    ensures
        r == is_alnum(c),
{
    c.is_alphanumeric()
}

/// Value of one decimal digit.
pub open spec fn digit_val(c: char) -> int {
    c as u32 - 48
}

/// Value of one hexadecimal digit.
pub open spec fn hex_digit_val(c: char) -> int {
    if 48 <= c as u32 <= 57 {
        c as u32 - 48
    } else if 97 <= c as u32 <= 102 {
        c as u32 - 97 + 10
    } else {
        c as u32 - 65 + 10
    }
}

/// The number a run of decimal digits denotes, most significant first.
pub open spec fn dec_val(s: Seq<char>) -> int
    decreases s.len(),
{
    if s.len() == 0 {
        0
    } else {
        dec_val(s.drop_last()) * 10 + digit_val(s.last())
    }
}

/// The text with every underscore removed.
pub open spec fn strip_underscores(s: Seq<char>) -> Seq<char>
    decreases s.len(),
{
    if s.len() == 0 {
        Seq::empty()
    } else if s.last() == '_' {
        strip_underscores(s.drop_last())
    } else {
        strip_underscores(s.drop_last()).push(s.last())
    }
}

/// Reading of a digit-and-underscore run as a `u32`; a value past
/// `u32::MAX` silently reads as 0, as does an empty run.
pub open spec fn capped_u32(s: Seq<char>) -> u32 {
    if dec_val(strip_underscores(s)) <= u32::MAX {
        dec_val(strip_underscores(s)) as u32
    } else {
        0u32
    }
}

/// A digit run's value never shrinks when the run grows on the right.
pub proof fn lemma_dec_val_nonneg(s: Seq<char>)
    requires
        forall|k: int| 0 <= k < s.len() ==> is_digit(#[trigger] s[k]),
    ensures
        dec_val(s) >= 0,
    decreases s.len(),
{
    if s.len() > 0 {
        lemma_dec_val_nonneg(s.drop_last());
    }
}

/// Exec mirror of `is_ws`.
pub fn ch_is_ws(c: char) -> (r: bool)
    ensures
        r == is_ws(c),
{
    c == ' ' || c == '\t' || c == '\r' || c == '\n'
}

/// Exec mirror of `is_digit`.
pub fn ch_is_digit(c: char) -> (r: bool)
    ensures
        r == is_digit(c),
{
    let u = c as u32;
    48 <= u && u <= 57
}

/// Exec mirror of `is_hex_digit`.
pub fn ch_is_hex_digit(c: char) -> (r: bool)
    ensures
        r == is_hex_digit(c),
{
    let u = c as u32;
    (48 <= u && u <= 57) || (97 <= u && u <= 102) || (65 <= u && u <= 70)
}

/// Exec mirror of `is_ascii_punct`.
pub fn ch_is_ascii_punct(c: char) -> (r: bool)
    ensures
        r == is_ascii_punct(c),
{
    let u = c as u32;
    (33 <= u && u <= 47) || (58 <= u && u <= 64) || (91 <= u && u <= 96) || (123 <= u && u <= 126)
}

/// Exec mirror of `is_addr_char`.
pub fn ch_is_addr_char(c: char) -> (r: bool)
    ensures
        r == is_addr_char(c),
{
    char_is_alphanumeric(c) || ch_is_ascii_punct(c)
}

/// Exec mirror of `digit_val`.
pub fn ch_digit_val(c: char) -> (r: u32)
    requires
        is_digit(c),
    ensures
        r == digit_val(c),
        r <= 9,
{
    c as u32 - 48
}

/// Exec mirror of `hex_digit_val`.
pub fn ch_hex_digit_val(c: char) -> (r: u32)
    requires
        is_hex_digit(c),
    ensures
        r == hex_digit_val(c),
        r <= 15,
{
    let u = c as u32;
    if 48 <= u && u <= 57 {
        u - 48
    } else if 97 <= u && u <= 102 {
        u - 97 + 10
    } else {
        u - 65 + 10
    }
}

} // verus!
