//! Named bytes of the shell grammar and the byte classes the parsers test for.

use vstd::prelude::*;

verus! {

pub const TAB: u8 = 0x09;

pub const NEWLINE: u8 = 0x0A;

pub const FORM_FEED: u8 = 0x0C;

pub const CARRIAGE_RETURN: u8 = 0x0D;

pub const SPACE: u8 = 0x20;

pub const DOUBLE_QUOTE: u8 = 0x22;

pub const DOLLAR: u8 = 0x24;

pub const AMPERSAND: u8 = 0x26;

pub const SINGLE_QUOTE: u8 = 0x27;

pub const OPEN_PAREN: u8 = 0x28;

pub const CLOSE_PAREN: u8 = 0x29;

pub const PLUS: u8 = 0x2B;

pub const COMMA: u8 = 0x2C;

pub const MINUS: u8 = 0x2D;

pub const DOT: u8 = 0x2E;

pub const DIGIT_ZERO: u8 = 0x30;

pub const DIGIT_ONE: u8 = 0x31;

pub const DIGIT_NINE: u8 = 0x39;

pub const SEMICOLON: u8 = 0x3B;

pub const LESS_THAN: u8 = 0x3C;

pub const EQUALS: u8 = 0x3D;

pub const GREATER_THAN: u8 = 0x3E;

pub const BACKSLASH: u8 = 0x5C;

pub const OPEN_BRACE: u8 = 0x7B;

pub const PIPE: u8 = 0x7C;

pub const CLOSE_BRACE: u8 = 0x7D;

/// Space or tab: the bytes that separate words on one line.
pub open spec fn spec_is_blank(b: u8) -> bool {
    b == SPACE || b == TAB
}

#[verifier::when_used_as_spec(spec_is_blank)]
pub fn is_blank(b: u8) -> (r: bool)
    ensures
        r == spec_is_blank(b),
{
    b == SPACE || b == TAB
}

/// The bytes that end a word in every context: blanks, newline and the
/// shell's control and redirection operators.
pub open spec fn spec_is_universal_stop(b: u8) -> bool {
    b == SPACE || b == TAB || b == NEWLINE || b == AMPERSAND || b == SEMICOLON || b == PIPE || b
        == OPEN_PAREN || b == CLOSE_PAREN || b == LESS_THAN || b == GREATER_THAN
}

#[verifier::when_used_as_spec(spec_is_universal_stop)]
pub fn is_universal_stop(b: u8) -> (r: bool)
    ensures
        r == spec_is_universal_stop(b),
{
    b == SPACE || b == TAB || b == NEWLINE || b == AMPERSAND || b == SEMICOLON || b == PIPE || b
        == OPEN_PAREN || b == CLOSE_PAREN || b == LESS_THAN || b == GREATER_THAN
}

/// `0` to `9`.
pub open spec fn spec_is_digit(b: u8) -> bool {
    DIGIT_ZERO <= b <= DIGIT_NINE
}

#[verifier::when_used_as_spec(spec_is_digit)]
pub fn is_digit(b: u8) -> (r: bool)
    ensures
        r == spec_is_digit(b),
{
    DIGIT_ZERO <= b && b <= DIGIT_NINE
}

/// `A` to `Z` or `a` to `z`.
pub open spec fn spec_is_alphabetic(b: u8) -> bool {
    (0x41 <= b <= 0x5A) || (0x61 <= b <= 0x7A)
}

#[verifier::when_used_as_spec(spec_is_alphabetic)]
pub fn is_alphabetic(b: u8) -> (r: bool)
    ensures
        r == spec_is_alphabetic(b),
{
    (0x41 <= b && b <= 0x5A) || (0x61 <= b && b <= 0x7A)
}

/// A letter or a digit.
pub open spec fn spec_is_alphanumeric(b: u8) -> bool {
    spec_is_alphabetic(b) || spec_is_digit(b)
}

#[verifier::when_used_as_spec(spec_is_alphanumeric)]
pub fn is_alphanumeric(b: u8) -> (r: bool)
    ensures
        r == spec_is_alphanumeric(b),
{
    is_alphabetic(b) || is_digit(b)
}

/// Space, tab, newline, form feed or carriage return.
pub open spec fn spec_is_whitespace(b: u8) -> bool {
    b == SPACE || b == TAB || b == NEWLINE || b == FORM_FEED || b == CARRIAGE_RETURN
}

#[verifier::when_used_as_spec(spec_is_whitespace)]
pub fn is_whitespace(b: u8) -> (r: bool)
    ensures
        r == spec_is_whitespace(b),
{
    b == SPACE || b == TAB || b == NEWLINE || b == FORM_FEED || b == CARRIAGE_RETURN
}

/// Whether `b` occurs in `stops`.
pub fn contains_byte(stops: &[u8], b: u8) -> (r: bool)
    ensures
        r == stops@.contains(b),
{
    let mut i: usize = 0;
    while i < stops.len()
        invariant
            i <= stops@.len(),
            forall|k: int| 0 <= k < i ==> stops@[k] != b,
        decreases stops@.len() - i,
    {
        if stops[i] == b {
            return true;
        }
        i += 1;
    }
    false
}

} // verus!
