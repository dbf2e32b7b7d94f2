//! Expansions introduced by `$`.
//!
//! The grammar of parameter, command and arithmetic substitution is
//! reserved. The parser tells a `$` that begins one, which it reports as not
//! implemented, from a `$` that stands for itself, which is no expansion.

use crate::byte_classes::{DOLLAR, OPEN_BRACE, OPEN_PAREN};
use crate::shell_input_iterator::{ShellInputIterator, ShellInputIteratorExt};
use crate::shell_parser_base::{reports, ParseError, ParseResult, Parsed};
use crate::shell_structures::shell_word::shell_dollar_sign_expansion::DollarSignExpansion;
use vstd::prelude::*;

verus! {

/// Whether a `$` in front of `byte` begins a substitution.
pub open spec fn spec_opens_substitution(byte: u8) -> bool {
    byte == OPEN_PAREN || byte == OPEN_BRACE || byte == DOLLAR
}

#[verifier::when_used_as_spec(spec_opens_substitution)]
pub fn opens_substitution(byte: u8) -> (r: bool)
    ensures
        r == spec_opens_substitution(byte),
{
    byte == OPEN_PAREN || byte == OPEN_BRACE || byte == DOLLAR
}

/// Whether a `$` at `pos` begins a substitution rather than standing for
/// itself.
pub open spec fn substitution_at(s: Seq<u8>, pos: int) -> bool {
    0 <= pos + 1 < s.len() && opens_substitution(s[pos + 1])
}

/// The expansion whose `$` stands just before `pos`.
pub open spec fn dollar_sign_expansion_at(s: Seq<u8>, pos: int) -> Parsed<DollarSignExpansion> {
    if substitution_at(s, pos - 1) {
        Parsed::NotImplemented
    } else {
        Parsed::NotPresent
    }
}

/// Reads what follows a `$` that has been consumed.
pub struct ShellDollarSignExpansionParser {
    pub iter: ShellInputIterator,
}

impl ShellDollarSignExpansionParser {
    pub fn new(iter: ShellInputIterator) -> (parser: Self)
        ensures
            parser.iter == iter,
    {
        Self { iter }
    }

    /// Reports whether a substitution begins here. The reader does not move.
    pub fn parse(&mut self) -> (result: ParseResult<DollarSignExpansion>)
        ensures
            final(self).iter.input() == old(self).iter.input(),
            final(self).iter.position() == old(self).iter.position(),
            reports(
                result,
                dollar_sign_expansion_at(old(self).iter.input(), old(self).iter.position()),
            ),
    {
        Self::parse_in(&mut self.iter)
    }

    /// `parse` on a reader that the caller keeps.
    pub fn parse_in(iter: &mut ShellInputIterator) -> (result: ParseResult<DollarSignExpansion>)
        ensures
            final(iter).input() == old(iter).input(),
            final(iter).position() == old(iter).position(),
            reports(result, dollar_sign_expansion_at(old(iter).input(), old(iter).position())),
    {
        match iter.peek() {
            Some(byte) => {
                if opens_substitution(byte) {
                    Err(ParseError::NotImplemented)
                } else {
                    Ok(None)
                }
            },
            None => Ok(None),
        }
    }
}

} // verus!
