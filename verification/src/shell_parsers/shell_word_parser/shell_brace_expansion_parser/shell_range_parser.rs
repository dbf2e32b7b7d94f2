//! Brace ranges: `{start..end}` and `{start..end..step}`.
//!
//! The parser begins behind the `{`. A range of characters has a letter as
//! each bound; a range of integers has signed decimal bounds. The step is a
//! signed decimal number in both.

use crate::byte_classes::{is_alphabetic, is_digit, CLOSE_BRACE, DIGIT_ONE, DOT, MINUS, PLUS};
use crate::decimal::{decimal_value, parse_decimal};
use crate::shell_input_iterator::{literal_at, ShellInputIterator, ShellInputIteratorExt};
use crate::shell_parser_base::{failure_of, position_after, reports, ParseError, ParseResult,
    Parsed};
use crate::shell_structures::shell_word::shell_brace_expansion::shell_range::{
    validated_char_range, validated_int_range, ShellRange};
use vstd::prelude::*;

verus! {

/// The first position at or after `pos` that holds no digit.
pub open spec fn digits_end(s: Seq<u8>, pos: int) -> int
    decreases s.len() - pos,
{
    if 0 <= pos < s.len() && is_digit(s[pos]) {
        digits_end(s, pos + 1)
    } else {
        pos
    }
}

/// `digits_end` ends a run of digits that cannot be longer.
pub proof fn lemma_digits_end(s: Seq<u8>, pos: int)
    requires
        0 <= pos <= s.len(),
    ensures
        pos <= digits_end(s, pos) <= s.len(),
        digits_end(s, pos) < s.len() ==> !is_digit(s[digits_end(s, pos)]),
    decreases s.len() - pos,
{
    if pos < s.len() && is_digit(s[pos]) {
        lemma_digits_end(s, pos + 1);
    }
}

/// The position behind the longest run at `pos` that a number could be: a
/// sign, if there is one, and the digits that follow.
pub open spec fn number_end(s: Seq<u8>, pos: int) -> int {
    if 0 <= pos < s.len() && (s[pos] == MINUS || s[pos] == PLUS) {
        digits_end(s, pos + 1)
    } else {
        digits_end(s, pos)
    }
}

/// An integer bound or a step at `pos`. Incomplete if the input ends with
/// it, since more digits could follow; not present if the run at `pos` is no
/// 64-bit decimal number.
pub open spec fn int_element_at(s: Seq<u8>, pos: int) -> Parsed<Seq<u8>> {
    let end = number_end(s, pos);
    if end >= s.len() {
        Parsed::Incomplete
    } else if decimal_value(s.subrange(pos, end)) is None {
        Parsed::NotPresent
    } else {
        Parsed::Matched { value: s.subrange(pos, end), rest: end }
    }
}

/// A character bound at `pos`: one letter.
pub open spec fn char_element_at(s: Seq<u8>, pos: int) -> Parsed<Seq<u8>> {
    if pos >= s.len() {
        Parsed::Incomplete
    } else if is_alphabetic(s[pos]) {
        Parsed::Matched { value: seq![s[pos]], rest: pos + 1 }
    } else {
        Parsed::NotPresent
    }
}

/// A bound at `pos`, of the kind that the range has.
pub open spec fn element_at(s: Seq<u8>, pos: int, as_chars: bool) -> Parsed<Seq<u8>> {
    if as_chars {
        char_element_at(s, pos)
    } else {
        int_element_at(s, pos)
    }
}

/// Whether the input ends at or after `pos` without having departed from
/// `literal`, and before `literal` is complete.
pub open spec fn cut_short_at(s: Seq<u8>, pos: int, literal: Seq<u8>) -> bool {
    &&& s.len() - pos < literal.len()
    &&& forall|k: int| 0 <= k < s.len() - pos ==> s[pos + k] == #[trigger] literal[k]
}

/// `literal` at `pos`: matched if it stands there, incomplete if the input
/// ends inside it, else not present.
pub open spec fn expected_at(s: Seq<u8>, pos: int, literal: Seq<u8>) -> Parsed<()> {
    if literal_at(s, pos, literal) {
        Parsed::Matched { value: (), rest: pos + literal.len() }
    } else if cut_short_at(s, pos, literal) {
        Parsed::Incomplete
    } else {
        Parsed::NotPresent
    }
}

/// The `..` between two elements.
pub open spec fn separator() -> Seq<u8> {
    seq![DOT, DOT]
}

/// The step of a range that names none.
pub open spec fn default_step() -> Seq<u8> {
    seq![DIGIT_ONE]
}

/// What follows the second bound at `pos`: the closing brace, or `..`, a
/// step and the closing brace. The value is the text of the step.
pub open spec fn range_end_at(s: Seq<u8>, pos: int) -> Parsed<Seq<u8>> {
    if pos >= s.len() {
        Parsed::Incomplete
    } else if s[pos] == CLOSE_BRACE {
        Parsed::Matched { value: default_step(), rest: pos + 1 }
    } else {
        match expected_at(s, pos, separator()) {
            Parsed::Matched { value, rest } => match int_element_at(s, rest) {
                Parsed::Matched { value: step, rest: end } => if s[end] == CLOSE_BRACE {
                    Parsed::Matched { value: step, rest: end + 1 }
                } else {
                    Parsed::NotPresent
                },
                other => failure_of(other),
            },
            other => failure_of(other),
        }
    }
}

/// The texts of start, end and step of the range whose first bound begins
/// at `pos`, behind the `{`.
pub open spec fn range_texts_at(s: Seq<u8>, pos: int, as_chars: bool) -> Parsed<
    (Seq<u8>, Seq<u8>, Seq<u8>),
> {
    match element_at(s, pos, as_chars) {
        Parsed::Matched { value: first, rest: after_first } => match expected_at(
            s,
            after_first,
            separator(),
        ) {
            Parsed::Matched { value, rest: after_dots } => match element_at(s, after_dots, as_chars) {
                Parsed::Matched { value: second, rest: after_second } => match range_end_at(
                    s,
                    after_second,
                ) {
                    Parsed::Matched { value: step, rest } => Parsed::Matched {
                        value: (first, second, step),
                        rest,
                    },
                    other => failure_of(other),
                },
                other => failure_of(other),
            },
            other => failure_of(other),
        },
        other => failure_of(other),
    }
}

/// The range that begins at `pos`, behind the `{`. It is a range of
/// characters if a letter stands at `pos`, else one of integers. Texts that
/// have the shape of a range but denote none give no range.
pub open spec fn range_at(s: Seq<u8>, pos: int) -> Parsed<ShellRange> {
    if pos < 0 || pos >= s.len() {
        Parsed::Incomplete
    } else {
        let as_chars = is_alphabetic(s[pos]);
        match range_texts_at(s, pos, as_chars) {
            Parsed::Matched { value, rest } => {
                let range = if as_chars {
                    validated_char_range(value.0, value.1, value.2)
                } else {
                    validated_int_range(value.0, value.1, value.2)
                };
                match range {
                    Some(range) => Parsed::Matched { value: range, rest },
                    None => Parsed::NotPresent,
                }
            },
            other => failure_of(other),
        }
    }
}

/// A bound that is matched is not empty and ends within the input.
pub proof fn lemma_element_at(s: Seq<u8>, pos: int, as_chars: bool)
    requires
        0 <= pos <= s.len(),
    ensures
        element_at(s, pos, as_chars) matches Parsed::Matched { value, rest } ==> pos < rest
            <= s.len(),
{
    lemma_digits_end(s, pos);
    if pos < s.len() {
        lemma_digits_end(s, pos + 1);
    }
}

/// The end of a range, if it is matched, lies behind `pos` and within the
/// input.
pub proof fn lemma_range_end_at(s: Seq<u8>, pos: int)
    requires
        0 <= pos <= s.len(),
    ensures
        range_end_at(s, pos) matches Parsed::Matched { value, rest } ==> pos < rest <= s.len(),
{
    if let Parsed::Matched { value, rest } = expected_at(s, pos, separator()) {
        lemma_element_at(s, rest, false);
    }
}

/// The texts of a range, if they are matched, end behind `pos` and within
/// the input.
pub proof fn lemma_range_texts_at(s: Seq<u8>, pos: int, as_chars: bool)
    requires
        0 <= pos <= s.len(),
    ensures
        range_texts_at(s, pos, as_chars) matches Parsed::Matched { value, rest } ==> pos < rest
            <= s.len(),
        !(range_texts_at(s, pos, as_chars) is Malformed),
        !(range_texts_at(s, pos, as_chars) is NotImplemented),
{
    lemma_element_at(s, pos, as_chars);
    if let Parsed::Matched { value: first, rest: after_first } = element_at(s, pos, as_chars) {
        if let Parsed::Matched { value, rest: after_dots } = expected_at(
            s,
            after_first,
            separator(),
        ) {
            lemma_element_at(s, after_dots, as_chars);
            if let Parsed::Matched { value: second, rest: after_second } = element_at(
                s,
                after_dots,
                as_chars,
            ) {
                lemma_range_end_at(s, after_second);
            }
        }
    }
}

/// A matched range ends behind its first byte and within the input; a
/// range is never malformed or of a reserved kind.
pub proof fn lemma_range_at(s: Seq<u8>, pos: int)
    requires
        0 <= pos <= s.len(),
    ensures
        range_at(s, pos) matches Parsed::Matched { value, rest } ==> pos < rest <= s.len(),
        !(range_at(s, pos) is Malformed),
        !(range_at(s, pos) is NotImplemented),
{
    if pos < s.len() {
        lemma_range_texts_at(s, pos, is_alphabetic(s[pos]));
    }
}

/// Whether `byte` is a digit.
pub fn accepts_digit(byte: &u8) -> (accepted: bool)
    ensures
        accepted == is_digit(*byte),
{
    is_digit(*byte)
}

/// Reads a brace range, whose `{` has been consumed.
pub struct ShellRangeParser {
    pub iter: ShellInputIterator,
}

impl ShellRangeParser {
    pub fn new(iter: ShellInputIterator) -> (parser: Self)
        ensures
            parser.iter == iter,
    {
        Self { iter }
    }

    /// Reads a signed decimal number that is followed by at least one byte.
    pub fn try_parse_int(&mut self) -> (result: ParseResult<Vec<u8>>)
        ensures
            final(self).iter.input() == old(self).iter.input(),
            reports(result, int_element_at(old(self).iter.input(), old(self).iter.position())),
            final(self).iter.position() == position_after(
                int_element_at(old(self).iter.input(), old(self).iter.position()),
                old(self).iter.position(),
            ),
    {
        Self::try_parse_int_in(&mut self.iter)
    }

    /// Reads one letter.
    pub fn try_parse_char(&mut self) -> (result: ParseResult<Vec<u8>>)
        ensures
            final(self).iter.input() == old(self).iter.input(),
            reports(result, char_element_at(old(self).iter.input(), old(self).iter.position())),
            final(self).iter.position() == position_after(
                char_element_at(old(self).iter.input(), old(self).iter.position()),
                old(self).iter.position(),
            ),
    {
        Self::try_parse_char_in(&mut self.iter)
    }

    /// Reads the texts of start, end and step up to the closing brace. The
    /// bounds are letters if `as_chars` is set, else numbers.
    pub fn try_parse_range(&mut self, as_chars: bool) -> (result: ParseResult<
        (Vec<u8>, Vec<u8>, Vec<u8>),
    >)
        ensures
            final(self).iter.input() == old(self).iter.input(),
            reports(
                result,
                range_texts_at(old(self).iter.input(), old(self).iter.position(), as_chars),
            ),
            final(self).iter.position() == position_after(
                range_texts_at(old(self).iter.input(), old(self).iter.position(), as_chars),
                old(self).iter.position(),
            ),
    {
        Self::try_parse_range_in(&mut self.iter, as_chars)
    }

    /// Reads a range up to its closing brace.
    pub fn parse(&mut self) -> (result: ParseResult<ShellRange>)
        ensures
            final(self).iter.input() == old(self).iter.input(),
            reports(result, range_at(old(self).iter.input(), old(self).iter.position())),
            final(self).iter.position() == position_after(
                range_at(old(self).iter.input(), old(self).iter.position()),
                old(self).iter.position(),
            ),
    {
        Self::parse_in(&mut self.iter)
    }

    /// `try_parse_int` on a reader that the caller keeps.
    pub fn try_parse_int_in(iter: &mut ShellInputIterator) -> (result: ParseResult<Vec<u8>>)
        ensures
            final(iter).input() == old(iter).input(),
            reports(result, int_element_at(old(iter).input(), old(iter).position())),
            final(iter).position() == position_after(
                int_element_at(old(iter).input(), old(iter).position()),
                old(iter).position(),
            ),
    {
        let start = iter.checkpoint();
        let ghost s = iter.input();
        let ghost from = iter.position();
        let mut text: Vec<u8> = Vec::new();
        match iter.peek() {
            Some(byte) => {
                if byte == MINUS || byte == PLUS {
                    iter.next();
                    text.push(byte);
                }
            },
            None => {},
        }
        let ghost digits_from = iter.position();
        assert(text@ =~= s.subrange(from, digits_from));
        proof {
            lemma_digits_end(s, digits_from);
        }
        loop
            invariant
                iter.input() == s,
                s == old(iter).input(),
                from == old(iter).position(),
                start.position() == from,
                0 <= from <= digits_from <= iter.position() <= s.len(),
                text@ == s.subrange(from, iter.position()),
                digits_end(s, iter.position()) == number_end(s, from),
            ensures
                iter.position() < s.len() ==> !is_digit(s[iter.position()]),
            decreases s.len() - iter.position(),
        {
            let ghost at = iter.position();
            let taken = iter.next_if(accepts_digit);
            match taken {
                Some(byte) => {
                    text.push(byte);
                    assert(text@ =~= s.subrange(from, at + 1));
                },
                None => {
                    break ;
                },
            }
        }
        proof {
            lemma_digits_end(s, iter.position());
        }
        if iter.peek().is_none() {
            iter.restore(start);
            return Err(ParseError::RequiresNextLine);
        }
        match parse_decimal(text.as_slice()) {
            Some(_) => Ok(Some(text)),
            None => {
                iter.restore(start);
                Ok(None)
            },
        }
    }

    /// `try_parse_char` on a reader that the caller keeps.
    pub fn try_parse_char_in(iter: &mut ShellInputIterator) -> (result: ParseResult<Vec<u8>>)
        ensures
            final(iter).input() == old(iter).input(),
            reports(result, char_element_at(old(iter).input(), old(iter).position())),
            final(iter).position() == position_after(
                char_element_at(old(iter).input(), old(iter).position()),
                old(iter).position(),
            ),
    {
        match iter.peek() {
            None => Err(ParseError::RequiresNextLine),
            Some(byte) => {
                if is_alphabetic(byte) {
                    iter.next();
                    let mut text: Vec<u8> = Vec::new();
                    text.push(byte);
                    assert(text@ =~= seq![byte]);
                    Ok(Some(text))
                } else {
                    Ok(None)
                }
            },
        }
    }

    /// Reads `literal`, or tells why it is not there.
    pub fn expect_in(iter: &mut ShellInputIterator, literal: &[u8]) -> (result: ParseResult<()>)
        ensures
            final(iter).input() == old(iter).input(),
            reports(result, expected_at(old(iter).input(), old(iter).position(), literal@)),
            final(iter).position() == position_after(
                expected_at(old(iter).input(), old(iter).position(), literal@),
                old(iter).position(),
            ),
    {
        let start = iter.checkpoint();
        let ghost s = iter.input();
        let ghost from = iter.position();
        let mut k: usize = 0;
        while k < literal.len()
            invariant
                iter.input() == s,
                s == old(iter).input(),
                from == old(iter).position(),
                start.position() == from,
                k <= literal@.len(),
                0 <= from,
                iter.position() == from + k,
                from + k <= s.len(),
                forall|j: int| 0 <= j < k ==> s[from + j] == #[trigger] literal@[j],
            decreases literal@.len() - k,
        {
            match iter.next() {
                None => {
                    iter.restore(start);
                    return Err(ParseError::RequiresNextLine);
                },
                Some(byte) => {
                    if byte != literal[k] {
                        assert(s[from + k] != literal@[k as int]);
                        iter.restore(start);
                        return Ok(None);
                    }
                },
            }
            k += 1;
        }
        Ok(Some(()))
    }

    /// Reads what follows the second bound, and returns the text of the step.
    pub fn parse_range_end_in(iter: &mut ShellInputIterator) -> (result: ParseResult<Vec<u8>>)
        ensures
            final(iter).input() == old(iter).input(),
            reports(result, range_end_at(old(iter).input(), old(iter).position())),
            final(iter).position() == position_after(
                range_end_at(old(iter).input(), old(iter).position()),
                old(iter).position(),
            ),
    {
        let start = iter.checkpoint();
        match iter.peek() {
            None => { return Err(ParseError::RequiresNextLine); },
            Some(byte) => {
                if byte == CLOSE_BRACE {
                    iter.next();
                    let mut step: Vec<u8> = Vec::new();
                    step.push(DIGIT_ONE);
                    assert(step@ =~= default_step());
                    return Ok(Some(step));
                }
            },
        }
        let dots: [u8; 2] = [DOT, DOT];
        assert(dots@ =~= separator());
        match Self::expect_in(iter, dots.as_slice()) {
            Ok(Some(_)) => {},
            Ok(None) => { return Ok(None); },
            Err(error) => { return Err(error); },
        }
        let step = match Self::try_parse_int_in(iter) {
            Ok(Some(step)) => step,
            Ok(None) => {
                iter.restore(start);
                return Ok(None);
            },
            Err(error) => {
                iter.restore(start);
                return Err(error);
            },
        };
        match iter.next() {
            Some(byte) => {
                if byte == CLOSE_BRACE {
                    Ok(Some(step))
                } else {
                    iter.restore(start);
                    Ok(None)
                }
            },
            None => {
                iter.restore(start);
                Ok(None)
            },
        }
    }

    /// `try_parse_range` on a reader that the caller keeps.
    pub fn try_parse_range_in(iter: &mut ShellInputIterator, as_chars: bool) -> (result:
        ParseResult<(Vec<u8>, Vec<u8>, Vec<u8>)>)
        ensures
            final(iter).input() == old(iter).input(),
            reports(result, range_texts_at(old(iter).input(), old(iter).position(), as_chars)),
            final(iter).position() == position_after(
                range_texts_at(old(iter).input(), old(iter).position(), as_chars),
                old(iter).position(),
            ),
    {
        let start = iter.checkpoint();
        let first_result = if as_chars {
            Self::try_parse_char_in(iter)
        } else {
            Self::try_parse_int_in(iter)
        };
        let first = match first_result {
            Ok(Some(first)) => first,
            Ok(None) => { return Ok(None); },
            Err(error) => { return Err(error); },
        };
        let dots: [u8; 2] = [DOT, DOT];
        assert(dots@ =~= separator());
        match Self::expect_in(iter, dots.as_slice()) {
            Ok(Some(_)) => {},
            Ok(None) => {
                iter.restore(start);
                return Ok(None);
            },
            Err(error) => {
                iter.restore(start);
                return Err(error);
            },
        }
        let second_result = if as_chars {
            Self::try_parse_char_in(iter)
        } else {
            Self::try_parse_int_in(iter)
        };
        let second = match second_result {
            Ok(Some(second)) => second,
            Ok(None) => {
                iter.restore(start);
                return Ok(None);
            },
            Err(error) => {
                iter.restore(start);
                return Err(error);
            },
        };
        match Self::parse_range_end_in(iter) {
            Ok(Some(step)) => Ok(Some((first, second, step))),
            Ok(None) => {
                iter.restore(start);
                Ok(None)
            },
            Err(error) => {
                iter.restore(start);
                Err(error)
            },
        }
    }

    /// `parse` on a reader that the caller keeps.
    pub fn parse_in(iter: &mut ShellInputIterator) -> (result: ParseResult<ShellRange>)
        ensures
            final(iter).input() == old(iter).input(),
            reports(result, range_at(old(iter).input(), old(iter).position())),
            final(iter).position() == position_after(
                range_at(old(iter).input(), old(iter).position()),
                old(iter).position(),
            ),
    {
        let start = iter.checkpoint();
        let as_chars: bool = match iter.peek() {
            Some(byte) => is_alphabetic(byte),
            None => { return Err(ParseError::RequiresNextLine); },
        };
        let (first, second, step) = match Self::try_parse_range_in(iter, as_chars) {
            Ok(Some(texts)) => texts,
            Ok(None) => { return Ok(None); },
            Err(error) => { return Err(error); },
        };
        let create = if as_chars {
            ShellRange::get_char_create_func()
        } else {
            ShellRange::get_int_create_func()
        };
        match create.call(&first, &second, &step) {
            Some(range) => Ok(Some(range)),
            None => {
                iter.restore(start);
                Ok(None)
            },
        }
    }
}

} // verus!
