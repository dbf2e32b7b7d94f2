//! Strong quotes, `'...'`, and weak quotes, `"..."`.

use crate::byte_classes::{BACKSLASH, DOLLAR, NEWLINE, SINGLE_QUOTE};
use crate::shell_input_iterator::{ShellInputIterator, ShellInputIteratorExt};
use crate::shell_parser_base::{position_after, reports, ParseError, ParseResult, Parsed};
use crate::shell_parsers::shell_word_parser::shell_dollar_sign_expansion_parser::{
    opens_substitution, substitution_at};
use crate::shell_structures::shell_word::quoted_expressions::{append_bytes, QuoteExpression,
    QuoteExpressionView, StrongQuoteExpression, WeakQuoteExpression, WeakQuoteExpressionPart,
    WeakQuotePartView};
use vstd::prelude::*;

verus! {

/// The first position at or after `pos` that holds `byte`, or the length
/// of `s` if there is none.
pub open spec fn position_of(s: Seq<u8>, pos: int, byte: u8) -> int
    decreases s.len() - pos,
{
    if 0 <= pos < s.len() && s[pos] != byte {
        position_of(s, pos + 1, byte)
    } else {
        pos
    }
}

/// `position_of` yields the first occurrence.
pub proof fn lemma_position_of(s: Seq<u8>, pos: int, byte: u8)
    requires
        0 <= pos <= s.len(),
    ensures
        pos <= position_of(s, pos, byte) <= s.len(),
        position_of(s, pos, byte) < s.len() ==> s[position_of(s, pos, byte)] == byte,
        forall|k: int| pos <= k < position_of(s, pos, byte) ==> #[trigger] s[k] != byte,
    decreases s.len() - pos,
{
    if pos < s.len() && s[pos] != byte {
        lemma_position_of(s, pos + 1, byte);
    }
}

/// The strong quote whose contents begin at `pos`: everything up to the next
/// `'`, taken as it stands. Incomplete if no `'` follows.
pub open spec fn strong_quote_at(s: Seq<u8>, pos: int) -> Parsed<QuoteExpressionView> {
    let end = position_of(s, pos, SINGLE_QUOTE);
    if end < s.len() {
        Parsed::Matched { value: QuoteExpressionView::Strong(s.subrange(pos, end)), rest: end + 1 }
    } else {
        Parsed::Incomplete
    }
}

/// `tail` with `prefix` in front of the bytes that it matched.
pub open spec fn with_prefix(prefix: Seq<u8>, tail: Parsed<Seq<u8>>) -> Parsed<Seq<u8>> {
    match tail {
        Parsed::Matched { value, rest } => Parsed::Matched { value: prefix + value, rest },
        other => other,
    }
}

/// The part that a `$` just before `pos` becomes inside a weak quote: a
/// literal `$`, unless the `$` begins a substitution.
pub open spec fn weak_dollar_part_at(s: Seq<u8>, pos: int) -> Parsed<WeakQuotePartView> {
    if substitution_at(s, pos - 1) {
        Parsed::NotImplemented
    } else {
        Parsed::Matched { value: WeakQuotePartView::Literal(seq![DOLLAR]), rest: pos }
    }
}

/// The bytes that a weak quote holds whose contents begin at `pos`, up to
/// the next `terminator` that is not escaped.
///
/// Behind a backslash, a backslash, a `$` or the terminator stands for
/// itself, a newline vanishes together with the backslash, and any other
/// byte keeps the backslash in front of it. A `$` stands for itself unless
/// it begins a substitution.
pub open spec fn weak_contents_at(s: Seq<u8>, pos: int, terminator: u8) -> Parsed<Seq<u8>>
    decreases s.len() - pos,
{
    if pos < 0 || pos >= s.len() {
        Parsed::Incomplete
    } else if s[pos] == BACKSLASH {
        if pos + 1 >= s.len() {
            Parsed::Incomplete
        } else {
            let next = s[pos + 1];
            let tail = weak_contents_at(s, pos + 2, terminator);
            if next == BACKSLASH || next == DOLLAR || next == terminator {
                with_prefix(seq![next], tail)
            } else if next == NEWLINE {
                tail
            } else {
                with_prefix(seq![BACKSLASH, next], tail)
            }
        }
    } else if s[pos] == DOLLAR {
        if substitution_at(s, pos) {
            Parsed::NotImplemented
        } else {
            with_prefix(seq![DOLLAR], weak_contents_at(s, pos + 1, terminator))
        }
    } else if s[pos] == terminator {
        Parsed::Matched { value: Seq::empty(), rest: pos + 1 }
    } else {
        with_prefix(seq![s[pos]], weak_contents_at(s, pos + 1, terminator))
    }
}

/// The parts of a weak quote that holds `contents`: one literal, or none
/// where the quote is empty.
pub open spec fn weak_parts_of(contents: Seq<u8>) -> Seq<WeakQuotePartView> {
    if contents.len() == 0 {
        Seq::empty()
    } else {
        seq![WeakQuotePartView::Literal(contents)]
    }
}

/// The weak quote whose contents begin at `pos`.
pub open spec fn weak_quote_at(s: Seq<u8>, pos: int, terminator: u8) -> Parsed<QuoteExpressionView> {
    match weak_contents_at(s, pos, terminator) {
        Parsed::Matched { value, rest } => Parsed::Matched {
            value: QuoteExpressionView::Weak(weak_parts_of(value)),
            rest,
        },
        Parsed::NotPresent => Parsed::NotPresent,
        Parsed::Incomplete => Parsed::Incomplete,
        Parsed::Malformed { offset } => Parsed::Malformed { offset },
        Parsed::NotImplemented => Parsed::NotImplemented,
    }
}

/// Putting two prefixes in front, one after the other, is putting their
/// concatenation in front.
pub proof fn lemma_with_prefix_twice(first: Seq<u8>, second: Seq<u8>, tail: Parsed<Seq<u8>>)
    ensures
        with_prefix(first, with_prefix(second, tail)) == with_prefix(first + second, tail),
{
    match tail {
        Parsed::Matched { value, rest } => {
            assert(first + (second + value) =~= (first + second) + value);
        },
        _ => {},
    }
}

/// A weak quote is matched only behind its terminator, and is never absent
/// or malformed.
pub proof fn lemma_weak_contents_at(s: Seq<u8>, pos: int, terminator: u8)
    requires
        0 <= pos <= s.len(),
    ensures
        weak_contents_at(s, pos, terminator) matches Parsed::Matched { value, rest } ==> pos < rest
            <= s.len(),
        !(weak_contents_at(s, pos, terminator) is NotPresent),
        !(weak_contents_at(s, pos, terminator) is Malformed),
    decreases s.len() - pos,
{
    if pos < s.len() {
        if s[pos] == BACKSLASH {
            if pos + 1 < s.len() {
                lemma_weak_contents_at(s, pos + 2, terminator);
            }
        } else if s[pos] == DOLLAR {
            if !substitution_at(s, pos) {
                lemma_weak_contents_at(s, pos + 1, terminator);
            }
        } else if s[pos] != terminator {
            lemma_weak_contents_at(s, pos + 1, terminator);
        }
    }
}

/// A strong quote that is not closed is incomplete.
pub proof fn lemma_open_strong_quote(s: Seq<u8>, pos: int)
    requires
        0 <= pos <= s.len(),
        forall|k: int| pos <= k < s.len() ==> #[trigger] s[k] != SINGLE_QUOTE,
    ensures
        strong_quote_at(s, pos) is Incomplete,
{
    lemma_position_of(s, pos, SINGLE_QUOTE);
}

/// A weak quote that is not closed is not matched: it is incomplete, or
/// of a reserved kind if it holds a substitution.
pub proof fn lemma_open_weak_quote(s: Seq<u8>, pos: int, terminator: u8)
    requires
        0 <= pos <= s.len(),
        forall|k: int| pos <= k < s.len() ==> #[trigger] s[k] != terminator,
    ensures
        weak_quote_at(s, pos, terminator) is Incomplete || weak_quote_at(s, pos, terminator)
            is NotImplemented,
    decreases s.len() - pos,
{
    if pos < s.len() {
        if s[pos] == BACKSLASH {
            if pos + 1 < s.len() {
                lemma_open_weak_quote(s, pos + 2, terminator);
            }
        } else if s[pos] == DOLLAR {
            if !substitution_at(s, pos) {
                lemma_open_weak_quote(s, pos + 1, terminator);
            }
        } else {
            lemma_open_weak_quote(s, pos + 1, terminator);
        }
    }
}

/// Reads the contents of a quote, whose opening mark has been consumed.
pub struct QuotedExpressionParser {
    pub iter: ShellInputIterator,
}

impl QuotedExpressionParser {
    pub fn new(iter: ShellInputIterator) -> (parser: Self)
        ensures
            parser.iter == iter,
    {
        Self { iter }
    }

    /// Reads a strong quote up to and including its closing `'`.
    pub fn parse_strong(&mut self) -> (result: ParseResult<QuoteExpression>)
        ensures
            final(self).iter.input() == old(self).iter.input(),
            reports(result, strong_quote_at(old(self).iter.input(), old(self).iter.position())),
            final(self).iter.position() == position_after(
                strong_quote_at(old(self).iter.input(), old(self).iter.position()),
                old(self).iter.position(),
            ),
    {
        Self::parse_strong_in(&mut self.iter)
    }

    /// Reads a weak quote up to and including its closing `end_char`.
    pub fn parse_weak(&mut self, end_char: u8) -> (result: ParseResult<QuoteExpression>)
        ensures
            final(self).iter.input() == old(self).iter.input(),
            reports(
                result,
                weak_quote_at(old(self).iter.input(), old(self).iter.position(), end_char),
            ),
            final(self).iter.position() == position_after(
                weak_quote_at(old(self).iter.input(), old(self).iter.position(), end_char),
                old(self).iter.position(),
            ),
    {
        Self::parse_weak_in(&mut self.iter, end_char)
    }

    /// Reads what follows a `$` that has been consumed: the part that the
    /// `$` becomes.
    pub fn try_parse_dollar_sign_expansion(&mut self) -> (result: ParseResult<
        WeakQuoteExpressionPart,
    >)
        ensures
            final(self).iter.input() == old(self).iter.input(),
            final(self).iter.position() == old(self).iter.position(),
            reports(
                result,
                weak_dollar_part_at(old(self).iter.input(), old(self).iter.position()),
            ),
    {
        Self::dollar_sign_part_in(&mut self.iter)
    }

    /// `try_parse_dollar_sign_expansion` on a reader that the caller keeps.
    pub fn dollar_sign_part_in(iter: &mut ShellInputIterator) -> (result: ParseResult<
        WeakQuoteExpressionPart,
    >)
        ensures
            final(iter).input() == old(iter).input(),
            final(iter).position() == old(iter).position(),
            reports(result, weak_dollar_part_at(old(iter).input(), old(iter).position())),
    {
        let begins: bool = match iter.peek() {
            Some(next) => opens_substitution(next),
            None => false,
        };
        if begins {
            Err(ParseError::NotImplemented)
        } else {
            let mut bytes: Vec<u8> = Vec::new();
            bytes.push(DOLLAR);
            assert(bytes@ =~= seq![DOLLAR]);
            Ok(Some(WeakQuoteExpressionPart::Literal(bytes)))
        }
    }

    /// `parse_strong` on a reader that the caller keeps.
    pub fn parse_strong_in(iter: &mut ShellInputIterator) -> (result: ParseResult<QuoteExpression>)
        ensures
            final(iter).input() == old(iter).input(),
            reports(result, strong_quote_at(old(iter).input(), old(iter).position())),
            final(iter).position() == position_after(
                strong_quote_at(old(iter).input(), old(iter).position()),
                old(iter).position(),
            ),
    {
        let start = iter.checkpoint();
        let ghost s = iter.input();
        let ghost from = iter.position();
        let mut contents: Vec<u8> = Vec::new();
        proof {
            lemma_position_of(s, from, SINGLE_QUOTE);
        }
        loop
            invariant
                iter.input() == s,
                s == old(iter).input(),
                from == old(iter).position(),
                0 <= from <= iter.position() <= position_of(s, from, SINGLE_QUOTE) <= s.len(),
                contents@ == s.subrange(from, iter.position()),
                start.position() == from,
                forall|k: int| from <= k < position_of(s, from, SINGLE_QUOTE) ==> #[trigger] s[k]
                    != SINGLE_QUOTE,
                position_of(s, from, SINGLE_QUOTE) < s.len() ==> s[position_of(
                    s,
                    from,
                    SINGLE_QUOTE,
                )] == SINGLE_QUOTE,
            decreases s.len() - iter.position(),
        {
            let ghost at = iter.position();
            match iter.next() {
                None => {
                    iter.restore(start);
                    return Err(ParseError::RequiresNextLine);
                },
                Some(byte) => {
                    if byte == SINGLE_QUOTE {
                        let quote = QuoteExpression::Strong(StrongQuoteExpression { contents });
                        return Ok(Some(quote));
                    }
                    contents.push(byte);
                    assert(contents@ =~= s.subrange(from, at + 1));
                },
            }
        }
    }

    /// `parse_weak` on a reader that the caller keeps.
    pub fn parse_weak_in(iter: &mut ShellInputIterator, end_char: u8) -> (result: ParseResult<
        QuoteExpression,
    >)
        ensures
            final(iter).input() == old(iter).input(),
            reports(result, weak_quote_at(old(iter).input(), old(iter).position(), end_char)),
            final(iter).position() == position_after(
                weak_quote_at(old(iter).input(), old(iter).position(), end_char),
                old(iter).position(),
            ),
    {
        let start = iter.checkpoint();
        let ghost s = iter.input();
        let ghost from = iter.position();
        let mut contents: Vec<u8> = Vec::new();
        proof {
            if let Parsed::Matched { value, rest } = weak_contents_at(s, from, end_char) {
                assert(contents@ + value =~= value);
            }
        }
        loop
            invariant
                iter.input() == s,
                s == old(iter).input(),
                from == old(iter).position(),
                0 <= from <= iter.position() <= s.len(),
                start.position() == from,
                weak_contents_at(s, from, end_char) == with_prefix(
                    contents@,
                    weak_contents_at(s, iter.position(), end_char),
                ),
            decreases s.len() - iter.position(),
        {
            let ghost at = iter.position();
            let ghost held = contents@;
            match iter.next() {
                None => {
                    iter.restore(start);
                    return Err(ParseError::RequiresNextLine);
                },
                Some(byte) => {
                    if byte == BACKSLASH {
                        match iter.next() {
                            None => {
                                iter.restore(start);
                                return Err(ParseError::RequiresNextLine);
                            },
                            Some(next) => {
                                if next == BACKSLASH || next == DOLLAR || next == end_char {
                                    contents.push(next);
                                    proof {
                                        lemma_with_prefix_twice(
                                            held,
                                            seq![next],
                                            weak_contents_at(s, at + 2, end_char),
                                        );
                                        assert(contents@ =~= held + seq![next]);
                                    }
                                } else if next != NEWLINE {
                                    contents.push(BACKSLASH);
                                    contents.push(next);
                                    proof {
                                        lemma_with_prefix_twice(
                                            held,
                                            seq![BACKSLASH, next],
                                            weak_contents_at(s, at + 2, end_char),
                                        );
                                        assert(contents@ =~= held + seq![BACKSLASH, next]);
                                    }
                                }
                            },
                        }
                    } else if byte == DOLLAR {
                        match Self::dollar_sign_part_in(iter) {
                            Ok(Some(WeakQuoteExpressionPart::Literal(bytes))) => {
                                append_bytes(&mut contents, &bytes);
                                proof {
                                    lemma_with_prefix_twice(
                                        held,
                                        seq![DOLLAR],
                                        weak_contents_at(s, at + 1, end_char),
                                    );
                                }
                            },
                            Ok(_) => {
                                iter.restore(start);
                                return Err(ParseError::NotImplemented);
                            },
                            Err(error) => {
                                iter.restore(start);
                                return Err(error);
                            },
                        }
                    } else if byte == end_char {
                        proof {
                            assert(held + Seq::<u8>::empty() =~= held);
                        }
                        let mut parts: Vec<WeakQuoteExpressionPart> = Vec::new();
                        if contents.len() > 0 {
                            parts.push(WeakQuoteExpressionPart::Literal(contents));
                        }
                        let quote = WeakQuoteExpression { parts };
                        assert(quote@ =~= weak_parts_of(held));
                        return Ok(Some(QuoteExpression::Weak(quote)));
                    } else {
                        contents.push(byte);
                        proof {
                            lemma_with_prefix_twice(
                                held,
                                seq![byte],
                                weak_contents_at(s, at + 1, end_char),
                            );
                            assert(contents@ =~= held + seq![byte]);
                        }
                    }
                },
            }
        }
    }
}

} // verus!
