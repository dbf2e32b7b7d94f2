//! The word parser and the parsers of the parts of a word.
//!
//! A word runs up to the next stop byte. Its bytes stand for themselves
//! unless they introduce a part of another kind: a backslash escapes the
//! byte behind it, `'` and `"` open quotes, `{` may open a brace expansion
//! and `$` a substitution. Bytes that stand for themselves are gathered
//! into literal parts that are as long as they can be.

use crate::byte_classes::{BACKSLASH, DOLLAR, DOUBLE_QUOTE, NEWLINE, OPEN_BRACE, SINGLE_QUOTE};
use crate::shell_input_iterator::{word_ends_at, ShellInputIterator, ShellInputIteratorExt};
use crate::shell_parser_base::{failure_of, position_after, reports, ParseError, ParseResult,
    Parsed, ShellWordParsingRules, ShellWordParsingRulesView};
use crate::shell_parsers::shell_word_parser::quoted_expression_parser::{lemma_position_of,
    lemma_weak_contents_at, strong_quote_at, weak_quote_at, QuotedExpressionParser};
use crate::shell_parsers::shell_word_parser::shell_brace_expansion_parser::{brace_expansion_at,
    lemma_brace_expansion_at, ShellBraceExpressionParser};
use crate::shell_parsers::shell_word_parser::shell_dollar_sign_expansion_parser::{
    dollar_sign_expansion_at, ShellDollarSignExpansionParser};
use crate::shell_structures::shell_word::{literals_merged, ShellExpression, ShellExpressionView,
    ShellWord, ShellWordView};
use vstd::prelude::*;

pub mod quoted_expression_parser;
pub mod shell_brace_expansion_parser;
pub mod shell_dollar_sign_expansion_parser;
pub mod word_laws;

verus! {

/// `parts` behind the literal bytes `pending`: the bytes join the literal
/// that `parts` begins with, or become a literal of their own.
pub open spec fn with_pending(pending: Seq<u8>, parts: ShellWordView) -> ShellWordView {
    if pending.len() == 0 {
        parts
    } else if parts.len() > 0 && parts[0] is Literal {
        seq![ShellExpressionView::Literal(pending + parts[0]->Literal_0)] + parts.subrange(
            1,
            parts.len() as int,
        )
    } else {
        seq![ShellExpressionView::Literal(pending)] + parts
    }
}

/// `built` with the literal bytes `pending` behind it, as a part of their
/// own if there are any.
pub open spec fn flushed(built: ShellWordView, pending: Seq<u8>) -> ShellWordView {
    if pending.len() == 0 {
        built
    } else {
        built.push(ShellExpressionView::Literal(pending))
    }
}

/// The rest of a word behind a byte that stands for itself.
pub open spec fn with_byte(byte: u8, tail: Parsed<ShellWordView>) -> Parsed<ShellWordView> {
    match tail {
        Parsed::Matched { value, rest } => Parsed::Matched {
            value: with_pending(seq![byte], value),
            rest,
        },
        other => other,
    }
}

/// The rest of a word behind a part that is no literal.
pub open spec fn with_part(part: ShellExpressionView, tail: Parsed<ShellWordView>) -> Parsed<
    ShellWordView,
> {
    match tail {
        Parsed::Matched { value, rest } => Parsed::Matched { value: seq![part] + value, rest },
        other => other,
    }
}

/// The rest of a word behind the parts `built` and the literal bytes
/// `pending`.
pub open spec fn resumed(built: ShellWordView, pending: Seq<u8>, tail: Parsed<ShellWordView>) -> Parsed<
    ShellWordView,
> {
    match tail {
        Parsed::Matched { value, rest } => Parsed::Matched {
            value: built + with_pending(pending, value),
            rest,
        },
        other => other,
    }
}

/// A matched value, wrapped as a part of a word.
pub open spec fn as_part<V>(outcome: Parsed<V>, wrap: spec_fn(V) -> ShellExpressionView) -> Parsed<
    ShellExpressionView,
> {
    match outcome {
        Parsed::Matched { value, rest } => Parsed::Matched { value: wrap(value), rest },
        other => failure_of(other),
    }
}

/// The part that the byte at `pos` introduces. Not present if the byte
/// stands for itself: it introduces nothing under `rules`, or what follows
/// it is no brace expansion or no substitution.
pub open spec fn part_at(s: Seq<u8>, pos: int, rules: ShellWordParsingRulesView) -> Parsed<
    ShellExpressionView,
> {
    let byte = s[pos];
    if byte == DOLLAR && rules.parse_dollar_sign_expansions {
        as_part(
            dollar_sign_expansion_at(s, pos + 1),
            |expansion| ShellExpressionView::DollarSignExpansion(expansion),
        )
    } else if byte == SINGLE_QUOTE {
        as_part(strong_quote_at(s, pos + 1), |quote| ShellExpressionView::QuoteExpression(quote))
    } else if byte == DOUBLE_QUOTE {
        as_part(
            weak_quote_at(s, pos + 1, DOUBLE_QUOTE),
            |quote| ShellExpressionView::QuoteExpression(quote),
        )
    } else if byte == OPEN_BRACE && rules.parse_brace_expansions {
        as_part(
            brace_expansion_at(s, pos + 1),
            |expansion| ShellExpressionView::BraceExpansion(expansion),
        )
    } else {
        Parsed::NotPresent
    }
}

/// The parts of the word from `pos` up to its end.
///
/// A backslash escapes the byte behind it; in front of a newline it
/// vanishes together with the newline; at the end of the input the word is
/// incomplete. A byte that introduces a part is followed by the rest of
/// the word behind that part. Any other byte stands for itself.
pub open spec fn word_parts_at(s: Seq<u8>, pos: int, rules: ShellWordParsingRulesView) -> Parsed<
    ShellWordView,
>
    decreases s.len() - pos,
{
    if pos < 0 || word_ends_at(s, pos, rules.additional_word_stop_characters) {
        Parsed::Matched { value: Seq::empty(), rest: pos }
    } else if s[pos] == BACKSLASH {
        if pos + 1 >= s.len() {
            Parsed::Incomplete
        } else if s[pos + 1] == NEWLINE {
            word_parts_at(s, pos + 2, rules)
        } else {
            with_part(
                ShellExpressionView::EscapedLiteral(s[pos + 1]),
                word_parts_at(s, pos + 2, rules),
            )
        }
    } else {
        match part_at(s, pos, rules) {
            Parsed::Matched { value, rest } => if pos < rest <= s.len() {
                with_part(value, word_parts_at(s, rest, rules))
            } else {
                Parsed::NotPresent
            },
            Parsed::NotPresent => with_byte(s[pos], word_parts_at(s, pos + 1, rules)),
            other => failure_of(other),
        }
    }
}

/// The word at `pos`. Not present if a word ends at `pos` already, so that
/// no byte belongs to it; a word of which bytes were read is matched even
/// if it has no parts.
pub open spec fn word_at(s: Seq<u8>, pos: int, rules: ShellWordParsingRulesView) -> Parsed<
    ShellWordView,
> {
    if word_ends_at(s, pos, rules.additional_word_stop_characters) {
        Parsed::NotPresent
    } else {
        word_parts_at(s, pos, rules)
    }
}

/// A part that is matched ends behind its first byte and within the input,
/// and is no literal. A part is never malformed.
pub proof fn lemma_part_at(s: Seq<u8>, pos: int, rules: ShellWordParsingRulesView)
    requires
        0 <= pos < s.len(),
    ensures
        part_at(s, pos, rules) matches Parsed::Matched { value, rest } ==> pos < rest <= s.len()
            && !(value is Literal),
        !(part_at(s, pos, rules) is Malformed),
{
    lemma_position_of(s, pos + 1, SINGLE_QUOTE);
    lemma_weak_contents_at(s, pos + 1, DOUBLE_QUOTE);
    lemma_brace_expansion_at(s, pos + 1);
}

/// Literal bytes in front of literal bytes are literal bytes in front.
pub proof fn lemma_with_pending_twice(first: Seq<u8>, second: Seq<u8>, parts: ShellWordView)
    ensures
        with_pending(first, with_pending(second, parts)) == with_pending(first + second, parts),
{
    if first.len() == 0 {
        assert(first + second =~= second);
    } else if second.len() == 0 {
        assert(first + second =~= first);
    } else if parts.len() > 0 && parts[0] is Literal {
        let inner = with_pending(second, parts);
        assert(inner.subrange(1, inner.len() as int) =~= parts.subrange(1, parts.len() as int));
        assert(first + (second + parts[0]->Literal_0) =~= (first + second) + parts[0]->Literal_0);
    } else {
        let inner = with_pending(second, parts);
        assert(inner.subrange(1, inner.len() as int) =~= parts);
    }
}

/// Reading a byte that stands for itself adds it to the pending bytes.
pub proof fn lemma_resumed_byte(
    built: ShellWordView,
    pending: Seq<u8>,
    byte: u8,
    tail: Parsed<ShellWordView>,
)
    ensures
        resumed(built, pending, with_byte(byte, tail)) == resumed(built, pending.push(byte), tail),
{
    if let Parsed::Matched { value, rest } = tail {
        lemma_with_pending_twice(pending, seq![byte], value);
        assert(pending + seq![byte] =~= pending.push(byte));
    }
}

/// Reading a part that is no literal flushes the pending bytes and adds
/// the part.
pub proof fn lemma_resumed_part(
    built: ShellWordView,
    pending: Seq<u8>,
    part: ShellExpressionView,
    tail: Parsed<ShellWordView>,
)
    requires
        !(part is Literal),
    ensures
        resumed(built, pending, with_part(part, tail)) == resumed(
            flushed(built, pending).push(part),
            Seq::empty(),
            tail,
        ),
{
    if let Parsed::Matched { value, rest } = tail {
        let behind = seq![part] + value;
        assert(behind[0] == part);
        assert(built + with_pending(pending, behind) =~= flushed(built, pending).push(part)
            + value);
    }
}

/// At the end of the word the pending bytes are flushed.
pub proof fn lemma_resumed_end(built: ShellWordView, pending: Seq<u8>, rest: int)
    ensures
        resumed(built, pending, Parsed::Matched { value: Seq::empty(), rest })
            == (Parsed::Matched { value: flushed(built, pending), rest }),
{
    assert(built + with_pending(pending, Seq::empty()) =~= flushed(built, pending));
}

/// A byte in front of a word in merged form leaves it in merged form.
pub proof fn lemma_with_pending_merged(pending: Seq<u8>, parts: ShellWordView)
    requires
        literals_merged(parts),
    ensures
        literals_merged(with_pending(pending, parts)),
{
    let joined = with_pending(pending, parts);
    if pending.len() > 0 {
        if parts.len() > 0 && parts[0] is Literal {
            assert forall|i: int| 0 <= i < joined.len() && (#[trigger] joined[i]) is Literal implies joined[i]->Literal_0.len()
                > 0 by {
                if i > 0 {
                    assert(joined[i] == parts[i]);
                }
            }
            assert forall|i: int| 0 <= i < joined.len() - 1 implies !((#[trigger] joined[i]) is Literal
                && joined[i + 1] is Literal) by {
                assert(joined[i + 1] == parts[i + 1]);
                assert(joined[i] is Literal == parts[i] is Literal);
            }
        } else {
            assert forall|i: int| 0 <= i < joined.len() && (#[trigger] joined[i]) is Literal implies joined[i]->Literal_0.len()
                > 0 by {
                if i > 0 {
                    assert(joined[i] == parts[i - 1]);
                }
            }
            assert forall|i: int| 0 <= i < joined.len() - 1 implies !((#[trigger] joined[i]) is Literal
                && joined[i + 1] is Literal) by {
                assert(joined[i + 1] == parts[i]);
                if i > 0 {
                    assert(joined[i] == parts[i - 1]);
                }
            }
        }
    }
}

/// A part that is no literal in front of a word in merged form leaves it
/// in merged form.
pub proof fn lemma_with_part_merged(part: ShellExpressionView, parts: ShellWordView)
    requires
        literals_merged(parts),
        !(part is Literal),
    ensures
        literals_merged(seq![part] + parts),
{
    let joined = seq![part] + parts;
    assert forall|i: int| 0 <= i < joined.len() && (#[trigger] joined[i]) is Literal implies joined[i]->Literal_0.len()
        > 0 by {
        if i > 0 {
            assert(joined[i] == parts[i - 1]);
        }
    }
    assert forall|i: int| 0 <= i < joined.len() - 1 implies !((#[trigger] joined[i]) is Literal
        && joined[i + 1] is Literal) by {
        assert(joined[i + 1] == parts[i]);
        if i > 0 {
            assert(joined[i] == parts[i - 1]);
        }
    }
}

/// The parts of a word end within the input, behind `pos` unless the word
/// ends there, and are in merged form: no literal is empty and no two
/// literals are neighbours. They are never absent or malformed.
pub proof fn lemma_word_parts_at(s: Seq<u8>, pos: int, rules: ShellWordParsingRulesView)
    requires
        0 <= pos <= s.len(),
    ensures
        word_parts_at(s, pos, rules) matches Parsed::Matched { value, rest } ==> {
            &&& pos <= rest <= s.len()
            &&& !word_ends_at(s, pos, rules.additional_word_stop_characters) ==> pos < rest
            &&& literals_merged(value)
        },
        !(word_parts_at(s, pos, rules) is NotPresent),
        !(word_parts_at(s, pos, rules) is Malformed),
    decreases s.len() - pos,
{
    if !word_ends_at(s, pos, rules.additional_word_stop_characters) {
        if s[pos] == BACKSLASH {
            if pos + 1 < s.len() {
                lemma_word_parts_at(s, pos + 2, rules);
                if s[pos + 1] != NEWLINE {
                    if let Parsed::Matched { value, rest } = word_parts_at(s, pos + 2, rules) {
                        lemma_with_part_merged(
                            ShellExpressionView::EscapedLiteral(s[pos + 1]),
                            value,
                        );
                    }
                }
            }
        } else {
            lemma_part_at(s, pos, rules);
            match part_at(s, pos, rules) {
                Parsed::Matched { value: part, rest: behind } => {
                    lemma_word_parts_at(s, behind, rules);
                    if let Parsed::Matched { value, rest } = word_parts_at(s, behind, rules) {
                        lemma_with_part_merged(part, value);
                    }
                },
                Parsed::NotPresent => {
                    lemma_word_parts_at(s, pos + 1, rules);
                    if let Parsed::Matched { value, rest } = word_parts_at(s, pos + 1, rules) {
                        lemma_with_pending_merged(seq![s[pos]], value);
                    }
                },
                _ => {},
            }
        }
    }
}

/// A word that is matched ends behind `pos` and within the input, and is
/// in merged form. A word is never malformed.
pub proof fn lemma_word_at(s: Seq<u8>, pos: int, rules: ShellWordParsingRulesView)
    requires
        0 <= pos <= s.len(),
    ensures
        word_at(s, pos, rules) matches Parsed::Matched { value, rest } ==> pos < rest <= s.len()
            && literals_merged(value),
        !(word_at(s, pos, rules) is Malformed),
{
    lemma_word_parts_at(s, pos, rules);
}

/// The rest of a list behind a word.
pub open spec fn with_word(word: ShellWordView, tail: Parsed<Seq<ShellWordView>>) -> Parsed<
    Seq<ShellWordView>,
> {
    match tail {
        Parsed::Matched { value, rest } => Parsed::Matched { value: seq![word] + value, rest },
        other => other,
    }
}

/// The rest of a list behind the words `built`.
pub open spec fn list_resumed(built: Seq<ShellWordView>, tail: Parsed<Seq<ShellWordView>>) -> Parsed<
    Seq<ShellWordView>,
> {
    match tail {
        Parsed::Matched { value, rest } => Parsed::Matched { value: built + value, rest },
        other => other,
    }
}

/// Reading a word adds it to the words that were read.
pub proof fn lemma_list_resumed_word(
    built: Seq<ShellWordView>,
    word: ShellWordView,
    tail: Parsed<Seq<ShellWordView>>,
)
    ensures
        list_resumed(built, with_word(word, tail)) == list_resumed(built.push(word), tail),
{
    if let Parsed::Matched { value, rest } = tail {
        assert(built + (seq![word] + value) =~= built.push(word) + value);
    }
}

/// What a vector of parts holds.
pub open spec fn parts_view(parts: Seq<ShellExpression>) -> ShellWordView {
    Seq::new(parts.len(), |i: int| parts[i]@)
}

/// A word holds what its parts hold.
pub proof fn lemma_word_view(word: ShellWord)
    ensures
        word@ == parts_view(word.parts@),
{
    assert(word@ =~= parts_view(word.parts@));
}

/// Reads one word.
pub struct ShellWordParser<'a> {
    pub iter: ShellInputIterator,
    pub rules: &'a ShellWordParsingRules,
}

impl<'a> ShellWordParser<'a> {
    pub fn new(iter: ShellInputIterator, rules: &'a ShellWordParsingRules) -> (parser: Self)
        ensures
            parser.iter == iter,
            parser.rules == rules,
    {
        Self { iter, rules }
    }

    /// Reads what follows a `$` that has been consumed.
    pub fn try_parse_dollar_sign_expansion(&mut self) -> (result: ParseResult<ShellExpression>)
        ensures
            final(self).iter.input() == old(self).iter.input(),
            final(self).rules == old(self).rules,
            reports(
                result,
                as_part(
                    dollar_sign_expansion_at(old(self).iter.input(), old(self).iter.position()),
                    |expansion| ShellExpressionView::DollarSignExpansion(expansion),
                ),
            ),
            final(self).iter.position() == old(self).iter.position(),
    {
        Self::dollar_sign_expansion_in(&mut self.iter)
    }

    /// Reads a weak quote whose `"` has been consumed.
    pub fn try_parse_double_quote_expression(&mut self) -> (result: ParseResult<ShellExpression>)
        ensures
            final(self).iter.input() == old(self).iter.input(),
            final(self).rules == old(self).rules,
            reports(
                result,
                as_part(
                    weak_quote_at(
                        old(self).iter.input(),
                        old(self).iter.position(),
                        DOUBLE_QUOTE,
                    ),
                    |quote| ShellExpressionView::QuoteExpression(quote),
                ),
            ),
            final(self).iter.position() == position_after(
                weak_quote_at(old(self).iter.input(), old(self).iter.position(), DOUBLE_QUOTE),
                old(self).iter.position(),
            ),
    {
        Self::double_quote_expression_in(&mut self.iter)
    }

    /// Reads a strong quote whose `'` has been consumed.
    pub fn try_parse_single_quote_expression(&mut self) -> (result: ParseResult<ShellExpression>)
        ensures
            final(self).iter.input() == old(self).iter.input(),
            final(self).rules == old(self).rules,
            reports(
                result,
                as_part(
                    strong_quote_at(old(self).iter.input(), old(self).iter.position()),
                    |quote| ShellExpressionView::QuoteExpression(quote),
                ),
            ),
            final(self).iter.position() == position_after(
                strong_quote_at(old(self).iter.input(), old(self).iter.position()),
                old(self).iter.position(),
            ),
    {
        Self::single_quote_expression_in(&mut self.iter)
    }

    /// Reads a brace expansion whose `{` has been consumed.
    pub fn try_parse_brace_expansion(&mut self) -> (result: ParseResult<ShellExpression>)
        ensures
            final(self).iter.input() == old(self).iter.input(),
            final(self).rules == old(self).rules,
            reports(
                result,
                as_part(
                    brace_expansion_at(old(self).iter.input(), old(self).iter.position()),
                    |expansion| ShellExpressionView::BraceExpansion(expansion),
                ),
            ),
            final(self).iter.position() == position_after(
                brace_expansion_at(old(self).iter.input(), old(self).iter.position()),
                old(self).iter.position(),
            ),
    {
        Self::brace_expansion_in(&mut self.iter)
    }

    /// Reads the word at the reader's position, by the parser's rules.
    pub fn parse(&mut self) -> (result: ParseResult<ShellWord>)
        ensures
            final(self).iter.input() == old(self).iter.input(),
            final(self).rules == old(self).rules,
            reports(
                result,
                word_at(old(self).iter.input(), old(self).iter.position(), old(self).rules@),
            ),
            final(self).iter.position() == position_after(
                word_at(old(self).iter.input(), old(self).iter.position(), old(self).rules@),
                old(self).iter.position(),
            ),
            result matches Ok(Some(word)) ==> literals_merged(word@),
            !(result matches Err(ParseError::IncorrectSyntax(_))),
    {
        Self::parse_in(&mut self.iter, self.rules)
    }

    /// `try_parse_dollar_sign_expansion` on a reader that the caller keeps.
    pub fn dollar_sign_expansion_in(iter: &mut ShellInputIterator) -> (result: ParseResult<
        ShellExpression,
    >)
        ensures
            final(iter).input() == old(iter).input(),
            reports(
                result,
                as_part(
                    dollar_sign_expansion_at(old(iter).input(), old(iter).position()),
                    |expansion| ShellExpressionView::DollarSignExpansion(expansion),
                ),
            ),
            final(iter).position() == old(iter).position(),
    {
        match ShellDollarSignExpansionParser::parse_in(iter) {
            Ok(Some(expansion)) => Ok(Some(ShellExpression::DollarSignExpansion(expansion))),
            Ok(None) => Ok(None),
            Err(error) => Err(error),
        }
    }

    /// `try_parse_double_quote_expression` on a reader that the caller keeps.
    pub fn double_quote_expression_in(iter: &mut ShellInputIterator) -> (result: ParseResult<
        ShellExpression,
    >)
        ensures
            final(iter).input() == old(iter).input(),
            reports(
                result,
                as_part(
                    weak_quote_at(old(iter).input(), old(iter).position(), DOUBLE_QUOTE),
                    |quote| ShellExpressionView::QuoteExpression(quote),
                ),
            ),
            final(iter).position() == position_after(
                weak_quote_at(old(iter).input(), old(iter).position(), DOUBLE_QUOTE),
                old(iter).position(),
            ),
    {
        match QuotedExpressionParser::parse_weak_in(iter, DOUBLE_QUOTE) {
            Ok(Some(quote)) => Ok(Some(ShellExpression::QuoteExpression(quote))),
            Ok(None) => Ok(None),
            Err(error) => Err(error),
        }
    }

    /// `try_parse_single_quote_expression` on a reader that the caller keeps.
    pub fn single_quote_expression_in(iter: &mut ShellInputIterator) -> (result: ParseResult<
        ShellExpression,
    >)
        ensures
            final(iter).input() == old(iter).input(),
            reports(
                result,
                as_part(
                    strong_quote_at(old(iter).input(), old(iter).position()),
                    |quote| ShellExpressionView::QuoteExpression(quote),
                ),
            ),
            final(iter).position() == position_after(
                strong_quote_at(old(iter).input(), old(iter).position()),
                old(iter).position(),
            ),
    {
        match QuotedExpressionParser::parse_strong_in(iter) {
            Ok(Some(quote)) => Ok(Some(ShellExpression::QuoteExpression(quote))),
            Ok(None) => Ok(None),
            Err(error) => Err(error),
        }
    }

    /// `try_parse_brace_expansion` on a reader that the caller keeps.
    pub fn brace_expansion_in(iter: &mut ShellInputIterator) -> (result: ParseResult<
        ShellExpression,
    >)
        ensures
            final(iter).input() == old(iter).input(),
            reports(
                result,
                as_part(
                    brace_expansion_at(old(iter).input(), old(iter).position()),
                    |expansion| ShellExpressionView::BraceExpansion(expansion),
                ),
            ),
            final(iter).position() == position_after(
                brace_expansion_at(old(iter).input(), old(iter).position()),
                old(iter).position(),
            ),
    {
        match ShellBraceExpressionParser::parse_in(iter) {
            Ok(Some(expansion)) => Ok(Some(ShellExpression::BraceExpansion(expansion))),
            Ok(None) => Ok(None),
            Err(error) => Err(error),
        }
    }

    /// Moves the pending bytes, if there are any, into a literal part.
    pub fn flush_pending(parts: &mut Vec<ShellExpression>, pending: &mut Vec<u8>)
        ensures
            final(pending)@ == Seq::<u8>::empty(),
            parts_view(final(parts)@) == flushed(parts_view(old(parts)@), old(pending)@),
    {
        if pending.len() > 0 {
            let mut literal: Vec<u8> = Vec::new();
            core::mem::swap(pending, &mut literal);
            parts.push(ShellExpression::Literal(literal));
            assert(parts_view(parts@) =~= flushed(parts_view(old(parts)@), old(pending)@));
        } else {
            assert(pending@ =~= Seq::<u8>::empty());
        }
    }

    /// Reads the part that `byte`, which has been consumed, introduces.
    fn part_in(iter: &mut ShellInputIterator, rules: &ShellWordParsingRules, byte: u8) -> (result:
        ParseResult<ShellExpression>)
        requires
            0 < old(iter).position() <= old(iter).input().len(),
            old(iter).input()[old(iter).position() - 1] == byte,
        ensures
            final(iter).input() == old(iter).input(),
            reports(result, part_at(old(iter).input(), old(iter).position() - 1, rules@)),
            final(iter).position() == position_after(
                part_at(old(iter).input(), old(iter).position() - 1, rules@),
                old(iter).position(),
            ),
    {
        if byte == DOLLAR && rules.parse_dollar_sign_expansions {
            Self::dollar_sign_expansion_in(iter)
        } else if byte == SINGLE_QUOTE {
            Self::single_quote_expression_in(iter)
        } else if byte == DOUBLE_QUOTE {
            Self::double_quote_expression_in(iter)
        } else if byte == OPEN_BRACE && rules.parse_brace_expansions {
            Self::brace_expansion_in(iter)
        } else {
            Ok(None)
        }
    }

    /// `parse` on a reader that the caller keeps, by the rules given.
    pub fn parse_in(iter: &mut ShellInputIterator, rules: &ShellWordParsingRules) -> (result:
        ParseResult<ShellWord>)
        ensures
            final(iter).input() == old(iter).input(),
            reports(result, word_at(old(iter).input(), old(iter).position(), rules@)),
            final(iter).position() == position_after(
                word_at(old(iter).input(), old(iter).position(), rules@),
                old(iter).position(),
            ),
            result matches Ok(Some(word)) ==> literals_merged(word@),
            !(result matches Err(ParseError::IncorrectSyntax(_))),
    {
        let start = iter.checkpoint();
        let ghost s = iter.input();
        let ghost from = iter.position();
        proof {
            lemma_word_at(s, from, rules@);
        }
        if iter.check_word_end(rules.additional_word_stop_characters.as_slice()) {
            return Ok(None);
        }
        let mut parts: Vec<ShellExpression> = Vec::new();
        let mut pending: Vec<u8> = Vec::new();
        proof {
            let tail = word_parts_at(s, from, rules@);
            if let Parsed::Matched { value, rest } = tail {
                assert(parts_view(parts@) + with_pending(pending@, value) =~= value);
            }
        }
        loop
            invariant
                iter.input() == s,
                s == old(iter).input(),
                from == old(iter).position(),
                start.position() == from,
                0 <= from <= iter.position() <= s.len(),
                word_parts_at(s, from, rules@) == resumed(
                    parts_view(parts@),
                    pending@,
                    word_parts_at(s, iter.position(), rules@),
                ),
            ensures
                word_ends_at(s, iter.position(), rules@.additional_word_stop_characters),
            decreases s.len() - iter.position(),
        {
            let ghost at = iter.position();
            let ghost built = parts_view(parts@);
            let ghost held = pending@;
            let byte = match iter.next_in_word(rules.additional_word_stop_characters.as_slice()) {
                Some(byte) => byte,
                None => {
                    break ;
                },
            };
            if byte == BACKSLASH {
                match iter.next() {
                    None => {
                        iter.restore(start);
                        return Err(ParseError::RequiresNextLine);
                    },
                    Some(next) => {
                        if next != NEWLINE {
                            proof {
                                lemma_resumed_part(
                                    built,
                                    held,
                                    ShellExpressionView::EscapedLiteral(next),
                                    word_parts_at(s, at + 2, rules@),
                                );
                            }
                            Self::flush_pending(&mut parts, &mut pending);
                            parts.push(ShellExpression::EscapedLiteral(next));
                            assert(parts_view(parts@) =~= flushed(built, held).push(
                                ShellExpressionView::EscapedLiteral(next),
                            ));
                        }
                    },
                }
            } else {
                proof {
                    lemma_part_at(s, at, rules@);
                }
                match Self::part_in(iter, rules, byte) {
                    Ok(Some(part)) => {
                        proof {
                            lemma_resumed_part(
                                built,
                                held,
                                part@,
                                word_parts_at(s, iter.position(), rules@),
                            );
                        }
                        Self::flush_pending(&mut parts, &mut pending);
                        parts.push(part);
                        assert(parts_view(parts@) =~= flushed(built, held).push(part@));
                    },
                    Ok(None) => {
                        proof {
                            lemma_resumed_byte(
                                built,
                                held,
                                byte,
                                word_parts_at(s, at + 1, rules@),
                            );
                        }
                        pending.push(byte);
                    },
                    Err(error) => {
                        iter.restore(start);
                        return Err(error);
                    },
                }
            }
        }
        proof {
            lemma_resumed_end(parts_view(parts@), pending@, iter.position());
        }
        Self::flush_pending(&mut parts, &mut pending);
        let word = ShellWord { parts };
        proof {
            lemma_word_view(word);
        }
        Ok(Some(word))
    }
}

} // verus!
