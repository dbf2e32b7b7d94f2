//! What holds of every word that the word parser reads.

use crate::byte_classes::{BACKSLASH, NEWLINE, SINGLE_QUOTE};
use crate::shell_input_iterator::word_ends_at;
use crate::shell_parser_base::{Parsed, ShellWordParsingRulesView};
use crate::shell_parsers::shell_word_parser::quoted_expression_parser::lemma_position_of;
use crate::shell_parsers::shell_word_parser::{lemma_part_at, lemma_word_parts_at, part_at,
    with_pending, word_at, word_parts_at};
use crate::shell_structures::shell_word::{expression_text, part_texts, word_text,
    ShellExpressionView, ShellWordView};
use crate::shell_structures::{concat, lemma_concat_front};
use vstd::prelude::*;

verus! {

/// Whether a part is written back exactly as it was read: a literal, an
/// escaped byte or a strong quote.
pub open spec fn is_plain(part: ShellExpressionView) -> bool {
    part is Literal || part is EscapedLiteral || (part matches ShellExpressionView::QuoteExpression(
        quote,
    ) && quote is Strong)
}

/// Whether every part of a word is plain.
pub open spec fn all_plain(word: ShellWordView) -> bool {
    forall|i: int| 0 <= i < word.len() ==> is_plain(#[trigger] word[i])
}

/// Whether the word from `pos` on holds a line continuation, a backslash
/// in front of a newline outside quotes, which leaves no trace in the
/// parts.
pub open spec fn has_continuation(s: Seq<u8>, pos: int, rules: ShellWordParsingRulesView) -> bool
    decreases s.len() - pos,
{
    if pos < 0 || word_ends_at(s, pos, rules.additional_word_stop_characters) {
        false
    } else if s[pos] == BACKSLASH {
        if pos + 1 >= s.len() {
            false
        } else if s[pos + 1] == NEWLINE {
            true
        } else {
            has_continuation(s, pos + 2, rules)
        }
    } else {
        match part_at(s, pos, rules) {
            Parsed::Matched { value, rest } => if pos < rest <= s.len() {
                has_continuation(s, rest, rules)
            } else {
                false
            },
            Parsed::NotPresent => has_continuation(s, pos + 1, rules),
            _ => false,
        }
    }
}

/// A word in which a backslash is the last byte of the input, outside
/// quotes and unescaped, is incomplete.
pub proof fn lemma_trailing_backslash(s: Seq<u8>, rules: ShellWordParsingRulesView)
    requires
        s.len() > 0,
        s.last() == BACKSLASH,
        !word_ends_at(s, s.len() - 1, rules.additional_word_stop_characters),
    ensures
        word_parts_at(s, s.len() - 1, rules) is Incomplete,
{
}

/// The text of a word behind a part is the text of the part and then the
/// text of the word.
pub proof fn lemma_text_behind_part(part: ShellExpressionView, word: ShellWordView)
    ensures
        word_text(seq![part] + word) == expression_text(part) + word_text(word),
{
    let whole = seq![part] + word;
    assert(part_texts(whole) =~= seq![expression_text(part)] + part_texts(word)) by {
        assert forall|i: int| 0 <= i < whole.len() implies part_texts(whole)[i] == (seq![
            expression_text(part),
        ] + part_texts(word))[i] by {
            if i > 0 {
                assert(whole[i] == word[i - 1]);
            }
        }
    }
    lemma_concat_front(expression_text(part), part_texts(word));
}

/// The text of a word behind literal bytes is the bytes and then the text
/// of the word.
pub proof fn lemma_text_behind_bytes(pending: Seq<u8>, word: ShellWordView)
    ensures
        word_text(with_pending(pending, word)) == pending + word_text(word),
{
    if pending.len() == 0 {
        assert(pending + word_text(word) =~= word_text(word));
    } else if word.len() > 0 && word[0] is Literal {
        let behind = word.subrange(1, word.len() as int);
        let bytes = word[0]->Literal_0;
        assert(word =~= seq![word[0]] + behind);
        lemma_text_behind_part(word[0], behind);
        lemma_text_behind_part(ShellExpressionView::Literal(pending + bytes), behind);
        assert((pending + bytes) + word_text(behind) =~= pending + (bytes + word_text(behind)));
    } else {
        lemma_text_behind_part(ShellExpressionView::Literal(pending), word);
    }
}

/// A word behind literal bytes is plain only if the word is.
pub proof fn lemma_plain_behind_bytes(pending: Seq<u8>, word: ShellWordView)
    requires
        all_plain(with_pending(pending, word)),
    ensures
        all_plain(word),
{
    let joined = with_pending(pending, word);
    if pending.len() > 0 {
        if word.len() > 0 && word[0] is Literal {
            assert forall|i: int| 0 <= i < word.len() implies is_plain(#[trigger] word[i]) by {
                if i > 0 {
                    assert(joined[i] == word[i]);
                }
            }
        } else {
            assert forall|i: int| 0 <= i < word.len() implies is_plain(#[trigger] word[i]) by {
                assert(joined[i + 1] == word[i]);
            }
        }
    }
}

/// A word behind a part is plain only if the part and the word are.
pub proof fn lemma_plain_behind_part(part: ShellExpressionView, word: ShellWordView)
    requires
        all_plain(seq![part] + word),
    ensures
        is_plain(part),
        all_plain(word),
{
    let joined = seq![part] + word;
    assert(joined[0] == part);
    assert forall|i: int| 0 <= i < word.len() implies is_plain(#[trigger] word[i]) by {
        assert(joined[i + 1] == word[i]);
    }
}

/// A plain part that was read is written back as the bytes it was read
/// from.
pub proof fn lemma_plain_part_round_trip(s: Seq<u8>, pos: int, rules: ShellWordParsingRulesView)
    requires
        0 <= pos < s.len(),
        part_at(s, pos, rules) is Matched,
        is_plain(part_at(s, pos, rules)->value),
    ensures
        0 <= pos < part_at(s, pos, rules)->rest <= s.len(),
        expression_text(part_at(s, pos, rules)->value) == s.subrange(
            pos,
            part_at(s, pos, rules)->rest,
        ),
{
    lemma_part_at(s, pos, rules);
    lemma_position_of(s, pos + 1, SINGLE_QUOTE);
    let part = part_at(s, pos, rules)->value;
    let rest = part_at(s, pos, rules)->rest;
    assert(s[pos] == SINGLE_QUOTE);
    assert(expression_text(part) =~= s.subrange(pos, rest));
}

/// Two neighbouring stretches of the input, one after the other, are one
/// stretch.
pub proof fn lemma_stretches_join(s: Seq<u8>, from: int, middle: int, to: int)
    requires
        0 <= from <= middle <= to <= s.len(),
    ensures
        s.subrange(from, middle) + s.subrange(middle, to) == s.subrange(from, to),
{
    assert(s.subrange(from, middle) + s.subrange(middle, to) =~= s.subrange(from, to));
}

/// The parts from `pos` on, if they are plain and no line continuation
/// was dropped, are written back as the bytes they were read from.
pub proof fn lemma_parts_round_trip(s: Seq<u8>, pos: int, rules: ShellWordParsingRulesView)
    requires
        0 <= pos <= s.len(),
        word_parts_at(s, pos, rules) is Matched,
        all_plain(word_parts_at(s, pos, rules)->value),
        !has_continuation(s, pos, rules),
    ensures
        pos <= word_parts_at(s, pos, rules)->rest <= s.len(),
        word_text(word_parts_at(s, pos, rules)->value) == s.subrange(
            pos,
            word_parts_at(s, pos, rules)->rest,
        ),
    decreases s.len() - pos,
{
    lemma_word_parts_at(s, pos, rules);
    let value = word_parts_at(s, pos, rules)->value;
    let rest = word_parts_at(s, pos, rules)->rest;
    if word_ends_at(s, pos, rules.additional_word_stop_characters) {
        assert(value == Seq::<ShellExpressionView>::empty());
        assert(part_texts(value) =~= Seq::<Seq<u8>>::empty());
        assert(concat(Seq::<Seq<u8>>::empty()) == Seq::<u8>::empty());
        assert(s.subrange(pos, pos) =~= Seq::<u8>::empty());
    } else if s[pos] == BACKSLASH {
        let escaped = ShellExpressionView::EscapedLiteral(s[pos + 1]);
        let tail = word_parts_at(s, pos + 2, rules)->value;
        assert(value == seq![escaped] + tail);
        lemma_plain_behind_part(escaped, tail);
        lemma_parts_round_trip(s, pos + 2, rules);
        lemma_text_behind_part(escaped, tail);
        assert(expression_text(escaped) =~= s.subrange(pos, pos + 2));
        lemma_stretches_join(s, pos, pos + 2, rest);
    } else {
        lemma_part_at(s, pos, rules);
        match part_at(s, pos, rules) {
            Parsed::Matched { value: part, rest: behind } => {
                let tail = word_parts_at(s, behind, rules)->value;
                assert(value == seq![part] + tail);
                lemma_plain_behind_part(part, tail);
                lemma_plain_part_round_trip(s, pos, rules);
                lemma_parts_round_trip(s, behind, rules);
                lemma_text_behind_part(part, tail);
                lemma_stretches_join(s, pos, behind, rest);
            },
            Parsed::NotPresent => {
                let tail = word_parts_at(s, pos + 1, rules)->value;
                assert(value == with_pending(seq![s[pos]], tail));
                lemma_plain_behind_bytes(seq![s[pos]], tail);
                lemma_parts_round_trip(s, pos + 1, rules);
                lemma_text_behind_bytes(seq![s[pos]], tail);
                assert(seq![s[pos]] =~= s.subrange(pos, pos + 1));
                lemma_stretches_join(s, pos, pos + 1, rest);
            },
            _ => {},
        }
    }
}

/// A word of literals, escaped bytes and strong quotes only is written
/// back as exactly the bytes it was read from, unless a line continuation
/// was dropped from it.
pub proof fn lemma_word_round_trip(s: Seq<u8>, pos: int, rules: ShellWordParsingRulesView)
    requires
        0 <= pos <= s.len(),
        word_at(s, pos, rules) is Matched,
        all_plain(word_at(s, pos, rules)->value),
        !has_continuation(s, pos, rules),
    ensures
        pos < word_at(s, pos, rules)->rest <= s.len(),
        word_text(word_at(s, pos, rules)->value) == s.subrange(pos, word_at(s, pos, rules)->rest),
{
    lemma_word_parts_at(s, pos, rules);
    lemma_parts_round_trip(s, pos, rules);
}

/// A word from which a line continuation was dropped is written back
/// shorter than it was read.
pub proof fn lemma_continuation_shortens(s: Seq<u8>, pos: int, rules: ShellWordParsingRulesView)
    requires
        0 <= pos <= s.len(),
        word_parts_at(s, pos, rules) is Matched,
        all_plain(word_parts_at(s, pos, rules)->value),
        has_continuation(s, pos, rules),
    ensures
        word_text(word_parts_at(s, pos, rules)->value).len() < word_parts_at(s, pos, rules)->rest
            - pos,
    decreases s.len() - pos, 0nat,
{
    lemma_word_parts_at(s, pos, rules);
    let rest = word_parts_at(s, pos, rules)->rest;
    if s[pos] == BACKSLASH {
        if s[pos + 1] == NEWLINE {
            lemma_text_no_longer(s, pos + 2, rules);
        } else {
            let escaped = ShellExpressionView::EscapedLiteral(s[pos + 1]);
            let tail = word_parts_at(s, pos + 2, rules)->value;
            lemma_plain_behind_part(escaped, tail);
            lemma_continuation_shortens(s, pos + 2, rules);
            lemma_text_behind_part(escaped, tail);
        }
    } else {
        lemma_part_at(s, pos, rules);
        match part_at(s, pos, rules) {
            Parsed::Matched { value: part, rest: behind } => {
                let tail = word_parts_at(s, behind, rules)->value;
                lemma_plain_behind_part(part, tail);
                lemma_plain_part_round_trip(s, pos, rules);
                lemma_continuation_shortens(s, behind, rules);
                lemma_text_behind_part(part, tail);
            },
            Parsed::NotPresent => {
                let tail = word_parts_at(s, pos + 1, rules)->value;
                lemma_plain_behind_bytes(seq![s[pos]], tail);
                lemma_continuation_shortens(s, pos + 1, rules);
                lemma_text_behind_bytes(seq![s[pos]], tail);
            },
            _ => {},
        }
    }
}

/// Plain parts are never written back longer than they were read.
pub proof fn lemma_text_no_longer(s: Seq<u8>, pos: int, rules: ShellWordParsingRulesView)
    requires
        0 <= pos <= s.len(),
        word_parts_at(s, pos, rules) is Matched,
        all_plain(word_parts_at(s, pos, rules)->value),
    ensures
        word_text(word_parts_at(s, pos, rules)->value).len() <= word_parts_at(s, pos, rules)->rest
            - pos,
    decreases s.len() - pos, 1nat,
{
    if has_continuation(s, pos, rules) {
        lemma_continuation_shortens(s, pos, rules);
    } else {
        lemma_parts_round_trip(s, pos, rules);
    }
}

} // verus!
