//! A word: one shell token, held as the sequence of its parts.

use crate::byte_classes::BACKSLASH;
use crate::shell_structures::shell_word::quoted_expressions::{append_bytes, clone_bytes,
    quote_text, QuoteExpression, QuoteExpressionView};
use crate::shell_structures::shell_word::shell_brace_expansion::{brace_text, brace_view,
    clone_brace_expansion, restore_brace_expansion, BraceExpansion, BraceExpansionView};
use crate::shell_structures::shell_word::shell_dollar_sign_expansion::DollarSignExpansion;
use crate::shell_structures::{concat, lemma_concat_push, ShellToken};
use vstd::prelude::*;

pub mod globbing_pattern;
pub mod quoted_expressions;
pub mod shell_brace_expansion;
pub mod shell_dollar_sign_expansion;

verus! {

/// One part of a word.
#[derive(Debug, PartialEq, Eq)]
pub enum ShellExpression {
    /// Bytes that stand for themselves.
    Literal(Vec<u8>),
    /// A byte that was written behind a backslash.
    EscapedLiteral(u8),
    BraceExpansion(BraceExpansion),
    DollarSignExpansion(DollarSignExpansion),
    QuoteExpression(QuoteExpression),
}

/// A word. In a word that a parser built, no literal part is empty and no
/// two literal parts are neighbours.
#[derive(Debug, PartialEq, Eq)]
pub struct ShellWord {
    pub parts: Vec<ShellExpression>,
}

/// What a part of a word holds.
pub enum ShellExpressionView {
    Literal(Seq<u8>),
    EscapedLiteral(u8),
    BraceExpansion(BraceExpansionView),
    DollarSignExpansion(DollarSignExpansion),
    QuoteExpression(QuoteExpressionView),
}

/// What a word holds: its parts in order.
pub type ShellWordView = Seq<ShellExpressionView>;

/// What `expression` holds.
pub open spec fn expression_view(expression: ShellExpression) -> ShellExpressionView
    decreases expression,
{
    match expression {
        ShellExpression::Literal(bytes) => ShellExpressionView::Literal(bytes@),
        ShellExpression::EscapedLiteral(byte) => ShellExpressionView::EscapedLiteral(byte),
        ShellExpression::BraceExpansion(expansion) => ShellExpressionView::BraceExpansion(
            brace_view(expansion),
        ),
        ShellExpression::DollarSignExpansion(expansion) => ShellExpressionView::DollarSignExpansion(
            expansion,
        ),
        ShellExpression::QuoteExpression(quote) => ShellExpressionView::QuoteExpression(quote@),
    }
}

/// What `word` holds.
pub open spec fn word_view(word: ShellWord) -> ShellWordView
    decreases word,
{
    Seq::new(
        word.parts.len() as nat,
        |i: int|
            if 0 <= i < word.parts.len() {
                expression_view(word.parts[i])
            } else {
                ShellExpressionView::EscapedLiteral(0)
            },
    )
}

impl View for ShellExpression {
    type V = ShellExpressionView;

    open spec fn view(&self) -> ShellExpressionView {
        expression_view(*self)
    }
}

impl View for ShellWord {
    type V = ShellWordView;

    open spec fn view(&self) -> ShellWordView {
        word_view(*self)
    }
}

/// The text of one part. A literal and the contents of a strong quote are
/// written as they are held, an escaped byte behind its backslash.
pub open spec fn expression_text(expression: ShellExpressionView) -> Seq<u8>
    decreases expression, 0nat,
{
    match expression {
        ShellExpressionView::Literal(bytes) => bytes,
        ShellExpressionView::EscapedLiteral(byte) => seq![BACKSLASH, byte],
        ShellExpressionView::BraceExpansion(expansion) => brace_text(expansion),
        ShellExpressionView::DollarSignExpansion(expansion) => expansion.original(),
        ShellExpressionView::QuoteExpression(quote) => quote_text(quote),
    }
}

/// The texts of the parts of a word, in order.
pub open spec fn part_texts(word: ShellWordView) -> Seq<Seq<u8>>
    decreases word, 0nat,
{
    Seq::new(
        word.len(),
        |i: int|
            if 0 <= i < word.len() {
                expression_text(word[i])
            } else {
                Seq::empty()
            },
    )
}

/// The text of a word: the texts of its parts, one after the other.
pub open spec fn word_text(word: ShellWordView) -> Seq<u8>
    decreases word, 1nat,
{
    concat(part_texts(word))
}

/// Whether a word is in merged form: no literal part is empty, and no two
/// literal parts are neighbours.
pub open spec fn literals_merged(word: ShellWordView) -> bool {
    &&& forall|i: int|
        0 <= i < word.len() && (#[trigger] word[i]) is Literal ==> word[i]->Literal_0.len() > 0
    &&& forall|i: int|
        0 <= i < word.len() - 1 ==> !((#[trigger] word[i]) is Literal && word[i + 1] is Literal)
}

/// Writes one part of a word back as text.
pub fn restore_expression(expression: &ShellExpression) -> (bytes: Vec<u8>)
    ensures
        bytes@ == expression_text(expression@),
    decreases expression,
{
    match expression {
        ShellExpression::Literal(literal) => {
            let mut bytes: Vec<u8> = Vec::new();
            append_bytes(&mut bytes, literal);
            assert(bytes@ =~= literal@);
            bytes
        },
        ShellExpression::EscapedLiteral(byte) => {
            let mut bytes: Vec<u8> = Vec::new();
            bytes.push(BACKSLASH);
            bytes.push(*byte);
            assert(bytes@ =~= seq![BACKSLASH, *byte]);
            bytes
        },
        ShellExpression::BraceExpansion(expansion) => restore_brace_expansion(expansion),
        ShellExpression::DollarSignExpansion(expansion) => expansion.restore_original(),
        ShellExpression::QuoteExpression(quote) => quote.restore_original(),
    }
}

/// Writes a word back as text.
pub fn restore_word(word: &ShellWord) -> (bytes: Vec<u8>)
    ensures
        bytes@ == word_text(word@),
    decreases word,
{
    let mut bytes: Vec<u8> = Vec::new();
    let ghost texts = part_texts(word@);
    let mut i: usize = 0;
    assert(texts.subrange(0, 0) =~= Seq::<Seq<u8>>::empty());
    while i < word.parts.len()
        invariant
            i <= word.parts.len(),
            texts == part_texts(word@),
            bytes@ == concat(texts.subrange(0, i as int)),
        decreases word.parts.len() - i,
    {
        proof {
            lemma_concat_push(texts.subrange(0, i as int), texts[i as int]);
            assert(texts.subrange(0, i + 1) =~= texts.subrange(0, i as int).push(texts[i as int]));
        }
        let mut text = restore_expression(&word.parts[i]);
        bytes.append(&mut text);
        i += 1;
    }
    assert(texts.subrange(0, word.parts.len() as int) =~= texts);
    bytes
}

/// A copy of one part of a word.
pub fn clone_expression(expression: &ShellExpression) -> (copy: ShellExpression)
    ensures
        copy@ == expression@,
    decreases expression,
{
    match expression {
        ShellExpression::Literal(bytes) => ShellExpression::Literal(clone_bytes(bytes)),
        ShellExpression::EscapedLiteral(byte) => ShellExpression::EscapedLiteral(*byte),
        ShellExpression::BraceExpansion(expansion) => ShellExpression::BraceExpansion(
            clone_brace_expansion(expansion),
        ),
        ShellExpression::DollarSignExpansion(expansion) => ShellExpression::DollarSignExpansion(
            *expansion,
        ),
        ShellExpression::QuoteExpression(quote) => ShellExpression::QuoteExpression(quote.clone()),
    }
}

/// A copy of a word.
pub fn clone_word(word: &ShellWord) -> (copy: ShellWord)
    ensures
        copy@ == word@,
    decreases word,
{
    let mut parts: Vec<ShellExpression> = Vec::new();
    let mut i: usize = 0;
    while i < word.parts.len()
        invariant
            i <= word.parts.len(),
            parts@.len() == i,
            forall|k: int| 0 <= k < i ==> (#[trigger] parts@[k])@ == word.parts@[k]@,
        decreases word.parts.len() - i,
    {
        parts.push(clone_expression(&word.parts[i]));
        i += 1;
    }
    let copy = ShellWord { parts };
    assert(copy@ =~= word@);
    copy
}

impl Clone for ShellExpression {
    fn clone(&self) -> (copy: Self)
        ensures
            copy@ == self@,
    {
        clone_expression(self)
    }
}

impl Clone for ShellWord {
    fn clone(&self) -> (copy: Self)
        ensures
            copy@ == self@,
    {
        clone_word(self)
    }
}

impl ShellToken for ShellExpression {
    open spec fn original(&self) -> Seq<u8> {
        expression_text(self@)
    }

    fn restore_original(&self) -> (bytes: Vec<u8>) {
        restore_expression(self)
    }
}

impl ShellToken for ShellWord {
    open spec fn original(&self) -> Seq<u8> {
        word_text(self@)
    }

    fn restore_original(&self) -> (bytes: Vec<u8>) {
        restore_word(self)
    }
}

impl Default for ShellWord {
    /// The word without parts.
    fn default() -> (word: Self)
        ensures
            word@ == Seq::<ShellExpressionView>::empty(),
    {
        let word = ShellWord { parts: Vec::new() };
        assert(word@ =~= Seq::<ShellExpressionView>::empty());
        word
    }
}

} // verus!
