//! Quoted parts of a word.

use crate::byte_classes::{DOUBLE_QUOTE, SINGLE_QUOTE};
use crate::shell_structures::shell_word::shell_dollar_sign_expansion::DollarSignExpansion;
use crate::shell_structures::{concat, lemma_concat_push, ShellToken};
use vstd::prelude::*;

verus! {

/// A part of a weak quote.
#[derive(Debug, PartialEq, Eq)]
pub enum WeakQuoteExpressionPart {
    Literal(Vec<u8>),
    DollarSignExpansion(Box<DollarSignExpansion>),
}

/// `"..."`: escapes are read and expansions are allowed.
#[derive(Debug, PartialEq, Eq)]
pub struct WeakQuoteExpression {
    pub parts: Vec<WeakQuoteExpressionPart>,
}

/// `'...'`: the contents stand for themselves.
#[derive(Debug, PartialEq, Eq)]
pub struct StrongQuoteExpression {
    pub contents: Vec<u8>,
}

#[derive(Debug, PartialEq, Eq)]
pub enum QuoteExpression {
    Weak(WeakQuoteExpression),
    Strong(StrongQuoteExpression),
}

/// What a part of a weak quote holds.
pub enum WeakQuotePartView {
    Literal(Seq<u8>),
    DollarSignExpansion(DollarSignExpansion),
}

/// What a quote holds.
pub enum QuoteExpressionView {
    Weak(Seq<WeakQuotePartView>),
    Strong(Seq<u8>),
}

impl View for WeakQuoteExpressionPart {
    type V = WeakQuotePartView;

    open spec fn view(&self) -> WeakQuotePartView {
        match *self {
            WeakQuoteExpressionPart::Literal(bytes) => WeakQuotePartView::Literal(bytes@),
            WeakQuoteExpressionPart::DollarSignExpansion(expansion) => {
                WeakQuotePartView::DollarSignExpansion(*expansion)
            },
        }
    }
}

impl View for WeakQuoteExpression {
    type V = Seq<WeakQuotePartView>;

    open spec fn view(&self) -> Seq<WeakQuotePartView> {
        Seq::new(self.parts@.len(), |i: int| self.parts@[i]@)
    }
}

impl View for StrongQuoteExpression {
    type V = Seq<u8>;

    open spec fn view(&self) -> Seq<u8> {
        self.contents@
    }
}

impl View for QuoteExpression {
    type V = QuoteExpressionView;

    open spec fn view(&self) -> QuoteExpressionView {
        match *self {
            QuoteExpression::Weak(quote) => QuoteExpressionView::Weak(quote@),
            QuoteExpression::Strong(quote) => QuoteExpressionView::Strong(quote@),
        }
    }
}

/// The text of one part of a weak quote. A literal is written as it is
/// held: a byte that had to be escaped is not escaped again.
pub open spec fn weak_part_text(part: WeakQuotePartView) -> Seq<u8> {
    match part {
        WeakQuotePartView::Literal(bytes) => bytes,
        WeakQuotePartView::DollarSignExpansion(expansion) => expansion.original(),
    }
}

/// The texts of the parts of a weak quote, one after the other.
pub open spec fn weak_parts_text(parts: Seq<WeakQuotePartView>) -> Seq<u8> {
    concat(Seq::new(parts.len(), |i: int| weak_part_text(parts[i])))
}

/// The text of a quote, with its quote marks.
pub open spec fn quote_text(quote: QuoteExpressionView) -> Seq<u8> {
    match quote {
        QuoteExpressionView::Weak(parts) => seq![DOUBLE_QUOTE] + weak_parts_text(parts)
            + seq![DOUBLE_QUOTE],
        QuoteExpressionView::Strong(contents) => seq![SINGLE_QUOTE] + contents
            + seq![SINGLE_QUOTE],
    }
}

/// A copy of `bytes`.
pub fn clone_bytes(bytes: &Vec<u8>) -> (copy: Vec<u8>)
    ensures
        copy@ == bytes@,
{
    let copy = bytes.clone();
    assert(copy@ =~= bytes@);
    copy
}

impl Clone for WeakQuoteExpressionPart {
    fn clone(&self) -> (copy: Self)
        ensures
            copy@ == self@,
    {
        match self {
            WeakQuoteExpressionPart::Literal(bytes) => WeakQuoteExpressionPart::Literal(
                clone_bytes(bytes),
            ),
            WeakQuoteExpressionPart::DollarSignExpansion(expansion) => {
                WeakQuoteExpressionPart::DollarSignExpansion(Box::new(**expansion))
            },
        }
    }
}

impl Clone for WeakQuoteExpression {
    fn clone(&self) -> (copy: Self)
        ensures
            copy@ == self@,
    {
        let mut parts: Vec<WeakQuoteExpressionPart> = Vec::new();
        let mut i: usize = 0;
        while i < self.parts.len()
            invariant
                i <= self.parts@.len(),
                parts@.len() == i,
                forall|k: int| 0 <= k < i ==> (#[trigger] parts@[k])@ == self.parts@[k]@,
            decreases self.parts@.len() - i,
        {
            parts.push(self.parts[i].clone());
            i += 1;
        }
        let copy = WeakQuoteExpression { parts };
        assert(copy@ =~= self@);
        copy
    }
}

impl Clone for StrongQuoteExpression {
    fn clone(&self) -> (copy: Self)
        ensures
            copy@ == self@,
    {
        StrongQuoteExpression { contents: clone_bytes(&self.contents) }
    }
}

impl Clone for QuoteExpression {
    fn clone(&self) -> (copy: Self)
        ensures
            copy@ == self@,
    {
        match self {
            QuoteExpression::Weak(quote) => QuoteExpression::Weak(quote.clone()),
            QuoteExpression::Strong(quote) => QuoteExpression::Strong(quote.clone()),
        }
    }
}

/// Appends a copy of `bytes` to `target`.
pub fn append_bytes(target: &mut Vec<u8>, bytes: &Vec<u8>)
    ensures
        final(target)@ == old(target)@ + bytes@,
{
    let mut i: usize = 0;
    while i < bytes.len()
        invariant
            i <= bytes@.len(),
            target@ == old(target)@ + bytes@.subrange(0, i as int),
        decreases bytes@.len() - i,
    {
        target.push(bytes[i]);
        assert(target@ =~= old(target)@ + bytes@.subrange(0, i + 1));
        i += 1;
    }
    assert(bytes@.subrange(0, bytes@.len() as int) =~= bytes@);
}

impl ShellToken for WeakQuoteExpression {
    open spec fn original(&self) -> Seq<u8> {
        quote_text(QuoteExpressionView::Weak(self@))
    }

    fn restore_original(&self) -> (bytes: Vec<u8>) {
        let mut bytes: Vec<u8> = Vec::new();
        bytes.push(DOUBLE_QUOTE);
        let ghost texts = Seq::new(self@.len(), |i: int| weak_part_text(self@[i]));
        let mut i: usize = 0;
        assert(texts.subrange(0, 0) =~= Seq::<Seq<u8>>::empty());
        while i < self.parts.len()
            invariant
                i <= self.parts@.len(),
                texts == Seq::new(self@.len(), |i: int| weak_part_text(self@[i])),
                bytes@ == seq![DOUBLE_QUOTE] + concat(texts.subrange(0, i as int)),
            decreases self.parts@.len() - i,
        {
            proof {
                lemma_concat_push(texts.subrange(0, i as int), texts[i as int]);
                assert(texts.subrange(0, i + 1) =~= texts.subrange(0, i as int).push(
                    texts[i as int],
                ));
            }
            match &self.parts[i] {
                WeakQuoteExpressionPart::Literal(literal) => {
                    append_bytes(&mut bytes, literal);
                },
                WeakQuoteExpressionPart::DollarSignExpansion(expansion) => {
                    let mut text = expansion.restore_original();
                    bytes.append(&mut text);
                },
            }
            assert(bytes@ =~= seq![DOUBLE_QUOTE] + concat(texts.subrange(0, i + 1)));
            i += 1;
        }
        assert(texts.subrange(0, self.parts@.len() as int) =~= texts);
        bytes.push(DOUBLE_QUOTE);
        bytes
    }
}

impl ShellToken for QuoteExpression {
    open spec fn original(&self) -> Seq<u8> {
        quote_text(self@)
    }

    fn restore_original(&self) -> (bytes: Vec<u8>) {
        match self {
            QuoteExpression::Weak(quote) => quote.restore_original(),
            QuoteExpression::Strong(quote) => {
                let mut bytes: Vec<u8> = Vec::new();
                bytes.push(SINGLE_QUOTE);
                append_bytes(&mut bytes, &quote.contents);
                bytes.push(SINGLE_QUOTE);
                bytes
            },
        }
    }
}

} // verus!
