use cosh::shell_structures::shell_word::quoted_expressions::{QuoteExpression,
    StrongQuoteExpression, WeakQuoteExpression, WeakQuoteExpressionPart};
use cosh::shell_structures::shell_word::shell_brace_expansion::shell_brace_list::ShellBraceList;
use cosh::shell_structures::shell_word::shell_brace_expansion::shell_range::ShellIntRange;
use cosh::shell_structures::shell_word::shell_brace_expansion::BraceExpansion;
use cosh::shell_structures::shell_word::shell_dollar_sign_expansion::DollarSignExpansion;
use cosh::shell_structures::shell_word::{ShellExpression, ShellWord};
use cosh::shell_structures::ShellToken;

fn lit(text: &[u8]) -> ShellExpression {
    ShellExpression::Literal(text.to_vec())
}

fn word(text: &[u8]) -> ShellWord {
    ShellWord { parts: vec![lit(text)] }
}

#[test]
fn literal_and_escaped_byte_are_written_back() {
    assert_eq!(lit(b"abc").restore_original(), b"abc".to_vec());
    assert_eq!(lit(b"").restore_original(), b"".to_vec());
    assert_eq!(ShellExpression::EscapedLiteral(b'x').restore_original(), b"\\x".to_vec());
}

#[test]
fn strong_quote_is_written_back_with_its_marks() {
    let quote = QuoteExpression::Strong(StrongQuoteExpression { contents: b"a b".to_vec() });
    assert_eq!(quote.restore_original(), b"'a b'".to_vec());
    assert_eq!(
        ShellExpression::QuoteExpression(quote).restore_original(),
        b"'a b'".to_vec()
    );
}

#[test]
fn weak_quote_is_written_back_without_new_escapes() {
    let quote = WeakQuoteExpression {
        parts: vec![
            WeakQuoteExpressionPart::Literal(b"a\"b".to_vec()),
            WeakQuoteExpressionPart::DollarSignExpansion(Box::new(DollarSignExpansion::Unresolved)),
            WeakQuoteExpressionPart::Literal(b"c".to_vec()),
        ],
    };
    assert_eq!(quote.restore_original(), b"\"a\"b$c\"".to_vec());
    assert_eq!(QuoteExpression::Weak(quote).restore_original(), b"\"a\"b$c\"".to_vec());
    let empty = WeakQuoteExpression { parts: vec![] };
    assert_eq!(empty.restore_original(), b"\"\"".to_vec());
}

#[test]
fn dollar_placeholder_is_written_back_as_a_dollar() {
    assert_eq!(DollarSignExpansion::Unresolved.restore_original(), b"$".to_vec());
    assert_eq!(
        ShellExpression::DollarSignExpansion(DollarSignExpansion::Unresolved).restore_original(),
        b"$".to_vec()
    );
}

#[test]
fn brace_list_is_written_back_with_commas() {
    let list = ShellBraceList { words: vec![word(b"a"), word(b"bc"), ShellWord { parts: vec![] }] };
    assert_eq!(list.restore_original(), b"{a,bc,}".to_vec());
    let single = ShellBraceList { words: vec![word(b"a")] };
    assert_eq!(single.restore_original(), b"{a}".to_vec());
    let none = ShellBraceList { words: vec![] };
    assert_eq!(none.restore_original(), b"{}".to_vec());
    assert_eq!(BraceExpansion::List(list).restore_original(), b"{a,bc,}".to_vec());
}

#[test]
fn nested_word_is_written_back() {
    let range = ShellIntRange::create_validated(&b"1".to_vec(), &b"3".to_vec(), &b"1".to_vec())
        .unwrap();
    let inner = ShellWord {
        parts: vec![lit(b"x"), ShellExpression::BraceExpansion(BraceExpansion::Range(range))],
    };
    let list = ShellBraceList { words: vec![inner, word(b"y")] };
    let outer = ShellWord {
        parts: vec![
            lit(b"a"),
            ShellExpression::EscapedLiteral(b' '),
            ShellExpression::BraceExpansion(BraceExpansion::List(list)),
            ShellExpression::QuoteExpression(QuoteExpression::Strong(StrongQuoteExpression {
                contents: b"q".to_vec(),
            })),
        ],
    };
    assert_eq!(outer.restore_original(), b"a\\ {x{1..3},y}'q'".to_vec());
}

#[test]
fn default_word_has_no_parts() {
    let empty = ShellWord::default();
    assert_eq!(empty.parts.len(), 0);
    assert_eq!(empty.restore_original(), Vec::<u8>::new());
}

#[test]
fn copies_are_equal_to_what_they_copy() {
    let range = ShellIntRange::create_validated(&b"01".to_vec(), &b"3".to_vec(), &b"2".to_vec())
        .unwrap();
    let inner = ShellWord {
        parts: vec![lit(b"x"), ShellExpression::BraceExpansion(BraceExpansion::Range(range))],
    };
    let list = ShellBraceList { words: vec![inner, word(b"y")] };
    let weak = WeakQuoteExpression {
        parts: vec![
            WeakQuoteExpressionPart::Literal(b"w".to_vec()),
            WeakQuoteExpressionPart::DollarSignExpansion(Box::new(DollarSignExpansion::Unresolved)),
        ],
    };
    let outer = ShellWord {
        parts: vec![
            lit(b"a"),
            ShellExpression::EscapedLiteral(b' '),
            ShellExpression::BraceExpansion(BraceExpansion::List(list)),
            ShellExpression::QuoteExpression(QuoteExpression::Weak(weak)),
            ShellExpression::QuoteExpression(QuoteExpression::Strong(StrongQuoteExpression {
                contents: b"q".to_vec(),
            })),
            ShellExpression::DollarSignExpansion(DollarSignExpansion::Unresolved),
        ],
    };
    let copy = outer.clone();
    assert_eq!(copy, outer);
    assert_eq!(copy.restore_original(), outer.restore_original());
    assert_eq!(copy.parts[2].clone(), outer.parts[2]);
}
