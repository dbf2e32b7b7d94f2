use cosh::shell_input_iterator::ShellInputIterator;
use cosh::shell_parser_base::{ParseError, ShellParsingRules};
use cosh::shell_parsers::shell_word_parser::shell_brace_expansion_parser::ShellBraceExpressionParser;
use cosh::shell_structures::shell_word::quoted_expressions::{QuoteExpression,
    StrongQuoteExpression};
use cosh::shell_structures::shell_word::shell_brace_expansion::shell_brace_list::ShellBraceList;
use cosh::shell_structures::shell_word::shell_brace_expansion::BraceExpansion;
use cosh::shell_structures::shell_word::{ShellExpression, ShellWord};
use cosh::shell_structures::ShellToken;

fn parse_list(input: &[u8]) -> (Result<Option<BraceExpansion>, ParseError>, usize) {
    let base = ShellParsingRules { is_interactive: true };
    let mut p = ShellBraceExpressionParser::new(ShellInputIterator::new(input.to_vec()));
    let result = p.parse_list(&base);
    (result, p.iter.get_current_index())
}

fn word(text: &[u8]) -> ShellWord {
    if text.is_empty() {
        ShellWord { parts: vec![] }
    } else {
        ShellWord { parts: vec![ShellExpression::Literal(text.to_vec())] }
    }
}

fn list(items: &[&[u8]]) -> Result<Option<BraceExpansion>, ParseError> {
    Ok(Some(BraceExpansion::List(ShellBraceList {
        words: items.iter().map(|item| word(item)).collect(),
    })))
}

#[test]
fn list_splits_on_commas() {
    assert_eq!(parse_list(b"a,b,c}"), (list(&[b"a", b"b", b"c"]), 6));
    assert_eq!(parse_list(b"a,b}rest"), (list(&[b"a", b"b"]), 4));
}

#[test]
fn list_elements_may_be_empty() {
    assert_eq!(parse_list(b",}"), (list(&[b"", b""]), 2));
    assert_eq!(parse_list(b"a,,b}"), (list(&[b"a", b"", b"b"]), 5));
    assert_eq!(parse_list(b"a,}"), (list(&[b"a", b""]), 3));
}

#[test]
fn first_element_stops_at_a_comma_only() {
    assert_eq!(parse_list(b"a}b,c}"), (list(&[b"a}b", b"c"]), 6));
}

#[test]
fn comma_inside_a_quote_does_not_split() {
    let (result, end) = parse_list(b"'a,b',c}");
    assert_eq!(end, 8);
    let quoted = ShellWord {
        parts: vec![ShellExpression::QuoteExpression(QuoteExpression::Strong(
            StrongQuoteExpression { contents: b"a,b".to_vec() },
        ))],
    };
    assert_eq!(
        result,
        Ok(Some(BraceExpansion::List(ShellBraceList { words: vec![quoted, word(b"c")] })))
    );
}

#[test]
fn list_without_comma_or_with_a_stop_byte_is_not_present() {
    for input in [&b"a b,c}"[..], b"a,b c}", b"a;b}", b"a,b;c}", b" a,b}", b"a,b\n}"] {
        assert_eq!(parse_list(input), (Ok(None), 0), "{:?}", input);
    }
}

#[test]
fn list_cut_short_is_incomplete() {
    for input in [&b""[..], b"a", b"a}", b"a,", b"a,b", b"a,b,", b"a,'b"] {
        assert_eq!(parse_list(input), (Err(ParseError::RequiresNextLine), 0), "{:?}", input);
    }
}

#[test]
fn parsed_list_is_written_back() {
    let (result, _) = parse_list(b"a,b\\,c,'d'}");
    assert_eq!(result.unwrap().unwrap().restore_original(), b"{a,b\\,c,'d'}".to_vec());
}
