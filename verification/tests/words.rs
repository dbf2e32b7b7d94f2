use cosh::shell_input_iterator::{ShellInputIterator, ShellInputIteratorExt};
use cosh::shell_parser_base::{get_brace_list_word_parsing_rules, get_default_word_parsing_rules,
    ParseError, ShellParsingRules, ShellWordParsingRules};
use cosh::shell_parsers::shell_word_parser::quoted_expression_parser::QuotedExpressionParser;
use cosh::shell_parsers::shell_word_parser::shell_dollar_sign_expansion_parser::ShellDollarSignExpansionParser;
use cosh::shell_parsers::shell_word_parser::ShellWordParser;
use cosh::shell_structures::shell_word::quoted_expressions::{QuoteExpression,
    StrongQuoteExpression, WeakQuoteExpression, WeakQuoteExpressionPart};
use cosh::shell_structures::shell_word::shell_brace_expansion::BraceExpansion;
use cosh::shell_structures::shell_word::{ShellExpression, ShellWord};
use cosh::shell_structures::ShellToken;

fn reader(input: &[u8]) -> ShellInputIterator {
    ShellInputIterator::new(input.to_vec())
}

fn default_rules() -> ShellWordParsingRules {
    get_default_word_parsing_rules(&ShellParsingRules { is_interactive: true })
}

fn parse_word(input: &[u8]) -> (Result<Option<ShellWord>, ParseError>, usize) {
    let rules = default_rules();
    let mut p = ShellWordParser::new(reader(input), &rules);
    let result = p.parse();
    (result, p.iter.get_current_index())
}

fn lit(text: &[u8]) -> ShellExpression {
    ShellExpression::Literal(text.to_vec())
}

fn strong(text: &[u8]) -> ShellExpression {
    ShellExpression::QuoteExpression(QuoteExpression::Strong(StrongQuoteExpression {
        contents: text.to_vec(),
    }))
}

fn weak(text: &[u8]) -> ShellExpression {
    let parts = if text.is_empty() {
        vec![]
    } else {
        vec![WeakQuoteExpressionPart::Literal(text.to_vec())]
    };
    ShellExpression::QuoteExpression(QuoteExpression::Weak(WeakQuoteExpression { parts }))
}

fn word(parts: Vec<ShellExpression>) -> Result<Option<ShellWord>, ParseError> {
    Ok(Some(ShellWord { parts }))
}

#[test]
fn plain_word_is_one_literal() {
    assert_eq!(parse_word(b"hello"), (word(vec![lit(b"hello")]), 5));
    assert_eq!(parse_word(b"hello world"), (word(vec![lit(b"hello")]), 5));
}

#[test]
fn word_stops_at_each_universal_stop_byte() {
    for stop in b" \t\n&;|()<>" {
        let input = [b'a', b'b', *stop, b'c'];
        assert_eq!(parse_word(&input), (word(vec![lit(b"ab")]), 2));
    }
}

#[test]
fn nothing_consumed_is_not_present() {
    assert_eq!(parse_word(b""), (Ok(None), 0));
    assert_eq!(parse_word(b" x"), (Ok(None), 0));
    assert_eq!(parse_word(b"(x"), (Ok(None), 0));
    assert_eq!(parse_word(b";"), (Ok(None), 0));
}

#[test]
fn escaped_byte_splits_literals() {
    assert_eq!(
        parse_word(b"a\\bc"),
        (word(vec![lit(b"a"), ShellExpression::EscapedLiteral(b'b'), lit(b"c")]), 4)
    );
    assert_eq!(
        parse_word(b"\\ x"),
        (word(vec![ShellExpression::EscapedLiteral(b' '), lit(b"x")]), 3)
    );
    assert_eq!(
        parse_word(b"\\a\\b"),
        (
            word(vec![ShellExpression::EscapedLiteral(b'a'), ShellExpression::EscapedLiteral(b'b')]),
            4
        )
    );
}

#[test]
fn line_continuation_vanishes() {
    assert_eq!(parse_word(b"ab\\\ncd"), (word(vec![lit(b"abcd")]), 6));
}

#[test]
fn a_word_of_a_lone_continuation_is_matched_without_parts() {
    assert_eq!(parse_word(b"\\\n"), (word(vec![]), 2));
    assert_eq!(parse_word(b"\\\n rest"), (word(vec![]), 2));
}

#[test]
fn trailing_backslash_is_incomplete() {
    assert_eq!(parse_word(b"\\"), (Err(ParseError::RequiresNextLine), 0));
    assert_eq!(parse_word(b"abc\\"), (Err(ParseError::RequiresNextLine), 0));
}

#[test]
fn unterminated_strong_quote_is_incomplete() {
    assert_eq!(parse_word(b"'abc"), (Err(ParseError::RequiresNextLine), 0));
    assert_eq!(parse_word(b"x'abc"), (Err(ParseError::RequiresNextLine), 0));
}

#[test]
fn unterminated_weak_quote_is_incomplete() {
    assert_eq!(parse_word(b"\"abc"), (Err(ParseError::RequiresNextLine), 0));
    assert_eq!(parse_word(b"\"abc\\"), (Err(ParseError::RequiresNextLine), 0));
    assert_eq!(parse_word(b"\"abc\\\""), (Err(ParseError::RequiresNextLine), 0));
}

#[test]
fn unterminated_brace_range_is_incomplete() {
    for input in [&b"{1.."[..], b"{", b"{1", b"{1.", b"{1..5", b"{1..5.", b"{1..5..", b"{1..5..2",
        b"{a", b"{a..", b"{a..b", b"{-", b"x{1.."]
    {
        assert_eq!(parse_word(input), (Err(ParseError::RequiresNextLine), 0));
    }
}

#[test]
fn strong_quote_keeps_everything() {
    assert_eq!(parse_word(b"'a b\\n$x\"'"), (word(vec![strong(b"a b\\n$x\"")]), 10));
    assert_eq!(parse_word(b"''"), (word(vec![strong(b"")]), 2));
    assert_eq!(
        parse_word(b"ab'c d'ef gh"),
        (word(vec![lit(b"ab"), strong(b"c d"), lit(b"ef")]), 9)
    );
}

#[test]
fn weak_quote_escaped_terminator_is_a_literal_quote() {
    assert_eq!(parse_word(b"\"a\\\"b\""), (word(vec![weak(b"a\"b")]), 6));
}

#[test]
fn weak_quote_escapes() {
    let mut p = QuotedExpressionParser::new(reader(b"a\\\\b\\$c\\\nd\\ne$f\" tail"));
    let expected = QuoteExpression::Weak(WeakQuoteExpression {
        parts: vec![WeakQuoteExpressionPart::Literal(b"a\\b$cd\\ne$f".to_vec())],
    });
    assert_eq!(p.parse_weak(b'"'), Ok(Some(expected)));
    assert_eq!(p.iter.get_current_index(), 16);
}

#[test]
fn weak_quote_with_another_terminator() {
    let mut p = QuotedExpressionParser::new(reader(b"a\"b\\)c)d"));
    let expected = QuoteExpression::Weak(WeakQuoteExpression {
        parts: vec![WeakQuoteExpressionPart::Literal(b"a\"b)c".to_vec())],
    });
    assert_eq!(p.parse_weak(b')'), Ok(Some(expected)));
    assert_eq!(p.iter.get_current_index(), 7);
}

#[test]
fn empty_weak_quote_has_no_parts() {
    assert_eq!(parse_word(b"\"\""), (word(vec![weak(b"")]), 2));
}

#[test]
fn substitution_in_weak_quote_is_not_implemented() {
    for input in [&b"\"a$(x)\""[..], b"\"${x}\"", b"\"$$\""] {
        assert_eq!(parse_word(input), (Err(ParseError::NotImplemented), 0));
    }
    assert_eq!(parse_word(b"\"a$\""), (word(vec![weak(b"a$")]), 4));
    assert_eq!(parse_word(b"\"\\$(x)\""), (word(vec![weak(b"$(x)")]), 7));
}

#[test]
fn strong_parser_reads_up_to_the_quote() {
    let mut p = QuotedExpressionParser::new(reader(b"ab c'd"));
    let expected = QuoteExpression::Strong(StrongQuoteExpression { contents: b"ab c".to_vec() });
    assert_eq!(p.parse_strong(), Ok(Some(expected)));
    assert_eq!(p.iter.get_current_index(), 5);
    let mut q = QuotedExpressionParser::new(reader(b"ab c"));
    assert_eq!(q.parse_strong(), Err(ParseError::RequiresNextLine));
    assert_eq!(q.iter.get_current_index(), 0);
}

#[test]
fn bare_dollar_is_literal() {
    assert_eq!(parse_word(b"a$b"), (word(vec![lit(b"a$b")]), 3));
    assert_eq!(parse_word(b"$"), (word(vec![lit(b"$")]), 1));
    assert_eq!(parse_word(b"$ x"), (word(vec![lit(b"$")]), 1));
}

#[test]
fn substitution_is_not_implemented() {
    for input in [&b"$(date)"[..], b"${x}", b"$$", b"a$(x)"] {
        assert_eq!(parse_word(input), (Err(ParseError::NotImplemented), 0));
    }
}

#[test]
fn dollar_is_ordinary_when_expansion_is_off() {
    let mut rules = default_rules();
    rules.parse_dollar_sign_expansions = false;
    let mut p = ShellWordParser::new(reader(b"$$x"), &rules);
    assert_eq!(p.parse(), word(vec![lit(b"$$x")]));
}

#[test]
fn dollar_parser_tells_substitution_from_bare_dollar() {
    let mut p = ShellDollarSignExpansionParser::new(reader(b"(x)"));
    assert_eq!(p.parse(), Err(ParseError::NotImplemented));
    let mut q = ShellDollarSignExpansionParser::new(reader(b"x"));
    assert_eq!(q.parse(), Ok(None));
    assert_eq!(q.iter.get_current_index(), 0);
    let mut r = ShellDollarSignExpansionParser::new(reader(b""));
    assert_eq!(r.parse(), Ok(None));
}

#[test]
fn brace_range_is_a_part() {
    let (result, end) = parse_word(b"a{1..3}b");
    assert_eq!(end, 8);
    let parsed = result.unwrap().unwrap();
    assert_eq!(parsed.parts.len(), 3);
    assert_eq!(parsed.parts[0], lit(b"a"));
    assert_eq!(parsed.parts[2], lit(b"b"));
    match &parsed.parts[1] {
        ShellExpression::BraceExpansion(BraceExpansion::Range(range)) => {
            assert_eq!(range.expand(), vec![b"1".to_vec(), b"2".to_vec(), b"3".to_vec()]);
        },
        other => panic!("{:?}", other),
    }
}

#[test]
fn brace_that_is_no_range_is_literal() {
    assert_eq!(parse_word(b"{1..}"), (word(vec![lit(b"{1..}")]), 5));
    assert_eq!(parse_word(b"a{b,c}d"), (word(vec![lit(b"a{b,c}d")]), 7));
    assert_eq!(parse_word(b"{} x"), (word(vec![lit(b"{}")]), 2));
    assert_eq!(parse_word(b"{1..5 }"), (word(vec![lit(b"{1..5")]), 5));
    assert_eq!(parse_word(b"{a..5}"), (word(vec![lit(b"{a..5}")]), 6));
    assert_eq!(parse_word(b"{1..3..0}"), (word(vec![lit(b"{1..3..0}")]), 9));
}

#[test]
fn brace_is_ordinary_when_expansion_is_off() {
    let mut rules = default_rules();
    rules.parse_brace_expansions = false;
    let mut p = ShellWordParser::new(reader(b"{1..3}"), &rules);
    assert_eq!(p.parse(), word(vec![lit(b"{1..3}")]));
}

#[test]
fn oversized_range_falls_back_to_literal() {
    assert_eq!(
        parse_word(b"{1..2147483646}"),
        (word(vec![lit(b"{1..2147483646}")]), 15)
    );
}

#[test]
fn extra_stop_bytes_end_a_word() {
    let base = ShellParsingRules { is_interactive: false };
    let first = get_brace_list_word_parsing_rules(&base, true);
    let mut p = ShellWordParser::new(reader(b"ab}c,d"), &first);
    assert_eq!(p.parse(), word(vec![lit(b"ab}c")]));
    assert_eq!(p.iter.peek(), Some(b','));
    let later = get_brace_list_word_parsing_rules(&base, false);
    let mut q = ShellWordParser::new(reader(b"ab}c,d"), &later);
    assert_eq!(q.parse(), word(vec![lit(b"ab")]));
    assert_eq!(q.iter.peek(), Some(b'}'));
}

#[test]
fn rule_sets_are_as_documented() {
    let base = ShellParsingRules { is_interactive: true };
    let rules = get_default_word_parsing_rules(&base);
    assert!(rules.parse_history_expansions);
    assert!(rules.parse_brace_expansions);
    assert!(rules.parse_dollar_sign_expansions);
    assert!(rules.parse_filename_expansions);
    assert_eq!(rules.additional_word_stop_characters, Vec::<u8>::new());
    let quiet = ShellParsingRules { is_interactive: false };
    let first = get_brace_list_word_parsing_rules(&quiet, true);
    assert!(!first.parse_history_expansions);
    assert!(first.parse_brace_expansions);
    assert_eq!(first.additional_word_stop_characters, vec![b',']);
    let later = get_brace_list_word_parsing_rules(&quiet, false);
    assert_eq!(later.additional_word_stop_characters, vec![b',', b'}']);
}

#[test]
fn no_two_literals_are_neighbours_and_none_is_empty() {
    for input in [&b"a{b$c\\\nd'e'f\"g\"{1..2}h\\ij"[..], b"'a''b'", b"\\a{1..", b"x\\\n\\\ny"] {
        if let (Ok(Some(parsed)), _) = parse_word(input) {
            let mut previous_was_literal = false;
            for part in parsed.parts.iter() {
                let is_literal = match part {
                    ShellExpression::Literal(bytes) => {
                        assert!(!bytes.is_empty());
                        true
                    },
                    _ => false,
                };
                assert!(!(is_literal && previous_was_literal));
                previous_was_literal = is_literal;
            }
        }
    }
}

#[test]
fn round_trip_of_literals_escapes_and_strong_quotes() {
    for input in [&b"hello"[..], b"a\\bc", b"ab'c d'ef", b"''", b"a$b", b"{1..}x", b"\\'x'\\'",
        b"a'b\\\nc'd"]
    {
        let (result, end) = parse_word(input);
        let parsed = result.unwrap().unwrap();
        assert_eq!(end, input.len());
        assert_eq!(parsed.restore_original(), input.to_vec());
    }
}

#[test]
fn round_trip_fails_on_a_line_continuation() {
    let (result, end) = parse_word(b"ab\\\ncd");
    assert_eq!(end, 6);
    assert_eq!(result.unwrap().unwrap().restore_original(), b"abcd".to_vec());
}

#[test]
fn dollar_inside_a_weak_quote_becomes_a_literal_part() {
    let mut p = QuotedExpressionParser::new(reader(b"x\""));
    assert_eq!(
        p.try_parse_dollar_sign_expansion(),
        Ok(Some(WeakQuoteExpressionPart::Literal(b"$".to_vec())))
    );
    assert_eq!(p.iter.get_current_index(), 0);
    for input in [&b"(x)"[..], b"{x}", b"$"] {
        let mut q = QuotedExpressionParser::new(reader(input));
        assert_eq!(q.try_parse_dollar_sign_expansion(), Err(ParseError::NotImplemented));
    }
    let mut r = QuotedExpressionParser::new(reader(b""));
    assert_eq!(
        r.try_parse_dollar_sign_expansion(),
        Ok(Some(WeakQuoteExpressionPart::Literal(b"$".to_vec())))
    );
}

#[test]
fn word_parser_steps() {
    let rules = default_rules();
    let mut p = ShellWordParser::new(reader(b"ab' \"x\" 1..2} (y"), &rules);
    assert_eq!(p.try_parse_single_quote_expression(), Ok(Some(strong(b"ab"))));
    assert_eq!(p.iter.get_current_index(), 3);
    p.iter.next();
    p.iter.next();
    assert_eq!(p.try_parse_double_quote_expression(), Ok(Some(weak(b"x"))));
    assert_eq!(p.iter.get_current_index(), 7);
    p.iter.next();
    match p.try_parse_brace_expansion() {
        Ok(Some(ShellExpression::BraceExpansion(BraceExpansion::Range(range)))) => {
            assert_eq!(range.expand(), vec![b"1".to_vec(), b"2".to_vec()]);
        },
        other => panic!("{:?}", other),
    }
    assert_eq!(p.iter.get_current_index(), 13);
    p.iter.next();
    assert_eq!(p.try_parse_dollar_sign_expansion(), Err(ParseError::NotImplemented));
    p.iter.next();
    assert_eq!(p.try_parse_dollar_sign_expansion(), Ok(None));
    assert_eq!(p.try_parse_brace_expansion(), Err(ParseError::RequiresNextLine));
    assert_eq!(p.iter.get_current_index(), 15);
}
