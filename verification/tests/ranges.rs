use cosh::decimal::{format_padded, parse_decimal};
use cosh::shell_input_iterator::{ShellInputIterator, ShellInputIteratorExt};
use cosh::shell_parser_base::ParseError;
use cosh::shell_parsers::shell_word_parser::shell_brace_expansion_parser::shell_range_parser::ShellRangeParser;
use cosh::shell_parsers::shell_word_parser::shell_brace_expansion_parser::ShellBraceExpressionParser;
use cosh::shell_structures::shell_word::shell_brace_expansion::shell_range::{RangeCreateFunc,
    ShellCharRange, ShellIntRange, ShellRange};
use cosh::shell_structures::shell_word::shell_brace_expansion::BraceExpansion;
use cosh::shell_structures::ShellToken;

fn int_range(start: &[u8], end: &[u8], step: &[u8]) -> Option<ShellRange> {
    ShellIntRange::create_validated(&start.to_vec(), &end.to_vec(), &step.to_vec())
}

fn char_range(start: &[u8], end: &[u8], step: &[u8]) -> Option<ShellRange> {
    ShellCharRange::create_validated(&start.to_vec(), &end.to_vec(), &step.to_vec())
}

fn texts(items: &[&[u8]]) -> Vec<Vec<u8>> {
    items.iter().map(|item| item.to_vec()).collect()
}

fn parse_range(input: &[u8]) -> (Result<Option<ShellRange>, ParseError>, usize) {
    let mut p = ShellRangeParser::new(ShellInputIterator::new(input.to_vec()));
    let result = p.parse();
    (result, p.iter.get_current_index())
}

#[test]
fn zero_padded_range_is_aligned() {
    let range = int_range(b"007", b"010", b"1").unwrap();
    match range {
        ShellRange::Int(inner) => {
            assert_eq!(inner.alignment(), 3);
            assert_eq!(inner.start(), 7);
            assert_eq!(inner.end(), 10);
            assert_eq!(inner.step(), 1);
        },
        other => panic!("{:?}", other),
    }
    assert_eq!(range.expand(), texts(&[b"007", b"008", b"009", b"010"]));
}

#[test]
fn parsed_zero_padded_range_expands() {
    let (result, end) = parse_range(b"007..010}");
    assert_eq!(end, 9);
    assert_eq!(result.unwrap().unwrap().expand(), texts(&[b"007", b"008", b"009", b"010"]));
}

#[test]
fn int_range_length_is_span_over_step_plus_one() {
    let range = int_range(b"1", b"10", b"3").unwrap();
    assert_eq!(range.expand(), texts(&[b"1", b"4", b"7", b"10"]));
    let range = int_range(b"1", b"9", b"3").unwrap();
    assert_eq!(range.expand(), texts(&[b"1", b"4", b"7"]));
    let range = int_range(b"5", b"5", b"7").unwrap();
    assert_eq!(range.expand(), texts(&[b"5"]));
    let range = int_range(b"0", b"99", b"1").unwrap();
    assert_eq!(range.expand().len(), 100);
}

#[test]
fn int_range_is_strictly_ascending_without_duplicates() {
    let range = int_range(b"-5", b"20", b"4").unwrap();
    let elements = range.expand();
    let numbers: Vec<i64> = elements.iter().map(|e| parse_decimal(e).unwrap()).collect();
    assert_eq!(numbers, vec![-5, -1, 3, 7, 11, 15, 19]);
    for pair in numbers.windows(2) {
        assert!(pair[0] < pair[1]);
    }
    for i in 0..elements.len() {
        for j in 0..i {
            assert_ne!(elements[i], elements[j]);
        }
    }
}

#[test]
fn descending_bounds_expand_from_the_smaller() {
    let range = int_range(b"5", b"1", b"2").unwrap();
    assert_eq!(range.expand(), texts(&[b"1", b"3", b"5"]));
    let range = char_range(b"e", b"a", b"2").unwrap();
    assert_eq!(range.expand(), texts(&[b"a", b"c", b"e"]));
}

#[test]
fn negative_step_is_taken_by_its_absolute_value() {
    let range = int_range(b"1", b"5", b"-2").unwrap();
    match range {
        ShellRange::Int(inner) => assert_eq!(inner.step(), 2),
        other => panic!("{:?}", other),
    }
    assert_eq!(range.expand(), texts(&[b"1", b"3", b"5"]));
    let range = char_range(b"a", b"e", b"-2").unwrap();
    match range {
        ShellRange::Char(inner) => assert_eq!(inner.step(), -2),
        other => panic!("{:?}", other),
    }
    assert_eq!(range.expand(), texts(&[b"a", b"c", b"e"]));
}

#[test]
fn negative_numbers_are_padded_behind_the_sign() {
    let range = int_range(b"-02", b"1", b"1").unwrap();
    match range {
        ShellRange::Int(inner) => assert_eq!(inner.alignment(), 3),
        other => panic!("{:?}", other),
    }
    assert_eq!(range.expand(), texts(&[b"-02", b"-01", b"000", b"001"]));
}

#[test]
fn alignment_is_the_wider_padded_bound() {
    for (start, end, alignment) in [
        (&b"1"[..], &b"10"[..], 0usize),
        (b"01", b"10", 2),
        (b"1", b"010", 3),
        (b"001", b"0010", 4),
        (b"0", b"5", 0),
        (b"-0", b"5", 0),
        (b"-5", b"5", 0),
        (b"-05", b"5", 3),
        (b"+05", b"5", 0),
        (b"00", b"5", 2),
    ] {
        match int_range(start, end, b"1").unwrap() {
            ShellRange::Int(inner) => assert_eq!(inner.alignment(), alignment),
            other => panic!("{:?}", other),
        }
    }
    assert_eq!(ShellIntRange::count_int_align(&b"007".to_vec()), 3);
    assert_eq!(ShellIntRange::count_int_align(&b"7".to_vec()), 0);
    assert_eq!(ShellIntRange::count_int_align(&b"".to_vec()), 0);
}

#[test]
fn char_range_length_and_one_byte_elements() {
    let range = char_range(b"a", b"z", b"5").unwrap();
    let elements = range.expand();
    assert_eq!(elements, texts(&[b"a", b"f", b"k", b"p", b"u", b"z"]));
    assert_eq!(elements.len(), (b'z' - b'a') as usize / 5 + 1);
    for element in elements.iter() {
        assert_eq!(element.len(), 1);
    }
    let range = char_range(b"a", b"e", b"1").unwrap();
    assert_eq!(range.expand(), texts(&[b"a", b"b", b"c", b"d", b"e"]));
    let range = char_range(b"a", b"e", b"9").unwrap();
    assert_eq!(range.expand(), texts(&[b"a"]));
    let range = char_range(b"a", b"e", b"-9223372036854775808").unwrap();
    assert_eq!(range.expand(), texts(&[b"a"]));
}

#[test]
fn char_range_takes_the_first_byte_of_each_bound() {
    let range = char_range(b"abc", b"cde", b"1").unwrap();
    match range {
        ShellRange::Char(inner) => {
            assert_eq!(inner.start(), b'a');
            assert_eq!(inner.end(), b'c');
            assert_eq!(inner.step(), 1);
        },
        other => panic!("{:?}", other),
    }
    assert_eq!(char_range(b"", b"c", b"1"), None);
    assert_eq!(char_range(b"a", b"", b"1"), None);
    assert_eq!(char_range(b"a", b"c", b"x"), None);
    assert_eq!(char_range(b"a", b"c", b"0"), None);
}

#[test]
fn oversized_range_is_rejected() {
    assert!(int_range(b"1", b"2147483645", b"1").is_some());
    assert_eq!(int_range(b"1", b"2147483646", b"1"), None);
    assert_eq!(int_range(b"2147483646", b"1", b"1"), None);
    assert!(int_range(b"1", b"2147483646", b"2").is_some());
    assert_eq!(int_range(b"-9223372036854775808", b"9223372036854775807", b"1"), None);
    assert_eq!(int_range(b"-9223372036854775808", b"9223372036854775807", b"8589934604"), None);
    assert!(int_range(b"-9223372036854775808", b"9223372036854775807", b"8589934605").is_some());
    assert_eq!(parse_range(b"1..2147483646}"), (Ok(None), 0));
}

#[test]
fn widest_range_expands_within_bounds() {
    let range =
        int_range(b"-9223372036854775808", b"9223372036854775807", b"9223372036854775807").unwrap();
    assert_eq!(
        range.expand(),
        texts(&[b"-9223372036854775808", b"-1", b"9223372036854775806"])
    );
}

#[test]
fn texts_that_denote_no_range_are_rejected() {
    assert_eq!(int_range(b"1", b"5", b"0"), None);
    assert_eq!(int_range(b"1", b"5", b"-9223372036854775808"), None);
    assert_eq!(int_range(b"", b"5", b"1"), None);
    assert_eq!(int_range(b"1", b"x", b"1"), None);
    assert_eq!(int_range(b"1", b"5", b"-"), None);
    assert_eq!(int_range(b"9223372036854775808", b"5", b"1"), None);
}

#[test]
fn constructors_build_their_kind() {
    let create = ShellRange::get_int_create_func();
    assert_eq!(create, RangeCreateFunc::Int);
    assert_eq!(
        create.call(&b"1".to_vec(), &b"3".to_vec(), &b"1".to_vec()),
        int_range(b"1", b"3", b"1")
    );
    assert_eq!(create.call(&b"a".to_vec(), &b"c".to_vec(), &b"1".to_vec()), None);
    let create = ShellRange::get_char_create_func();
    assert_eq!(create, RangeCreateFunc::Char);
    assert_eq!(
        create.call(&b"a".to_vec(), &b"c".to_vec(), &b"1".to_vec()),
        char_range(b"a", b"c", b"1")
    );
}

#[test]
fn range_grammar() {
    assert_eq!(parse_range(b"1..5}"), (Ok(int_range(b"1", b"5", b"1")), 5));
    assert_eq!(parse_range(b"1..5..2}x"), (Ok(int_range(b"1", b"5", b"2")), 8));
    assert_eq!(parse_range(b"-3..+5..-2}"), (Ok(int_range(b"-3", b"+5", b"-2")), 11));
    assert_eq!(parse_range(b"a..e}"), (Ok(char_range(b"a", b"e", b"1")), 5));
    assert_eq!(parse_range(b"a..e..2}"), (Ok(char_range(b"a", b"e", b"2")), 8));
    assert_eq!(parse_range(b"Z..A}"), (Ok(char_range(b"Z", b"A", b"1")), 5));
}

#[test]
fn range_grammar_deviations_are_not_present() {
    for input in [&b"1..}"[..], b"1.5}", b"1..5]", b"1..5..}", b"1..5..x}", b"1..5..2]",
        b"1..a}", b"a..1}", b"ab..c}", b"a..bc}", b"}", b"..5}", b"1..5..2..3}", b"1-..5}",
        b"--1..5}", b"1..5..0}", b"99999999999999999999..1}", b"1 ..5}", b",", b"a,b}"]
    {
        assert_eq!(parse_range(input), (Ok(None), 0), "{:?}", input);
    }
}

#[test]
fn range_cut_short_is_incomplete() {
    for input in [&b""[..], b"1", b"1.", b"1..", b"1..5", b"1..5.", b"1..5..", b"1..5..2", b"a",
        b"a.", b"a..", b"a..e", b"a..e..", b"-", b"+", b"99999999999999999999"]
    {
        assert_eq!(parse_range(input), (Err(ParseError::RequiresNextLine), 0), "{:?}", input);
    }
}

#[test]
fn range_parser_steps() {
    let mut p = ShellRangeParser::new(ShellInputIterator::new(b"-12..x".to_vec()));
    assert_eq!(p.try_parse_int(), Ok(Some(b"-12".to_vec())));
    assert_eq!(p.iter.get_current_index(), 3);
    assert_eq!(p.try_parse_int(), Ok(None));
    assert_eq!(p.iter.get_current_index(), 3);
    assert_eq!(p.try_parse_char(), Ok(None));
    assert!(p.iter.try_consume_string(b"..", false));
    assert_eq!(p.try_parse_char(), Ok(Some(b"x".to_vec())));
    assert_eq!(p.try_parse_char(), Err(ParseError::RequiresNextLine));
    assert_eq!(p.try_parse_int(), Err(ParseError::RequiresNextLine));
    let mut q = ShellRangeParser::new(ShellInputIterator::new(b"a..c..2}".to_vec()));
    assert_eq!(
        q.try_parse_range(true),
        Ok(Some((b"a".to_vec(), b"c".to_vec(), b"2".to_vec())))
    );
    let mut r = ShellRangeParser::new(ShellInputIterator::new(b"1..3}".to_vec()));
    assert_eq!(
        r.try_parse_range(false),
        Ok(Some((b"1".to_vec(), b"3".to_vec(), b"1".to_vec())))
    );
    let mut t = ShellRangeParser::new(ShellInputIterator::new(b"1..3}".to_vec()));
    assert_eq!(t.try_parse_range(true), Ok(None));
}

#[test]
fn brace_parser_wraps_the_range() {
    let mut p = ShellBraceExpressionParser::new(ShellInputIterator::new(b"1..3}".to_vec()));
    assert_eq!(
        p.parse(),
        Ok(Some(BraceExpansion::Range(int_range(b"1", b"3", b"1").unwrap())))
    );
    assert_eq!(p.iter.get_current_index(), 5);
    let mut q = ShellBraceExpressionParser::new(ShellInputIterator::new(b"a,b}".to_vec()));
    assert_eq!(q.parse(), Ok(None));
    assert_eq!(q.iter.get_current_index(), 0);
}

#[test]
fn range_is_written_back_without_step_and_padding() {
    assert_eq!(int_range(b"007", b"010", b"2").unwrap().restore_original(), b"{7..10}".to_vec());
    assert_eq!(int_range(b"-3", b"+5", b"1").unwrap().restore_original(), b"{-3..5}".to_vec());
    assert_eq!(char_range(b"a", b"e", b"2").unwrap().restore_original(), b"{a..e}".to_vec());
}

#[test]
fn decimal_numbers_are_read() {
    assert_eq!(parse_decimal(b"0"), Some(0));
    assert_eq!(parse_decimal(b"42"), Some(42));
    assert_eq!(parse_decimal(b"+42"), Some(42));
    assert_eq!(parse_decimal(b"-42"), Some(-42));
    assert_eq!(parse_decimal(b"007"), Some(7));
    assert_eq!(parse_decimal(b"-0"), Some(0));
    assert_eq!(parse_decimal(b"9223372036854775807"), Some(i64::MAX));
    assert_eq!(parse_decimal(b"-9223372036854775808"), Some(i64::MIN));
    assert_eq!(parse_decimal(b"000000000000000000000000000000012"), Some(12));
    assert_eq!(parse_decimal(b"9223372036854775808"), None);
    assert_eq!(parse_decimal(b"-9223372036854775809"), None);
    assert_eq!(parse_decimal(b"99999999999999999999999999999999999999999999"), None);
    assert_eq!(parse_decimal(b""), None);
    assert_eq!(parse_decimal(b"-"), None);
    assert_eq!(parse_decimal(b"+"), None);
    assert_eq!(parse_decimal(b"1-"), None);
    assert_eq!(parse_decimal(b"--1"), None);
    assert_eq!(parse_decimal(b"1a"), None);
    assert_eq!(parse_decimal(b" 1"), None);
}

#[test]
fn decimal_numbers_are_written_padded() {
    assert_eq!(format_padded(0, 0), b"0".to_vec());
    assert_eq!(format_padded(7, 3), b"007".to_vec());
    assert_eq!(format_padded(-7, 3), b"-07".to_vec());
    assert_eq!(format_padded(-7, 2), b"-7".to_vec());
    assert_eq!(format_padded(1234, 2), b"1234".to_vec());
    assert_eq!(format_padded(10, 0), b"10".to_vec());
    assert_eq!(format_padded(i64::MAX, 0), b"9223372036854775807".to_vec());
    assert_eq!(format_padded(i64::MIN, 21), b"-09223372036854775808".to_vec());
    for value in [0i64, 1, -1, 9, 10, -10, 99, 100, 12345, -98765, i64::MAX, i64::MIN] {
        for width in [0usize, 1, 2, 5, 25] {
            let text = format_padded(value, width);
            assert_eq!(String::from_utf8(text.clone()).unwrap(), format!("{:01$}", value, width));
            assert_eq!(parse_decimal(&text), Some(value));
        }
    }
}
