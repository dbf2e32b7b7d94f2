use cosh::byte_classes::{contains_byte, is_alphabetic, is_alphanumeric, is_blank, is_digit,
    is_universal_stop, is_whitespace};
use cosh::shell_input_iterator::{ShellInputIterator, ShellInputIteratorExt};
use cosh::shell_input_parser::{join_continuation, ShellInputParser};
use cosh::shell_parser_base::ParseError;
use cosh::shell_structures::shell_variable_assignment::{ShellVariableAssignment,
    VariableAssignmentType};
use cosh::shell_structures::shell_word::{ShellExpression, ShellWord};

fn reader(input: &[u8]) -> ShellInputIterator {
    ShellInputIterator::new(input.to_vec())
}

#[test]
fn peek_does_not_consume() {
    let it = reader(b"ab");
    assert_eq!(it.peek(), Some(b'a'));
    assert_eq!(it.peek(), Some(b'a'));
    assert_eq!(it.get_current_index(), 0);
    assert_eq!(reader(b"").peek(), None);
}

#[test]
fn next_consumes_and_counts() {
    let mut it = reader(b"ab");
    assert_eq!(it.next(), Some(b'a'));
    assert_eq!(it.get_current_index(), 1);
    assert_eq!(it.next(), Some(b'b'));
    assert_eq!(it.get_current_index(), 2);
    assert_eq!(it.next(), None);
    assert_eq!(it.get_current_index(), 2);
    assert_eq!(it.input_len(), 2);
}

#[test]
fn next_if_consumes_only_what_is_accepted() {
    let mut it = reader(b"a1");
    assert_eq!(it.next_if(|b: &u8| b.is_ascii_digit()), None);
    assert_eq!(it.get_current_index(), 0);
    assert_eq!(it.next_if(|b: &u8| b.is_ascii_alphabetic()), Some(b'a'));
    assert_eq!(it.get_current_index(), 1);
    assert_eq!(it.next_if(|b: &u8| b.is_ascii_digit()), Some(b'1'));
    assert_eq!(it.next_if(|_: &u8| true), None);
    assert_eq!(it.get_current_index(), 2);
}

#[test]
fn try_consume_restores_on_mismatch() {
    let mut it = reader(b"abcd");
    assert!(!it.try_consume_string(b"abx", false));
    assert_eq!(it.get_current_index(), 0);
    assert!(!it.try_consume_string(b"abcde", false));
    assert_eq!(it.get_current_index(), 0);
    assert!(it.try_consume_string(b"abc", false));
    assert_eq!(it.get_current_index(), 3);
    assert!(it.try_consume_string(b"", false));
    assert_eq!(it.get_current_index(), 3);
    assert!(it.try_consume_string(b"d", true));
    assert_eq!(it.get_current_index(), 4);
    assert!(it.try_consume_string(b"", true));
}

#[test]
fn try_consume_with_word_boundary() {
    let mut it = reader(b"forx");
    assert!(!it.try_consume_string(b"for", true));
    assert_eq!(it.get_current_index(), 0);
    assert!(it.try_consume_string(b"for", false));
    for stop in b" \t\n&;|()<>" {
        let mut it = reader(&[b'i', b'f', *stop]);
        assert!(it.try_consume_string(b"if", true));
        assert_eq!(it.get_current_index(), 2);
    }
    let mut it = reader(b"if,");
    assert!(!it.try_consume_string(b"if", true));
    assert_eq!(it.get_current_index(), 0);
}

#[test]
fn word_end_is_stop_byte_or_end_of_input() {
    assert!(reader(b"").check_word_end(b""));
    for stop in b" \t\n&;|()<>" {
        assert!(reader(&[*stop]).check_word_end(b""));
    }
    assert!(!reader(b"a").check_word_end(b""));
    assert!(!reader(b",").check_word_end(b""));
    assert!(reader(b",").check_word_end(b",}"));
    assert!(reader(b"}").check_word_end(b",}"));
    assert!(!reader(b"}").check_word_end(b","));
}

#[test]
fn next_in_word_stops_at_the_word_end() {
    let mut it = reader(b"a,b c");
    assert_eq!(it.next_in_word(b""), Some(b'a'));
    assert_eq!(it.next_in_word(b","), None);
    assert_eq!(it.get_current_index(), 1);
    assert_eq!(it.next_in_word(b""), Some(b','));
    assert_eq!(it.next_in_word(b""), Some(b'b'));
    assert_eq!(it.next_in_word(b""), None);
    assert_eq!(it.get_current_index(), 3);
}

#[test]
fn skip_whitespace_leaves_newlines() {
    let mut it = reader(b" \t \nx");
    it.skip_whitespace();
    assert_eq!(it.get_current_index(), 3);
    assert_eq!(it.peek(), Some(b'\n'));
    it.skip_whitespace();
    assert_eq!(it.get_current_index(), 3);
    let mut end = reader(b"  ");
    end.skip_whitespace();
    assert_eq!(end.get_current_index(), 2);
}

#[test]
fn checkpoint_and_restore() {
    let mut it = reader(b"abc");
    it.next();
    let mark = it.checkpoint();
    it.next();
    it.next();
    assert_eq!(it.get_current_index(), 3);
    it.restore(mark);
    assert_eq!(it.get_current_index(), 1);
    assert_eq!(it.peek(), Some(b'b'));
    let mut long = reader(b"abcdef");
    while long.next().is_some() {}
    let far = long.checkpoint();
    it.restore(far);
    assert_eq!(it.get_current_index(), 1);
}

#[test]
fn clone_reads_on_its_own() {
    let mut it = reader(b"abc");
    it.next();
    let mut copy = it.clone();
    assert_eq!(copy.get_current_index(), 1);
    assert_eq!(copy.next(), Some(b'b'));
    assert_eq!(it.get_current_index(), 1);
    assert_eq!(it.next(), Some(b'b'));
}

#[test]
fn byte_classes() {
    for b in 0u8..=255 {
        assert_eq!(is_digit(b), b.is_ascii_digit());
        assert_eq!(is_alphabetic(b), b.is_ascii_alphabetic());
        assert_eq!(is_alphanumeric(b), b.is_ascii_alphanumeric());
        assert_eq!(is_whitespace(b), b.is_ascii_whitespace());
        assert_eq!(is_blank(b), b == b' ' || b == b'\t');
        assert_eq!(is_universal_stop(b), b" \t\n&;|()<>".contains(&b));
        assert_eq!(contains_byte(b",}", b), b == b',' || b == b'}');
    }
}

#[test]
fn line_parser_does_not_move_its_reader() {
    let mut p = ShellInputParser::new(reader(b"X=5 y"));
    let expected = ShellVariableAssignment {
        identifier: b"X".to_vec(),
        value: VariableAssignmentType::Simple(ShellWord {
            parts: vec![ShellExpression::Literal(b"5".to_vec())],
        }),
    };
    assert_eq!(p.try_parse_assignment(), Ok(Some(expected)));
    assert_eq!(p.iter.get_current_index(), 0);
    let word = ShellWord { parts: vec![ShellExpression::Literal(b"X=5".to_vec())] };
    assert_eq!(p.try_parse_word(), Ok(Some(word)));
    assert_eq!(p.iter.get_current_index(), 0);
}

#[test]
fn continuation_is_joined_by_a_newline() {
    let mut input = b"X='ab".to_vec();
    let mut p = ShellInputParser::new(reader(&input));
    assert_eq!(p.try_parse_assignment(), Err(ParseError::RequiresNextLine));
    join_continuation(&mut input, b"cd'");
    assert_eq!(input, b"X='ab\ncd'".to_vec());
    let mut q = ShellInputParser::new(reader(&input));
    match q.try_parse_assignment() {
        Ok(Some(assignment)) => match assignment.value {
            VariableAssignmentType::Simple(word) => assert_eq!(word.parts.len(), 1),
            other => panic!("{:?}", other),
        },
        other => panic!("{:?}", other),
    }
    let mut empty = Vec::new();
    join_continuation(&mut empty, b"");
    assert_eq!(empty, b"\n".to_vec());
}

#[test]
fn trailing_backslash_then_continuation() {
    let mut input = b"ab\\".to_vec();
    let mut p = ShellInputParser::new(reader(&input));
    assert_eq!(p.try_parse_word(), Err(ParseError::RequiresNextLine));
    join_continuation(&mut input, b"cd");
    let mut q = ShellInputParser::new(reader(&input));
    let word = ShellWord { parts: vec![ShellExpression::Literal(b"abcd".to_vec())] };
    assert_eq!(q.try_parse_word(), Ok(Some(word)));
}
