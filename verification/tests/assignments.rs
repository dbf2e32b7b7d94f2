use cosh::shell_input_iterator::{ShellInputIterator, ShellInputIteratorExt};
use cosh::shell_parser_base::ParseError;
use cosh::shell_parsers::shell_variable_assignment_parser::ShellVariableAssignmentParser;
use cosh::shell_structures::shell_variable_assignment::{ShellVariableAssignment,
    VariableAssignmentType};
use cosh::shell_structures::shell_word::{ShellExpression, ShellWord};

fn parser(input: &[u8]) -> ShellVariableAssignmentParser {
    ShellVariableAssignmentParser::new(ShellInputIterator::new(input.to_vec()))
}

fn literal_word(text: &[u8]) -> ShellWord {
    ShellWord { parts: vec![ShellExpression::Literal(text.to_vec())] }
}

#[test]
fn simple_assignment_holds_one_literal() {
    let mut p = parser(b"X=5");
    let expected = ShellVariableAssignment {
        identifier: b"X".to_vec(),
        value: VariableAssignmentType::Simple(literal_word(b"5")),
    };
    assert_eq!(p.parse(), Ok(Some(expected)));
    assert_eq!(p.iter.get_current_index(), 3);
}

#[test]
fn list_assignment_holds_three_words() {
    let mut p = parser(b"X=(1 2 3)");
    let expected = ShellVariableAssignment {
        identifier: b"X".to_vec(),
        value: VariableAssignmentType::List(vec![
            literal_word(b"1"),
            literal_word(b"2"),
            literal_word(b"3"),
        ]),
    };
    assert_eq!(p.parse(), Ok(Some(expected)));
    assert_eq!(p.iter.get_current_index(), 9);
}

#[test]
fn empty_value_is_a_word_without_parts() {
    let mut p = parser(b"X=");
    let expected = ShellVariableAssignment {
        identifier: b"X".to_vec(),
        value: VariableAssignmentType::Simple(ShellWord { parts: vec![] }),
    };
    assert_eq!(p.parse(), Ok(Some(expected)));
    assert_eq!(p.iter.get_current_index(), 2);
}

#[test]
fn empty_list_and_blanks_inside_a_list() {
    let mut p = parser(b"X=()");
    let expected = ShellVariableAssignment {
        identifier: b"X".to_vec(),
        value: VariableAssignmentType::List(vec![]),
    };
    assert_eq!(p.parse(), Ok(Some(expected)));
    let mut q = parser(b"ab1=( \t a   b\t) rest");
    let expected = ShellVariableAssignment {
        identifier: b"ab1".to_vec(),
        value: VariableAssignmentType::List(vec![literal_word(b"a"), literal_word(b"b")]),
    };
    assert_eq!(q.parse(), Ok(Some(expected)));
    assert_eq!(q.iter.get_current_index(), 15);
    assert_eq!(q.iter.peek(), Some(b' '));
}

#[test]
fn no_name_or_no_equals_is_not_present_and_moves_nothing() {
    for input in [&b"=5"[..], b"5x=1", b"_x=1", b"name", b"name =1", b"a_b=1", b""] {
        let mut p = parser(input);
        assert_eq!(p.parse(), Ok(None));
        assert_eq!(p.iter.get_current_index(), 0);
    }
}

#[test]
fn value_ends_at_a_stop_byte() {
    let mut p = parser(b"X=5;echo");
    let expected = ShellVariableAssignment {
        identifier: b"X".to_vec(),
        value: VariableAssignmentType::Simple(literal_word(b"5")),
    };
    assert_eq!(p.parse(), Ok(Some(expected)));
    assert_eq!(p.iter.peek(), Some(b';'));
}

#[test]
fn unterminated_list_is_incomplete() {
    for input in [&b"X=("[..], b"X=(1 2", b"X=(1 2 ", b"X=(1 'a"] {
        let mut p = parser(input);
        assert_eq!(p.parse(), Err(ParseError::RequiresNextLine));
        assert_eq!(p.iter.get_current_index(), 0);
    }
}

#[test]
fn unterminated_quote_in_value_is_incomplete() {
    let mut p = parser(b"X='abc");
    assert_eq!(p.parse(), Err(ParseError::RequiresNextLine));
    assert_eq!(p.iter.get_current_index(), 0);
}

#[test]
fn stop_byte_in_a_list_is_malformed_at_its_offset() {
    let mut p = parser(b"X=(a (b))");
    assert_eq!(p.parse(), Err(ParseError::IncorrectSyntax(5)));
    assert_eq!(p.iter.get_current_index(), 0);
    let mut q = parser(b"X=(a;b)");
    assert_eq!(q.parse(), Err(ParseError::IncorrectSyntax(4)));
    let mut r = parser(b"X=(a\nb)");
    assert_eq!(r.parse(), Err(ParseError::IncorrectSyntax(4)));
}

#[test]
fn substitution_in_value_is_not_implemented() {
    let mut p = parser(b"X=$(date)");
    assert_eq!(p.parse(), Err(ParseError::NotImplemented));
    assert_eq!(p.iter.get_current_index(), 0);
}

#[test]
fn identifier_stops_at_first_other_byte() {
    let mut p = parser(b"abc123=x");
    assert_eq!(p.parse_identifier(), Ok(Some(b"abc123".to_vec())));
    assert_eq!(p.iter.get_current_index(), 6);
}

#[test]
fn assignment_copies_are_equal() {
    let mut p = parser(b"X=(1 'two' 3)");
    let parsed = p.parse().unwrap().unwrap();
    assert_eq!(parsed.clone(), parsed);
    let mut q = parser(b"X=a\\b");
    let parsed = q.parse().unwrap().unwrap();
    assert_eq!(parsed.clone(), parsed);
}
