use cosh::shell_input_iterator::{ShellInputIterator, ShellInputIteratorExt};
use cosh::shell_parsers::shell_command_parser::ShellCommandParser;
use cosh::shell_structures::shell_command::ShellCommand;

fn parser(input: &[u8]) -> ShellCommandParser {
    ShellCommandParser::new(ShellInputIterator::new(input.to_vec()))
}

fn shape(input: &[u8]) -> (ShellCommand, usize) {
    let mut p = parser(input);
    let result = p.parse();
    (result.unwrap().unwrap(), p.iter.get_current_index())
}

#[test]
fn keyword_with_boundary_is_compound() {
    assert_eq!(shape(b"for "), (ShellCommand::Compound(), 3));
}

#[test]
fn keyword_without_boundary_is_simple() {
    assert_eq!(shape(b"forx"), (ShellCommand::Simple(), 0));
    assert_eq!(shape(b"forward"), (ShellCommand::Simple(), 0));
}

#[test]
fn name_with_parentheses_is_a_function_definition() {
    assert_eq!(shape(b"foo()"), (ShellCommand::FunctionDefinition(), 5));
}

#[test]
fn function_keyword_and_name_is_a_function_definition() {
    assert_eq!(shape(b"function foo"), (ShellCommand::FunctionDefinition(), 12));
}

#[test]
fn every_compound_keyword_is_recognised() {
    for keyword in [&b"for"[..], b"select", b"case", b"if", b"while", b"until"] {
        assert_eq!(shape(keyword), (ShellCommand::Compound(), keyword.len()));
        for stop in b" \t\n&;|()<>" {
            let mut input = keyword.to_vec();
            input.push(*stop);
            input.extend_from_slice(b"x");
            assert_eq!(shape(&input), (ShellCommand::Compound(), keyword.len()));
        }
        let mut longer = keyword.to_vec();
        longer.push(b'_');
        assert_eq!(shape(&longer), (ShellCommand::Simple(), 0));
        let mut p = parser(keyword);
        assert_eq!(p.check_compound_command_keyword(), Ok(Some(keyword.to_vec())));
    }
}

#[test]
fn coproc_needs_a_boundary_too() {
    assert_eq!(shape(b"coproc cat"), (ShellCommand::Coproc(), 6));
    assert_eq!(shape(b"coproc"), (ShellCommand::Coproc(), 6));
    assert_eq!(shape(b"coprocess"), (ShellCommand::Simple(), 0));
    let mut p = parser(b"coproc x");
    assert!(p.check_coproc_command_keyword());
    let mut q = parser(b"coprocx");
    assert!(!q.check_coproc_command_keyword());
    assert_eq!(q.iter.get_current_index(), 0);
}

#[test]
fn function_definition_shapes() {
    assert_eq!(shape(b"function foo()"), (ShellCommand::FunctionDefinition(), 14));
    assert_eq!(shape(b"function foo ( )"), (ShellCommand::FunctionDefinition(), 16));
    assert_eq!(shape(b"function \t\nfoo {"), (ShellCommand::FunctionDefinition(), 14));
    assert_eq!(shape(b"function foo ( x"), (ShellCommand::FunctionDefinition(), 12));
    assert_eq!(shape(b"foo ()"), (ShellCommand::FunctionDefinition(), 6));
    assert_eq!(shape(b"foo\t(\t ) {"), (ShellCommand::FunctionDefinition(), 8));
    assert_eq!(shape(b"a-b.c()"), (ShellCommand::FunctionDefinition(), 7));
    assert_eq!(shape(b"functionfoo()"), (ShellCommand::FunctionDefinition(), 13));
    assert_eq!(shape(b"function()"), (ShellCommand::FunctionDefinition(), 10));
}

#[test]
fn shapes_that_are_simple() {
    for input in [&b""[..], b"foo", b"foo bar", b"foo(", b"foo( x)", b"foo\n()", b"()", b" foo()",
        b"function", b"function ", b"function (", b"echo hi", b"X=5", b"foo)(", b" for"]
    {
        assert_eq!(shape(input), (ShellCommand::Simple(), 0), "{:?}", input);
    }
}

#[test]
fn keyword_comes_before_function_definition() {
    assert_eq!(shape(b"if()"), (ShellCommand::Compound(), 2));
    assert_eq!(shape(b"coproc()"), (ShellCommand::Coproc(), 6));
}

#[test]
fn classifier_steps() {
    let mut p = parser(b"abc def");
    assert!(!p.compare_next_chars(b"abd"));
    assert_eq!(p.iter.get_current_index(), 0);
    assert!(p.compare_next_chars(b"ab"));
    assert_eq!(p.iter.get_current_index(), 2);
    assert!(!p.check_specific_keyword(b"cx"));
    assert!(p.check_specific_keyword(b"c"));
    assert_eq!(p.iter.get_current_index(), 3);
    assert_eq!(p.parse_function_name(), Ok(None));
    p.skip_whitespace();
    assert_eq!(p.iter.get_current_index(), 4);
    assert_eq!(p.parse_function_name(), Ok(Some(b"def".to_vec())));
    assert!(!p.check_function_parentheses());
    assert_eq!(p.iter.get_current_index(), 7);
    let mut q = parser(b" \t( \t)x");
    assert!(q.check_function_parentheses());
    assert_eq!(q.iter.peek(), Some(b'x'));
    let mut r = parser(b" ( x)");
    assert!(!r.check_function_parentheses());
    assert_eq!(r.iter.get_current_index(), 0);
    let mut t = parser(b"name()after");
    assert_eq!(t.check_function_definition(), Ok(Some(b"name".to_vec())));
    assert_eq!(t.iter.get_current_index(), 6);
    let mut u = parser(b"name after");
    assert_eq!(u.check_function_definition(), Ok(None));
    assert_eq!(u.iter.get_current_index(), 0);
}

#[test]
fn function_name_bytes() {
    for byte in b" \t\n\r\x0c&|;><()" {
        assert!(!ShellCommandParser::check_function_name_char(*byte));
    }
    for byte in b"azAZ09_-.{}$'\"=!" {
        assert!(ShellCommandParser::check_function_name_char(*byte));
    }
}

#[test]
fn whitespace_skipping_includes_newlines() {
    let mut p = parser(b" \t\n\r\x0cx");
    p.skip_whitespace();
    assert_eq!(p.iter.get_current_index(), 5);
    p.skip_whitespace();
    assert_eq!(p.iter.get_current_index(), 5);
}
