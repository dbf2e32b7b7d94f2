//! The entry points for one line of input.
//!
//! Each attempt reads from a copy of the reader, so that the same line can
//! be tried as an assignment first and as a word after that.

use crate::byte_classes::NEWLINE;
use crate::shell_input_iterator::{ShellInputIterator, ShellInputIteratorExt};
use crate::shell_parser_base::{default_rules, get_default_word_parsing_rules, reports,
    ParseResult, ShellParsingRules};
use crate::shell_parsers::shell_variable_assignment_parser::{assignment_at,
    ShellVariableAssignmentParser};
use crate::shell_parsers::shell_word_parser::{word_at, ShellWordParser};
use crate::shell_structures::shell_variable_assignment::ShellVariableAssignment;
use crate::shell_structures::shell_word::ShellWord;
use vstd::prelude::*;

verus! {

/// Appends a further line to input that was found incomplete: a newline,
/// then the line. The whole is then read again from its start.
pub fn join_continuation(input: &mut Vec<u8>, line: &[u8])
    ensures
        final(input)@ == old(input)@ + seq![NEWLINE] + line@,
{
    input.push(NEWLINE);
    let mut i: usize = 0;
    while i < line.len()
        invariant
            i <= line@.len(),
            input@ == old(input)@ + seq![NEWLINE] + line@.subrange(0, i as int),
        decreases line@.len() - i,
    {
        input.push(line[i]);
        assert(input@ =~= old(input)@ + seq![NEWLINE] + line@.subrange(0, i + 1));
        i += 1;
    }
    assert(line@.subrange(0, line@.len() as int) =~= line@);
}

/// Tries the grammars of a line on a reader, which it does not move.
pub struct ShellInputParser {
    pub iter: ShellInputIterator,
}

impl ShellInputParser {
    pub fn new(iter: ShellInputIterator) -> (parser: Self)
        ensures
            parser.iter == iter,
    {
        Self { iter }
    }

    /// The word at the reader's position, by the default rules of an
    /// interactive session.
    pub fn try_parse_word(&mut self) -> (result: ParseResult<ShellWord>)
        ensures
            final(self).iter.input() == old(self).iter.input(),
            final(self).iter.position() == old(self).iter.position(),
            reports(
                result,
                word_at(old(self).iter.input(), old(self).iter.position(), default_rules(true)),
            ),
    {
        let d_rules = ShellParsingRules { is_interactive: true };
        let w_rules = get_default_word_parsing_rules(&d_rules);
        let mut word_parser = ShellWordParser::new(self.iter.clone(), &w_rules);
        word_parser.parse()
    }

    /// The assignment at the reader's position.
    pub fn try_parse_assignment(&mut self) -> (result: ParseResult<ShellVariableAssignment>)
        ensures
            final(self).iter.input() == old(self).iter.input(),
            final(self).iter.position() == old(self).iter.position(),
            reports(result, assignment_at(old(self).iter.input(), old(self).iter.position())),
    {
        let mut parser = ShellVariableAssignmentParser::new(self.iter.clone());
        parser.parse()
    }
}

} // verus!
