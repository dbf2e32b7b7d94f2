//! Variable assignments: `name=word` and `name=(word word ...)`.
//!
//! A name is a letter followed by letters and digits. An underscore is not
//! part of a name here.

use crate::byte_classes::{is_alphabetic, is_alphanumeric, CLOSE_PAREN, EQUALS, OPEN_PAREN};
use crate::shell_input_iterator::{blanks_end, lemma_blanks_end, ShellInputIterator,
    ShellInputIteratorExt};
use crate::shell_parser_base::{default_rules, failure_of, get_default_word_parsing_rules,
    position_after, reports, ParseError, ParseResult, Parsed, ShellParsingRules,
    ShellWordParsingRulesView};
use crate::shell_parsers::shell_word_parser::{lemma_list_resumed_word, lemma_word_at,
    list_resumed, with_word, word_at, ShellWordParser};
use crate::shell_structures::shell_variable_assignment::{words_view, ShellVariableAssignment,
    ShellVariableAssignmentView, VariableAssignmentType, VariableAssignmentTypeView};
use crate::shell_structures::shell_word::{ShellWord, ShellWordView};
use vstd::prelude::*;

verus! {

/// The first position at or after `pos` that holds neither a letter nor a
/// digit.
pub open spec fn identifier_end(s: Seq<u8>, pos: int) -> int
    decreases s.len() - pos,
{
    if 0 <= pos < s.len() && is_alphanumeric(s[pos]) {
        identifier_end(s, pos + 1)
    } else {
        pos
    }
}

/// `identifier_end` stays within the input.
pub proof fn lemma_identifier_end(s: Seq<u8>, pos: int)
    requires
        0 <= pos <= s.len(),
    ensures
        pos <= identifier_end(s, pos) <= s.len(),
        forall|k: int| pos <= k < identifier_end(s, pos) ==> is_alphanumeric(#[trigger] s[k]),
    decreases s.len() - pos,
{
    if pos < s.len() && is_alphanumeric(s[pos]) {
        lemma_identifier_end(s, pos + 1);
    }
}

/// The name at `pos`: a letter and the letters and digits that follow it.
pub open spec fn identifier_at(s: Seq<u8>, pos: int) -> Parsed<Seq<u8>> {
    if 0 <= pos < s.len() && is_alphabetic(s[pos]) {
        Parsed::Matched {
            value: s.subrange(pos, identifier_end(s, pos)),
            rest: identifier_end(s, pos),
        }
    } else {
        Parsed::NotPresent
    }
}

/// A name that is matched is not empty, begins with a letter and holds
/// letters and digits only.
pub proof fn lemma_identifier_at(s: Seq<u8>, pos: int)
    ensures
        identifier_at(s, pos) matches Parsed::Matched { value, rest } ==> {
            &&& pos < rest <= s.len()
            &&& value.len() == rest - pos
            &&& is_alphabetic(value[0])
            &&& forall|i: int| 0 <= i < value.len() ==> is_alphanumeric(#[trigger] value[i])
        },
{
    if 0 <= pos < s.len() && is_alphabetic(s[pos]) {
        lemma_identifier_end(s, pos);
        lemma_identifier_end(s, pos + 1);
    }
}

/// The rules by which the words of a value are read.
pub open spec fn value_rules() -> ShellWordParsingRulesView {
    default_rules(true)
}

/// The words of a list from `pos`, behind the `(`, up to the `)`. Blanks
/// separate the words. The list is incomplete if the input ends before the
/// `)`, and malformed at a byte that can neither begin a word nor end the
/// list.
pub open spec fn word_list_at(s: Seq<u8>, pos: int) -> Parsed<Seq<ShellWordView>>
    decreases s.len() - pos,
{
    let at = blanks_end(s, pos);
    if pos < 0 || at < pos || at >= s.len() {
        Parsed::Incomplete
    } else if s[at] == CLOSE_PAREN {
        Parsed::Matched { value: Seq::empty(), rest: at + 1 }
    } else {
        match word_at(s, at, value_rules()) {
            Parsed::Matched { value, rest } => if at < rest <= s.len() {
                with_word(value, word_list_at(s, rest))
            } else {
                Parsed::NotPresent
            },
            Parsed::NotPresent => Parsed::Malformed { offset: at },
            other => failure_of(other),
        }
    }
}

/// The value at `pos`, behind the `=`: a list if a `(` stands there, else
/// one word, which has no parts if no word stands there.
pub open spec fn assignment_value_at(s: Seq<u8>, pos: int) -> Parsed<VariableAssignmentTypeView> {
    if 0 <= pos < s.len() && s[pos] == OPEN_PAREN {
        match word_list_at(s, pos + 1) {
            Parsed::Matched { value, rest } => Parsed::Matched {
                value: VariableAssignmentTypeView::List(value),
                rest,
            },
            other => failure_of(other),
        }
    } else {
        match word_at(s, pos, value_rules()) {
            Parsed::Matched { value, rest } => Parsed::Matched {
                value: VariableAssignmentTypeView::Simple(value),
                rest,
            },
            Parsed::NotPresent => Parsed::Matched {
                value: VariableAssignmentTypeView::Simple(Seq::empty()),
                rest: pos,
            },
            other => failure_of(other),
        }
    }
}

/// The assignment at `pos`: a name, `=` and a value. Not present if there
/// is no name or no `=` behind it.
pub open spec fn assignment_at(s: Seq<u8>, pos: int) -> Parsed<ShellVariableAssignmentView> {
    match identifier_at(s, pos) {
        Parsed::Matched { value: identifier, rest: after_name } => if after_name < s.len()
            && s[after_name] == EQUALS {
            match assignment_value_at(s, after_name + 1) {
                Parsed::Matched { value, rest } => Parsed::Matched {
                    value: ShellVariableAssignmentView { identifier, value },
                    rest,
                },
                other => failure_of(other),
            }
        } else {
            Parsed::NotPresent
        },
        _ => Parsed::NotPresent,
    }
}

/// Whether `result` is what a parser of lists returns for `expected`.
pub open spec fn reports_words(
    result: ParseResult<Vec<ShellWord>>,
    expected: Parsed<Seq<ShellWordView>>,
) -> bool {
    match expected {
        Parsed::Matched { value, rest } => result matches Ok(Some(words)) && words_view(words@)
            == value,
        Parsed::NotPresent => result matches Ok(None),
        Parsed::Incomplete => result matches Err(ParseError::RequiresNextLine),
        Parsed::Malformed { offset } => result matches Err(ParseError::IncorrectSyntax(at)) && at
            == offset,
        Parsed::NotImplemented => result matches Err(ParseError::NotImplemented),
    }
}

/// Reads a variable assignment.
pub struct ShellVariableAssignmentParser {
    pub iter: ShellInputIterator,
}

impl ShellVariableAssignmentParser {
    pub fn new(iter: ShellInputIterator) -> (parser: Self)
        ensures
            parser.iter == iter,
    {
        Self { iter }
    }

    /// Reads a name.
    pub fn parse_identifier(&mut self) -> (result: ParseResult<Vec<u8>>)
        ensures
            final(self).iter.input() == old(self).iter.input(),
            reports(result, identifier_at(old(self).iter.input(), old(self).iter.position())),
            final(self).iter.position() == position_after(
                identifier_at(old(self).iter.input(), old(self).iter.position()),
                old(self).iter.position(),
            ),
    {
        let ghost s = self.iter.input();
        let ghost from = self.iter.position();
        match self.iter.peek() {
            Some(byte) => {
                if !is_alphabetic(byte) {
                    return Ok(None);
                }
            },
            None => { return Ok(None); },
        }
        let mut identifier: Vec<u8> = Vec::new();
        assert(identifier@ =~= s.subrange(from, from));
        loop
            invariant
                self.iter.input() == s,
                s == old(self).iter.input(),
                from == old(self).iter.position(),
                0 <= from <= self.iter.position() <= s.len(),
                identifier@ == s.subrange(from, self.iter.position()),
                identifier_end(s, self.iter.position()) == identifier_end(s, from),
            ensures
                self.iter.position() == identifier_end(s, from),
            decreases s.len() - self.iter.position(),
        {
            let ghost at = self.iter.position();
            match self.iter.next_if(accepts_alphanumeric) {
                Some(byte) => {
                    identifier.push(byte);
                    assert(identifier@ =~= s.subrange(from, at + 1));
                },
                None => {
                    break ;
                },
            }
        }
        Ok(Some(identifier))
    }

    /// Reads one word of a value.
    pub fn parse_next_word(&mut self) -> (result: ParseResult<ShellWord>)
        ensures
            final(self).iter.input() == old(self).iter.input(),
            reports(
                result,
                word_at(old(self).iter.input(), old(self).iter.position(), value_rules()),
            ),
            final(self).iter.position() == position_after(
                word_at(old(self).iter.input(), old(self).iter.position(), value_rules()),
                old(self).iter.position(),
            ),
    {
        let base = ShellParsingRules { is_interactive: true };
        let rules = get_default_word_parsing_rules(&base);
        ShellWordParser::parse_in(&mut self.iter, &rules)
    }

    /// Reads the words of a list, whose `(` has been consumed, and the `)`.
    pub fn parse_word_list(&mut self) -> (result: ParseResult<Vec<ShellWord>>)
        ensures
            final(self).iter.input() == old(self).iter.input(),
            reports_words(
                result,
                word_list_at(old(self).iter.input(), old(self).iter.position()),
            ),
            final(self).iter.position() == position_after(
                word_list_at(old(self).iter.input(), old(self).iter.position()),
                old(self).iter.position(),
            ),
    {
        let start = self.iter.checkpoint();
        let ghost s = self.iter.input();
        let ghost from = self.iter.position();
        let mut words: Vec<ShellWord> = Vec::new();
        proof {
            if let Parsed::Matched { value, rest } = word_list_at(s, from) {
                assert(words_view(words@) + value =~= value);
            }
        }
        loop
            invariant
                self.iter.input() == s,
                s == old(self).iter.input(),
                from == old(self).iter.position(),
                start.position() == from,
                0 <= from <= self.iter.position() <= s.len(),
                word_list_at(s, from) == list_resumed(
                    words_view(words@),
                    word_list_at(s, self.iter.position()),
                ),
            decreases s.len() - self.iter.position(),
        {
            let ghost built = words_view(words@);
            proof {
                lemma_blanks_end(s, self.iter.position());
            }
            self.iter.skip_whitespace();
            let ghost at = self.iter.position();
            proof {
                lemma_blanks_end(s, at);
                lemma_word_at(s, at, value_rules());
            }
            match self.iter.peek() {
                None => {
                    self.iter.restore(start);
                    return Err(ParseError::RequiresNextLine);
                },
                Some(byte) => {
                    if byte == CLOSE_PAREN {
                        self.iter.next();
                        assert(built + Seq::<ShellWordView>::empty() =~= built);
                        return Ok(Some(words));
                    }
                },
            }
            match self.parse_next_word() {
                Ok(Some(word)) => {
                    proof {
                        lemma_list_resumed_word(
                            built,
                            word@,
                            word_list_at(s, self.iter.position()),
                        );
                    }
                    words.push(word);
                    assert(words_view(words@) =~= built.push(word@));
                },
                Ok(None) => {
                    let offset = self.iter.get_current_index();
                    self.iter.restore(start);
                    return Err(ParseError::IncorrectSyntax(offset));
                },
                Err(error) => {
                    self.iter.restore(start);
                    return Err(error);
                },
            }
        }
    }

    /// Reads an assignment.
    pub fn parse(&mut self) -> (result: ParseResult<ShellVariableAssignment>)
        ensures
            final(self).iter.input() == old(self).iter.input(),
            reports(result, assignment_at(old(self).iter.input(), old(self).iter.position())),
            final(self).iter.position() == position_after(
                assignment_at(old(self).iter.input(), old(self).iter.position()),
                old(self).iter.position(),
            ),
    {
        let start = self.iter.checkpoint();
        let ghost s = self.iter.input();
        let ghost from = self.iter.position();
        proof {
            if from < s.len() {
                lemma_identifier_end(s, from);
            }
        }
        let identifier = match self.parse_identifier() {
            Ok(Some(identifier)) => identifier,
            Ok(None) => { return Ok(None); },
            Err(error) => { return Err(error); },
        };
        match self.iter.peek() {
            Some(byte) => {
                if byte != EQUALS {
                    self.iter.restore(start);
                    return Ok(None);
                }
            },
            None => {
                self.iter.restore(start);
                return Ok(None);
            },
        }
        self.iter.next();
        let is_list: bool = match self.iter.peek() {
            Some(byte) => byte == OPEN_PAREN,
            None => false,
        };
        let value = if is_list {
            self.iter.next();
            match self.parse_word_list() {
                Ok(Some(words)) => VariableAssignmentType::List(words),
                Ok(None) => {
                    self.iter.restore(start);
                    return Ok(None);
                },
                Err(error) => {
                    self.iter.restore(start);
                    return Err(error);
                },
            }
        } else {
            match self.parse_next_word() {
                Ok(Some(word)) => VariableAssignmentType::Simple(word),
                Ok(None) => {
                    let word = ShellWord::default();
                    VariableAssignmentType::Simple(word)
                },
                Err(error) => {
                    self.iter.restore(start);
                    return Err(error);
                },
            }
        };
        Ok(Some(ShellVariableAssignment { identifier, value }))
    }
}

/// Whether `byte` is a letter or a digit.
pub fn accepts_alphanumeric(byte: &u8) -> (accepted: bool)
    ensures
        accepted == is_alphanumeric(*byte),
{
    is_alphanumeric(*byte)
}

} // verus!
