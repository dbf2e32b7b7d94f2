//! The shape of a command, as its first bytes decide it.
//!
//! Four shapes are told apart, in this order: a compound command, which
//! begins with one of six keywords; a coprocess, which begins with
//! `coproc`; the definition of a function; and, where none of these is
//! found, a simple command.

use crate::byte_classes::{is_whitespace, AMPERSAND, CLOSE_PAREN, GREATER_THAN, LESS_THAN,
    OPEN_PAREN, PIPE, SEMICOLON};
use crate::shell_input_iterator::{blanks_end, literal_at, word_ends_at, ShellInputIterator,
    ShellInputIteratorExt};
use crate::shell_parser_base::{position_after, reports, ParseResult, Parsed};
use crate::shell_structures::shell_command::ShellCommand;
use vstd::prelude::*;

verus! {

/// `for`
pub const KEYWORD_FOR: [u8; 3] = [0x66, 0x6F, 0x72];

/// `select`
pub const KEYWORD_SELECT: [u8; 6] = [0x73, 0x65, 0x6C, 0x65, 0x63, 0x74];

/// `case`
pub const KEYWORD_CASE: [u8; 4] = [0x63, 0x61, 0x73, 0x65];

/// `if`
pub const KEYWORD_IF: [u8; 2] = [0x69, 0x66];

/// `while`
pub const KEYWORD_WHILE: [u8; 5] = [0x77, 0x68, 0x69, 0x6C, 0x65];

/// `until`
pub const KEYWORD_UNTIL: [u8; 5] = [0x75, 0x6E, 0x74, 0x69, 0x6C];

/// `coproc`
pub const KEYWORD_COPROC: [u8; 6] = [0x63, 0x6F, 0x70, 0x72, 0x6F, 0x63];

/// `function`
pub const KEYWORD_FUNCTION: [u8; 8] = [0x66, 0x75, 0x6E, 0x63, 0x74, 0x69, 0x6F, 0x6E];

/// Whether `keyword` stands at `pos` as a word of its own: a word ends
/// right behind it.
pub open spec fn keyword_at(s: Seq<u8>, pos: int, keyword: Seq<u8>) -> bool {
    literal_at(s, pos, keyword) && word_ends_at(s, pos + keyword.len(), Seq::<u8>::empty())
}

/// `keyword` as a word of its own at `pos`, or else what `otherwise` is.
pub open spec fn keyword_or(s: Seq<u8>, pos: int, keyword: Seq<u8>, otherwise: Parsed<Seq<u8>>) -> Parsed<
    Seq<u8>,
> {
    if keyword_at(s, pos, keyword) {
        Parsed::Matched { value: keyword, rest: pos + keyword.len() }
    } else {
        otherwise
    }
}

/// The keyword of a compound command at `pos`: `for`, `select`, `case`,
/// `if`, `while` or `until`, as a word of its own.
pub open spec fn compound_keyword_at(s: Seq<u8>, pos: int) -> Parsed<Seq<u8>> {
    keyword_or(
        s,
        pos,
        KEYWORD_FOR@,
        keyword_or(
            s,
            pos,
            KEYWORD_SELECT@,
            keyword_or(
                s,
                pos,
                KEYWORD_CASE@,
                keyword_or(
                    s,
                    pos,
                    KEYWORD_IF@,
                    keyword_or(
                        s,
                        pos,
                        KEYWORD_WHILE@,
                        keyword_or(s, pos, KEYWORD_UNTIL@, Parsed::NotPresent),
                    ),
                ),
            ),
        ),
    )
}

/// Whether `byte` can be part of the name of a function: it is neither
/// whitespace nor one of `&`, `|`, `;`, `>`, `<`, `(` and `)`.
pub open spec fn spec_check_function_name_char(byte: u8) -> bool {
    !is_whitespace(byte) && byte != AMPERSAND && byte != PIPE && byte != SEMICOLON && byte
        != GREATER_THAN && byte != LESS_THAN && byte != OPEN_PAREN && byte != CLOSE_PAREN
}

/// The first position at or after `pos` that holds no byte of a name.
pub open spec fn function_name_end(s: Seq<u8>, pos: int) -> int
    decreases s.len() - pos,
{
    if 0 <= pos < s.len() && spec_check_function_name_char(s[pos]) {
        function_name_end(s, pos + 1)
    } else {
        pos
    }
}

/// `function_name_end` stays within the input.
pub proof fn lemma_function_name_end(s: Seq<u8>, pos: int)
    requires
        0 <= pos <= s.len(),
    ensures
        pos <= function_name_end(s, pos) <= s.len(),
    decreases s.len() - pos,
{
    if pos < s.len() && spec_check_function_name_char(s[pos]) {
        lemma_function_name_end(s, pos + 1);
    }
}

/// The first position at or after `pos` that holds no whitespace.
pub open spec fn whitespace_end(s: Seq<u8>, pos: int) -> int
    decreases s.len() - pos,
{
    if 0 <= pos < s.len() && is_whitespace(s[pos]) {
        whitespace_end(s, pos + 1)
    } else {
        pos
    }
}

/// `whitespace_end` stays within the input.
pub proof fn lemma_whitespace_end(s: Seq<u8>, pos: int)
    requires
        0 <= pos <= s.len(),
    ensures
        pos <= whitespace_end(s, pos) <= s.len(),
    decreases s.len() - pos,
{
    if pos < s.len() && is_whitespace(s[pos]) {
        lemma_whitespace_end(s, pos + 1);
    }
}

/// The name of a function at `pos`: the bytes of a name that stand there,
/// if there is at least one.
pub open spec fn function_name_at(s: Seq<u8>, pos: int) -> Parsed<Seq<u8>> {
    if function_name_end(s, pos) > pos {
        Parsed::Matched {
            value: s.subrange(pos, function_name_end(s, pos)),
            rest: function_name_end(s, pos),
        }
    } else {
        Parsed::NotPresent
    }
}

/// `(` and `)` at `pos`, with or without blanks in front of each.
pub open spec fn parentheses_at(s: Seq<u8>, pos: int) -> Parsed<()> {
    let open = blanks_end(s, pos);
    if 0 <= open < s.len() && s[open] == OPEN_PAREN {
        let close = blanks_end(s, open + 1);
        if 0 <= close < s.len() && s[close] == CLOSE_PAREN {
            Parsed::Matched { value: (), rest: close + 1 }
        } else {
            Parsed::NotPresent
        }
    } else {
        Parsed::NotPresent
    }
}

/// The definition that begins with the keyword `function` at `pos`: the
/// keyword, whitespace, a name and, if they follow, the parentheses. The
/// value is the name.
pub open spec fn keyword_definition_at(s: Seq<u8>, pos: int) -> Parsed<Seq<u8>> {
    let behind = pos + KEYWORD_FUNCTION@.len();
    let name_from = whitespace_end(s, behind);
    if literal_at(s, pos, KEYWORD_FUNCTION@) && name_from > behind {
        match function_name_at(s, name_from) {
            Parsed::Matched { value, rest } => match parentheses_at(s, rest) {
                Parsed::Matched { value: unit, rest: end } => Parsed::Matched { value, rest: end },
                _ => Parsed::Matched { value, rest },
            },
            _ => Parsed::NotPresent,
        }
    } else {
        Parsed::NotPresent
    }
}

/// The definition without keyword at `pos`: a name and the parentheses.
/// The value is the name.
pub open spec fn plain_definition_at(s: Seq<u8>, pos: int) -> Parsed<Seq<u8>> {
    match function_name_at(s, pos) {
        Parsed::Matched { value, rest } => match parentheses_at(s, rest) {
            Parsed::Matched { value: unit, rest: end } => Parsed::Matched { value, rest: end },
            _ => Parsed::NotPresent,
        },
        _ => Parsed::NotPresent,
    }
}

/// The definition of a function at `pos`, in the form with the keyword or,
/// failing that, in the form without.
pub open spec fn function_definition_at(s: Seq<u8>, pos: int) -> Parsed<Seq<u8>> {
    match keyword_definition_at(s, pos) {
        Parsed::Matched { value, rest } => Parsed::Matched { value, rest },
        _ => plain_definition_at(s, pos),
    }
}

/// The shape of the command at `pos`. The reader ends behind what decided
/// the shape: the keyword or the head of the definition; for a simple
/// command it does not move.
pub open spec fn command_at(s: Seq<u8>, pos: int) -> Parsed<ShellCommand> {
    match compound_keyword_at(s, pos) {
        Parsed::Matched { value, rest } => Parsed::Matched { value: ShellCommand::Compound(), rest },
        _ => if keyword_at(s, pos, KEYWORD_COPROC@) {
            Parsed::Matched { value: ShellCommand::Coproc(), rest: pos + KEYWORD_COPROC@.len() }
        } else {
            match function_definition_at(s, pos) {
                Parsed::Matched { value, rest } => Parsed::Matched {
                    value: ShellCommand::FunctionDefinition(),
                    rest,
                },
                _ => Parsed::Matched { value: ShellCommand::Simple(), rest: pos },
            }
        },
    }
}

/// Tells the shape of a command.
pub struct ShellCommandParser {
    pub iter: ShellInputIterator,
}

impl ShellCommandParser {
    pub fn new(iter: ShellInputIterator) -> (parser: Self)
        ensures
            parser.iter == iter,
    {
        Self { iter }
    }

    /// Consumes `to_compare` if it stands at the reader's position.
    pub fn compare_next_chars(&mut self, to_compare: &[u8]) -> (found: bool)
        ensures
            final(self).iter.input() == old(self).iter.input(),
            found == literal_at(old(self).iter.input(), old(self).iter.position(), to_compare@),
            final(self).iter.position() == old(self).iter.position() + (if found {
                to_compare@.len() as int
            } else {
                0
            }),
    {
        self.iter.try_consume_string(to_compare, false)
    }

    /// Consumes `keyword` if it stands at the reader's position as a word of
    /// its own.
    pub fn check_specific_keyword(&mut self, keyword: &[u8]) -> (found: bool)
        ensures
            final(self).iter.input() == old(self).iter.input(),
            found == keyword_at(old(self).iter.input(), old(self).iter.position(), keyword@),
            final(self).iter.position() == old(self).iter.position() + (if found {
                keyword@.len() as int
            } else {
                0
            }),
    {
        self.iter.try_consume_string(keyword, true)
    }

    /// Consumes `keyword` if it stands here, and returns a copy of it.
    pub fn take_keyword(&mut self, keyword: &[u8]) -> (found: Option<Vec<u8>>)
        ensures
            final(self).iter.input() == old(self).iter.input(),
            found is Some == keyword_at(
                old(self).iter.input(),
                old(self).iter.position(),
                keyword@,
            ),
            found matches Some(copy) ==> copy@ == keyword@,
            final(self).iter.position() == old(self).iter.position() + (if found is Some {
                keyword@.len() as int
            } else {
                0
            }),
    {
        if self.check_specific_keyword(keyword) {
            let mut copy: Vec<u8> = Vec::new();
            let mut i: usize = 0;
            while i < keyword.len()
                invariant
                    i <= keyword@.len(),
                    copy@ == keyword@.subrange(0, i as int),
                decreases keyword@.len() - i,
            {
                copy.push(keyword[i]);
                assert(copy@ =~= keyword@.subrange(0, i + 1));
                i += 1;
            }
            assert(keyword@.subrange(0, keyword@.len() as int) =~= keyword@);
            Some(copy)
        } else {
            None
        }
    }

    /// Consumes the keyword of a compound command and returns it.
    pub fn check_compound_command_keyword(&mut self) -> (result: ParseResult<Vec<u8>>)
        ensures
            final(self).iter.input() == old(self).iter.input(),
            reports(
                result,
                compound_keyword_at(old(self).iter.input(), old(self).iter.position()),
            ),
            final(self).iter.position() == position_after(
                compound_keyword_at(old(self).iter.input(), old(self).iter.position()),
                old(self).iter.position(),
            ),
    {
        if let Some(keyword) = self.take_keyword(KEYWORD_FOR.as_slice()) {
            return Ok(Some(keyword));
        }
        if let Some(keyword) = self.take_keyword(KEYWORD_SELECT.as_slice()) {
            return Ok(Some(keyword));
        }
        if let Some(keyword) = self.take_keyword(KEYWORD_CASE.as_slice()) {
            return Ok(Some(keyword));
        }
        if let Some(keyword) = self.take_keyword(KEYWORD_IF.as_slice()) {
            return Ok(Some(keyword));
        }
        if let Some(keyword) = self.take_keyword(KEYWORD_WHILE.as_slice()) {
            return Ok(Some(keyword));
        }
        if let Some(keyword) = self.take_keyword(KEYWORD_UNTIL.as_slice()) {
            return Ok(Some(keyword));
        }
        Ok(None)
    }

    /// Consumes `coproc` if it stands here as a word of its own.
    pub fn check_coproc_command_keyword(&mut self) -> (found: bool)
        ensures
            final(self).iter.input() == old(self).iter.input(),
            found == keyword_at(
                old(self).iter.input(),
                old(self).iter.position(),
                KEYWORD_COPROC@,
            ),
            final(self).iter.position() == old(self).iter.position() + (if found {
                KEYWORD_COPROC@.len() as int
            } else {
                0
            }),
    {
        self.check_specific_keyword(KEYWORD_COPROC.as_slice())
    }

    /// Whether `c` can be part of the name of a function.
    pub fn check_function_name_char(c: u8) -> (allowed: bool)
        ensures
            allowed == spec_check_function_name_char(c),
    {
        if is_whitespace(c) {
            return false;
        }
        if c == AMPERSAND || c == PIPE || c == SEMICOLON || c == GREATER_THAN || c == LESS_THAN
            || c == OPEN_PAREN || c == CLOSE_PAREN {
            return false;
        }
        true
    }

    /// Reads the name of a function.
    pub fn parse_function_name(&mut self) -> (result: ParseResult<Vec<u8>>)
        ensures
            final(self).iter.input() == old(self).iter.input(),
            reports(result, function_name_at(old(self).iter.input(), old(self).iter.position())),
            final(self).iter.position() == position_after(
                function_name_at(old(self).iter.input(), old(self).iter.position()),
                old(self).iter.position(),
            ),
    {
        let ghost s = self.iter.input();
        let ghost from = self.iter.position();
        let mut name: Vec<u8> = Vec::new();
        proof {
            self.iter.lemma_position_in_bounds();
        }
        assert(name@ =~= s.subrange(from, from));
        loop
            invariant
                self.iter.input() == s,
                s == old(self).iter.input(),
                from == old(self).iter.position(),
                0 <= from <= self.iter.position() <= s.len(),
                name@ == s.subrange(from, self.iter.position()),
                function_name_end(s, self.iter.position()) == function_name_end(s, from),
            ensures
                self.iter.position() == function_name_end(s, from),
            decreases s.len() - self.iter.position(),
        {
            let ghost at = self.iter.position();
            match self.iter.next_if(accepts_name_byte) {
                Some(byte) => {
                    name.push(byte);
                    assert(name@ =~= s.subrange(from, at + 1));
                },
                None => {
                    break ;
                },
            }
        }
        if name.len() == 0 {
            Ok(None)
        } else {
            Ok(Some(name))
        }
    }

    /// Consumes `(` and `)`, with or without blanks in front of each.
    pub fn check_function_parentheses(&mut self) -> (found: bool)
        ensures
            final(self).iter.input() == old(self).iter.input(),
            found == (parentheses_at(old(self).iter.input(), old(self).iter.position())
                is Matched),
            final(self).iter.position() == position_after(
                parentheses_at(old(self).iter.input(), old(self).iter.position()),
                old(self).iter.position(),
            ),
    {
        let start = self.iter.checkpoint();
        self.iter.skip_whitespace();
        if self.iter.try_consume_string([OPEN_PAREN].as_slice(), false) {
            self.iter.skip_whitespace();
            if self.iter.try_consume_string([CLOSE_PAREN].as_slice(), false) {
                return true;
            }
        }
        self.iter.restore(start);
        false
    }

    /// Reads the head of the definition of a function and returns the name.
    pub fn check_function_definition(&mut self) -> (result: ParseResult<Vec<u8>>)
        ensures
            final(self).iter.input() == old(self).iter.input(),
            reports(
                result,
                function_definition_at(old(self).iter.input(), old(self).iter.position()),
            ),
            final(self).iter.position() == position_after(
                function_definition_at(old(self).iter.input(), old(self).iter.position()),
                old(self).iter.position(),
            ),
    {
        let start = self.iter.checkpoint();
        if self.compare_next_chars(KEYWORD_FUNCTION.as_slice()) {
            let behind = self.iter.get_current_index();
            self.skip_whitespace();
            if self.iter.get_current_index() > behind {
                match self.parse_function_name() {
                    Ok(Some(name)) => {
                        self.check_function_parentheses();
                        return Ok(Some(name));
                    },
                    _ => {},
                }
            }
            self.iter.restore(start);
        }
        match self.parse_function_name() {
            Ok(Some(name)) => {
                if self.check_function_parentheses() {
                    return Ok(Some(name));
                }
            },
            _ => {},
        }
        self.iter.restore(start);
        Ok(None)
    }

    /// Consumes the whitespace at the reader's position, newlines included.
    pub fn skip_whitespace(&mut self)
        ensures
            final(self).iter.input() == old(self).iter.input(),
            final(self).iter.position() == whitespace_end(
                old(self).iter.input(),
                old(self).iter.position(),
            ),
    {
        let ghost s = self.iter.input();
        let ghost from = self.iter.position();
        loop
            invariant
                self.iter.input() == s,
                s == old(self).iter.input(),
                from == old(self).iter.position(),
                whitespace_end(s, self.iter.position()) == whitespace_end(s, from),
            ensures
                self.iter.position() == whitespace_end(s, from),
            decreases s.len() - self.iter.position(),
        {
            if self.iter.next_if(accepts_whitespace).is_none() {
                break ;
            }
        }
    }

    /// Tells the shape of the command at the reader's position.
    pub fn parse(&mut self) -> (result: ParseResult<ShellCommand>)
        ensures
            final(self).iter.input() == old(self).iter.input(),
            reports(result, command_at(old(self).iter.input(), old(self).iter.position())),
            final(self).iter.position() == position_after(
                command_at(old(self).iter.input(), old(self).iter.position()),
                old(self).iter.position(),
            ),
            result matches Ok(Some(_)),
    {
        if let Ok(Some(_)) = self.check_compound_command_keyword() {
            Ok(Some(ShellCommand::Compound()))
        } else if self.check_coproc_command_keyword() {
            Ok(Some(ShellCommand::Coproc()))
        } else if let Ok(Some(_)) = self.check_function_definition() {
            Ok(Some(ShellCommand::FunctionDefinition()))
        } else {
            Ok(Some(ShellCommand::Simple()))
        }
    }
}

/// Whether `byte` can be part of the name of a function.
pub fn accepts_name_byte(byte: &u8) -> (accepted: bool)
    ensures
        accepted == spec_check_function_name_char(*byte),
{
    ShellCommandParser::check_function_name_char(*byte)
}

/// Whether `byte` is whitespace.
pub fn accepts_whitespace(byte: &u8) -> (accepted: bool)
    ensures
        accepted == is_whitespace(*byte),
{
    is_whitespace(*byte)
}

} // verus!
