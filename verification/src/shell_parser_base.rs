//! The outcome protocol shared by every parser, and the rule sets that
//! configure a word-parsing call.

use crate::byte_classes::{CLOSE_BRACE, COMMA};
use vstd::prelude::*;

verus! {

/// Why a parse could not produce a value.
#[derive(Clone, Copy, Debug, PartialEq, Eq, Structural)]
pub enum ParseError {
    /// The construct is still open when the input ends; more bytes are needed.
    RequiresNextLine,
    /// A byte that cannot stand where it was found, with its offset in the input.
    IncorrectSyntax(usize),
    /// A reserved expansion whose grammar is not provided.
    NotImplemented,
}

/// `Ok(Some(v))`: the construct was matched. `Ok(None)`: it is not present.
pub type ParseResult<T> = Result<Option<T>, ParseError>;

/// What a grammar rule yields at a position of an input. A rule is a spec
/// function from the input and a position to a `Parsed`; a parser promises
/// that its result is the one its rule gives.
pub enum Parsed<V> {
    /// The construct is there; `rest` is the position behind it.
    Matched { value: V, rest: int },
    /// The construct is not there; another rule may apply to the same bytes.
    NotPresent,
    /// The input ends inside the construct.
    Incomplete,
    /// The byte at `offset` cannot stand there.
    Malformed { offset: int },
    /// The construct is of a reserved kind.
    NotImplemented,
}

/// Whether `result` is what a parser returns for the outcome `expected`.
pub open spec fn reports<T: View>(result: ParseResult<T>, expected: Parsed<T::V>) -> bool {
    match expected {
        Parsed::Matched { value, rest } => result matches Ok(Some(found)) && found@ == value,
        Parsed::NotPresent => result matches Ok(None),
        Parsed::Incomplete => result matches Err(ParseError::RequiresNextLine),
        Parsed::Malformed { offset } => result matches Err(ParseError::IncorrectSyntax(at)) && at
            == offset,
        Parsed::NotImplemented => result matches Err(ParseError::NotImplemented),
    }
}

/// Where a reader that stood at `start` stands after a parser has returned:
/// behind the construct if it was matched, else at `start`.
pub open spec fn position_after<V>(expected: Parsed<V>, start: int) -> int {
    match expected {
        Parsed::Matched { value, rest } => rest,
        _ => start,
    }
}

/// The outcome of a rule that did not match, as the outcome of a rule that
/// called it.
pub open spec fn failure_of<V, W>(outcome: Parsed<V>) -> Parsed<W> {
    match outcome {
        Parsed::Incomplete => Parsed::Incomplete,
        Parsed::Malformed { offset } => Parsed::Malformed { offset },
        Parsed::NotImplemented => Parsed::NotImplemented,
        _ => Parsed::NotPresent,
    }
}

/// Settings that hold for a whole session.
#[derive(Clone, Copy, Debug, PartialEq, Eq, Structural)]
pub struct ShellParsingRules {
    pub is_interactive: bool,
}

/// Which expansions a word-parsing call recognises and where it stops.
#[derive(Clone, Debug, PartialEq, Eq)]
pub struct ShellWordParsingRules {
    pub parse_history_expansions: bool,
    pub parse_brace_expansions: bool,
    pub parse_dollar_sign_expansions: bool,
    pub parse_filename_expansions: bool,
    pub additional_word_stop_characters: Vec<u8>,
}

/// What a rule set holds.
pub struct ShellWordParsingRulesView {
    pub parse_history_expansions: bool,
    pub parse_brace_expansions: bool,
    pub parse_dollar_sign_expansions: bool,
    pub parse_filename_expansions: bool,
    pub additional_word_stop_characters: Seq<u8>,
}

impl View for ShellWordParsingRules {
    type V = ShellWordParsingRulesView;

    open spec fn view(&self) -> ShellWordParsingRulesView {
        ShellWordParsingRulesView {
            parse_history_expansions: self.parse_history_expansions,
            parse_brace_expansions: self.parse_brace_expansions,
            parse_dollar_sign_expansions: self.parse_dollar_sign_expansions,
            parse_filename_expansions: self.parse_filename_expansions,
            additional_word_stop_characters: self.additional_word_stop_characters@,
        }
    }
}

/// The rule set of a brace-list element, as a value of specifications.
pub open spec fn brace_list_rules(is_interactive: bool, is_first: bool) -> ShellWordParsingRulesView {
    ShellWordParsingRulesView {
        parse_history_expansions: is_interactive,
        parse_brace_expansions: true,
        parse_dollar_sign_expansions: true,
        parse_filename_expansions: true,
        additional_word_stop_characters: if is_first {
            seq![COMMA]
        } else {
            seq![COMMA, CLOSE_BRACE]
        },
    }
}

/// The default rule set, as a value of specifications.
pub open spec fn default_rules(is_interactive: bool) -> ShellWordParsingRulesView {
    ShellWordParsingRulesView {
        parse_history_expansions: is_interactive,
        parse_brace_expansions: true,
        parse_dollar_sign_expansions: true,
        parse_filename_expansions: true,
        additional_word_stop_characters: Seq::empty(),
    }
}

/// Rules for an element of a brace list: the first element stops at `,`,
/// later ones at `,` or `}`.
pub fn get_brace_list_word_parsing_rules(base_rules: &ShellParsingRules, is_first: bool) -> (rules:
    ShellWordParsingRules)
    ensures
        rules@ == brace_list_rules(base_rules.is_interactive, is_first),
{
    let mut stops: Vec<u8> = Vec::new();
    stops.push(COMMA);
    if !is_first {
        stops.push(CLOSE_BRACE);
    }
    assert(stops@ =~= brace_list_rules(
        base_rules.is_interactive,
        is_first,
    ).additional_word_stop_characters);
    ShellWordParsingRules {
        parse_history_expansions: base_rules.is_interactive,
        parse_brace_expansions: true,
        parse_dollar_sign_expansions: true,
        parse_filename_expansions: true,
        additional_word_stop_characters: stops,
    }
}

/// Rules for a word in command position or an assignment value: every
/// expansion on, no extra stop bytes.
pub fn get_default_word_parsing_rules(base_rules: &ShellParsingRules) -> (rules: ShellWordParsingRules)
    ensures
        rules@ == default_rules(base_rules.is_interactive),
{
    ShellWordParsingRules {
        parse_history_expansions: base_rules.is_interactive,
        parse_brace_expansions: true,
        parse_dollar_sign_expansions: true,
        parse_filename_expansions: true,
        additional_word_stop_characters: Vec::new(),
    }
}

} // verus!
