//! Brace expansions inside a word.
//!
//! Of the two kinds, a word holds ranges only: `parse` reads a range. The
//! grammar of lists stands beside it in `parse_list` and is not part of a
//! word yet.

use crate::byte_classes::{CLOSE_BRACE, COMMA};
use crate::shell_input_iterator::{ShellInputIterator, ShellInputIteratorExt};
use crate::shell_parser_base::{brace_list_rules, failure_of, get_brace_list_word_parsing_rules,
    position_after, reports, ParseError, ParseResult, Parsed, ShellParsingRules,
    ShellWordParsingRulesView};
use crate::shell_parsers::shell_word_parser::shell_brace_expansion_parser::shell_range_parser::{
    lemma_range_at, range_at, ShellRangeParser};
use crate::shell_parsers::shell_word_parser::{lemma_list_resumed_word, lemma_word_at,
    list_resumed, with_word, word_at, ShellWordParser};
use crate::shell_structures::shell_variable_assignment::words_view;
use crate::shell_structures::shell_word::shell_brace_expansion::shell_brace_list::ShellBraceList;
use crate::shell_structures::shell_word::shell_brace_expansion::{BraceExpansion,
    BraceExpansionView};
use crate::shell_structures::shell_word::{ShellWord, ShellWordView};
use vstd::prelude::*;

pub mod shell_range_parser;

verus! {

/// The brace expansion that begins at `pos`, behind the `{`.
pub open spec fn brace_expansion_at(s: Seq<u8>, pos: int) -> Parsed<BraceExpansionView> {
    match range_at(s, pos) {
        Parsed::Matched { value, rest } => Parsed::Matched {
            value: BraceExpansionView::Range(value),
            rest,
        },
        other => failure_of(other),
    }
}

/// A matched expansion ends behind its first byte and within the input; an
/// expansion is never malformed or of a reserved kind.
pub proof fn lemma_brace_expansion_at(s: Seq<u8>, pos: int)
    requires
        0 <= pos <= s.len(),
    ensures
        brace_expansion_at(s, pos) matches Parsed::Matched { value, rest } ==> pos < rest
            <= s.len(),
        !(brace_expansion_at(s, pos) is Malformed),
        !(brace_expansion_at(s, pos) is NotImplemented),
{
    lemma_range_at(s, pos);
}

/// An element of a list at `pos`: the word that stands there by `rules`,
/// or a word without parts if none does.
pub open spec fn list_element_at(s: Seq<u8>, pos: int, rules: ShellWordParsingRulesView) -> Parsed<
    ShellWordView,
> {
    match word_at(s, pos, rules) {
        Parsed::NotPresent => Parsed::Matched { value: Seq::empty(), rest: pos },
        other => other,
    }
}

/// The elements of a list from `pos`, behind a comma, up to the closing
/// brace. An element ends at a comma or a closing brace. The list is
/// incomplete if the input ends behind an element, and no list if any
/// other byte ends one.
pub open spec fn later_elements_at(s: Seq<u8>, pos: int, is_interactive: bool) -> Parsed<
    Seq<ShellWordView>,
>
    decreases s.len() - pos,
{
    match list_element_at(s, pos, brace_list_rules(is_interactive, false)) {
        Parsed::Matched { value, rest } => if rest < pos || rest >= s.len() {
            Parsed::Incomplete
        } else if s[rest] == COMMA {
            with_word(value, later_elements_at(s, rest + 1, is_interactive))
        } else if s[rest] == CLOSE_BRACE {
            Parsed::Matched { value: seq![value], rest: rest + 1 }
        } else {
            Parsed::NotPresent
        },
        other => failure_of(other),
    }
}

/// The list that begins at `pos`, behind the `{`: a first element, which
/// ends at a comma only, a comma, and the elements behind it. A list has
/// at least one comma.
pub open spec fn brace_list_at(s: Seq<u8>, pos: int, is_interactive: bool) -> Parsed<
    BraceExpansionView,
> {
    match list_element_at(s, pos, brace_list_rules(is_interactive, true)) {
        Parsed::Matched { value: first, rest } => if rest < pos || rest >= s.len() {
            Parsed::Incomplete
        } else if s[rest] == COMMA {
            match later_elements_at(s, rest + 1, is_interactive) {
                Parsed::Matched { value, rest: end } => Parsed::Matched {
                    value: BraceExpansionView::List(seq![first] + value),
                    rest: end,
                },
                other => failure_of(other),
            }
        } else {
            Parsed::NotPresent
        },
        other => failure_of(other),
    }
}

/// Reads a brace expansion, whose `{` has been consumed.
pub struct ShellBraceExpressionParser {
    pub iter: ShellInputIterator,
}

impl ShellBraceExpressionParser {
    pub fn new(iter: ShellInputIterator) -> (parser: Self)
        ensures
            parser.iter == iter,
    {
        Self { iter }
    }

    /// Reads a brace expansion up to its closing brace.
    pub fn parse(&mut self) -> (result: ParseResult<BraceExpansion>)
        ensures
            final(self).iter.input() == old(self).iter.input(),
            reports(result, brace_expansion_at(old(self).iter.input(), old(self).iter.position())),
            final(self).iter.position() == position_after(
                brace_expansion_at(old(self).iter.input(), old(self).iter.position()),
                old(self).iter.position(),
            ),
    {
        Self::parse_in(&mut self.iter)
    }

    /// Reads a list up to its closing brace.
    pub fn parse_list(&mut self, base_rules: &ShellParsingRules) -> (result: ParseResult<
        BraceExpansion,
    >)
        ensures
            final(self).iter.input() == old(self).iter.input(),
            reports(
                result,
                brace_list_at(
                    old(self).iter.input(),
                    old(self).iter.position(),
                    base_rules.is_interactive,
                ),
            ),
            final(self).iter.position() == position_after(
                brace_list_at(
                    old(self).iter.input(),
                    old(self).iter.position(),
                    base_rules.is_interactive,
                ),
                old(self).iter.position(),
            ),
    {
        Self::parse_list_in(&mut self.iter, base_rules)
    }

    /// Reads an element of a list: the word at the reader's position, or a
    /// word without parts.
    pub fn list_element_in(
        iter: &mut ShellInputIterator,
        base_rules: &ShellParsingRules,
        is_first: bool,
    ) -> (result: ParseResult<ShellWord>)
        ensures
            final(iter).input() == old(iter).input(),
            reports(
                result,
                list_element_at(
                    old(iter).input(),
                    old(iter).position(),
                    brace_list_rules(base_rules.is_interactive, is_first),
                ),
            ),
            final(iter).position() == position_after(
                list_element_at(
                    old(iter).input(),
                    old(iter).position(),
                    brace_list_rules(base_rules.is_interactive, is_first),
                ),
                old(iter).position(),
            ),
            old(iter).position() <= final(iter).position() <= final(iter).input().len(),
    {
        let rules = get_brace_list_word_parsing_rules(base_rules, is_first);
        proof {
            iter.lemma_position_in_bounds();
            lemma_word_at(iter.input(), iter.position(), rules@);
        }
        match ShellWordParser::parse_in(iter, &rules) {
            Ok(Some(word)) => Ok(Some(word)),
            Ok(None) => Ok(Some(ShellWord::default())),
            Err(error) => Err(error),
        }
    }

    /// `parse_list` on a reader that the caller keeps.
    pub fn parse_list_in(iter: &mut ShellInputIterator, base_rules: &ShellParsingRules) -> (result:
        ParseResult<BraceExpansion>)
        ensures
            final(iter).input() == old(iter).input(),
            reports(
                result,
                brace_list_at(old(iter).input(), old(iter).position(), base_rules.is_interactive),
            ),
            final(iter).position() == position_after(
                brace_list_at(old(iter).input(), old(iter).position(), base_rules.is_interactive),
                old(iter).position(),
            ),
    {
        let start = iter.checkpoint();
        let ghost s = iter.input();
        let ghost from = iter.position();
        let ghost interactive = base_rules.is_interactive;
        let first = match Self::list_element_in(iter, base_rules, true) {
            Ok(Some(word)) => word,
            Ok(None) => { return Ok(None); },
            Err(error) => { return Err(error); },
        };
        match iter.next() {
            None => {
                iter.restore(start);
                return Err(ParseError::RequiresNextLine);
            },
            Some(byte) => {
                if byte != COMMA {
                    iter.restore(start);
                    return Ok(None);
                }
            },
        }
        let ghost behind = iter.position();
        let mut words: Vec<ShellWord> = Vec::new();
        words.push(first);
        let ghost head = words_view(words@);
        assert(head =~= seq![first@]);
        let ghost mut built: Seq<ShellWordView> = Seq::empty();
        proof {
            if let Parsed::Matched { value, rest } = later_elements_at(s, behind, interactive) {
                assert(built + value =~= value);
            }
        }
        loop
            invariant
                iter.input() == s,
                s == old(iter).input(),
                from == old(iter).position(),
                start.position() == from,
                interactive == base_rules.is_interactive,
                0 <= from < behind <= iter.position() <= s.len(),
                words_view(words@) == head + built,
                later_elements_at(s, behind, interactive) == list_resumed(
                    built,
                    later_elements_at(s, iter.position(), interactive),
                ),
                brace_list_at(s, from, interactive) == (match later_elements_at(
                    s,
                    behind,
                    interactive,
                ) {
                    Parsed::Matched { value, rest } => Parsed::Matched {
                        value: BraceExpansionView::List(head + value),
                        rest,
                    },
                    other => failure_of(other),
                }),
            decreases s.len() - iter.position(),
        {
            let word = match Self::list_element_in(iter, base_rules, false) {
                Ok(Some(word)) => word,
                Ok(None) => {
                    iter.restore(start);
                    return Ok(None);
                },
                Err(error) => {
                    iter.restore(start);
                    return Err(error);
                },
            };
            let ghost tail = later_elements_at(s, iter.position() + 1, interactive);
            let ghost before = words_view(words@);
            match iter.next() {
                None => {
                    iter.restore(start);
                    return Err(ParseError::RequiresNextLine);
                },
                Some(byte) => {
                    if byte == COMMA {
                        proof {
                            lemma_list_resumed_word(built, word@, tail);
                            built = built.push(word@);
                        }
                        words.push(word);
                        assert(words_view(words@) =~= before.push(word@));
                        assert(before.push(word@) =~= head + built);
                    } else if byte == CLOSE_BRACE {
                        proof {
                            assert(built + seq![word@] =~= built.push(word@));
                        }
                        words.push(word);
                        assert(words_view(words@) =~= before.push(word@));
                        assert(head + built.push(word@) =~= before.push(word@));
                        let list = ShellBraceList { words };
                        assert(list@ =~= words_view(list.words@));
                        return Ok(Some(BraceExpansion::List(list)));
                    } else {
                        iter.restore(start);
                        return Ok(None);
                    }
                },
            }
        }
    }

    /// `parse` on a reader that the caller keeps.
    pub fn parse_in(iter: &mut ShellInputIterator) -> (result: ParseResult<BraceExpansion>)
        ensures
            final(iter).input() == old(iter).input(),
            reports(result, brace_expansion_at(old(iter).input(), old(iter).position())),
            final(iter).position() == position_after(
                brace_expansion_at(old(iter).input(), old(iter).position()),
                old(iter).position(),
            ),
    {
        match ShellRangeParser::parse_in(iter) {
            Ok(Some(range)) => Ok(Some(BraceExpansion::Range(range))),
            Ok(None) => Ok(None),
            Err(error) => Err(error),
        }
    }
}

} // verus!
