//! Brace expansions: ranges and lists.

use crate::shell_structures::shell_word::shell_brace_expansion::shell_brace_list::{
    clone_brace_list, list_text, list_view, restore_brace_list, ShellBraceList};
use crate::shell_structures::shell_word::shell_brace_expansion::shell_range::ShellRange;
use crate::shell_structures::shell_word::ShellWordView;
use crate::shell_structures::ShellToken;
use vstd::prelude::*;

pub mod shell_brace_list;
pub mod shell_range;

verus! {

#[derive(Debug, PartialEq, Eq)]
pub enum BraceExpansion {
    /// `{1..5}`, `{a..e..2}`
    Range(ShellRange),
    /// `{a,b,c}`
    List(ShellBraceList),
}

/// What a brace expansion holds.
pub enum BraceExpansionView {
    Range(ShellRange),
    List(Seq<ShellWordView>),
}

/// What `expansion` holds.
pub open spec fn brace_view(expansion: BraceExpansion) -> BraceExpansionView
    decreases expansion,
{
    match expansion {
        BraceExpansion::Range(range) => BraceExpansionView::Range(range),
        BraceExpansion::List(list) => BraceExpansionView::List(list_view(list)),
    }
}

impl View for BraceExpansion {
    type V = BraceExpansionView;

    open spec fn view(&self) -> BraceExpansionView {
        brace_view(*self)
    }
}

/// The text of a brace expansion.
pub open spec fn brace_text(expansion: BraceExpansionView) -> Seq<u8>
    decreases expansion, 0nat,
{
    match expansion {
        BraceExpansionView::Range(range) => range.text(),
        BraceExpansionView::List(words) => list_text(words),
    }
}

/// Writes a brace expansion back as text.
pub fn restore_brace_expansion(expansion: &BraceExpansion) -> (bytes: Vec<u8>)
    ensures
        bytes@ == brace_text(expansion@),
    decreases expansion,
{
    match expansion {
        BraceExpansion::Range(range) => range.restore_original(),
        BraceExpansion::List(list) => restore_brace_list(list),
    }
}

/// A copy of a brace expansion.
pub fn clone_brace_expansion(expansion: &BraceExpansion) -> (copy: BraceExpansion)
    ensures
        copy@ == expansion@,
    decreases expansion,
{
    match expansion {
        BraceExpansion::Range(range) => BraceExpansion::Range(*range),
        BraceExpansion::List(list) => BraceExpansion::List(clone_brace_list(list)),
    }
}

impl Clone for BraceExpansion {
    fn clone(&self) -> (copy: Self)
        ensures
            copy@ == self@,
    {
        clone_brace_expansion(self)
    }
}

impl ShellToken for BraceExpansion {
    open spec fn original(&self) -> Seq<u8> {
        brace_text(self@)
    }

    fn restore_original(&self) -> (bytes: Vec<u8>) {
        restore_brace_expansion(self)
    }
}

} // verus!
