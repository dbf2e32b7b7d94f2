//! Variable assignments, `name=value` and `name=(a b c)`.

use crate::shell_structures::shell_word::quoted_expressions::clone_bytes;
use crate::shell_structures::shell_word::{ShellWord, ShellWordView};
use vstd::prelude::*;

verus! {

/// The value of an assignment.
#[derive(Debug, PartialEq, Eq)]
pub enum VariableAssignmentType {
    /// `name=word`; the word has no parts where nothing follows the `=`.
    Simple(ShellWord),
    /// `name=(word word ...)`
    List(Vec<ShellWord>),
}

#[derive(Debug, PartialEq, Eq)]
pub struct ShellVariableAssignment {
    pub identifier: Vec<u8>,
    pub value: VariableAssignmentType,
}

/// What the value of an assignment holds.
pub enum VariableAssignmentTypeView {
    Simple(ShellWordView),
    List(Seq<ShellWordView>),
}

/// What an assignment holds.
pub struct ShellVariableAssignmentView {
    pub identifier: Seq<u8>,
    pub value: VariableAssignmentTypeView,
}

/// What a vector of words holds.
pub open spec fn words_view(words: Seq<ShellWord>) -> Seq<ShellWordView> {
    Seq::new(words.len(), |i: int| words[i]@)
}

impl View for VariableAssignmentType {
    type V = VariableAssignmentTypeView;

    open spec fn view(&self) -> VariableAssignmentTypeView {
        match *self {
            VariableAssignmentType::Simple(word) => VariableAssignmentTypeView::Simple(word@),
            VariableAssignmentType::List(words) => VariableAssignmentTypeView::List(
                words_view(words@),
            ),
        }
    }
}

/// A copy of a vector of words.
pub fn clone_words(words: &Vec<ShellWord>) -> (copy: Vec<ShellWord>)
    ensures
        words_view(copy@) == words_view(words@),
{
    let mut copy: Vec<ShellWord> = Vec::new();
    let mut i: usize = 0;
    while i < words.len()
        invariant
            i <= words@.len(),
            copy@.len() == i,
            forall|k: int| 0 <= k < i ==> (#[trigger] copy@[k])@ == words@[k]@,
        decreases words@.len() - i,
    {
        copy.push(words[i].clone());
        i += 1;
    }
    assert(words_view(copy@) =~= words_view(words@));
    copy
}

impl Clone for VariableAssignmentType {
    fn clone(&self) -> (copy: Self)
        ensures
            copy@ == self@,
    {
        match self {
            VariableAssignmentType::Simple(word) => VariableAssignmentType::Simple(word.clone()),
            VariableAssignmentType::List(words) => VariableAssignmentType::List(
                clone_words(words),
            ),
        }
    }
}

impl Clone for ShellVariableAssignment {
    fn clone(&self) -> (copy: Self)
        ensures
            copy@ == self@,
    {
        ShellVariableAssignment {
            identifier: clone_bytes(&self.identifier),
            value: self.value.clone(),
        }
    }
}

impl View for ShellVariableAssignment {
    type V = ShellVariableAssignmentView;

    open spec fn view(&self) -> ShellVariableAssignmentView {
        ShellVariableAssignmentView { identifier: self.identifier@, value: self.value@ }
    }
}

} // verus!
