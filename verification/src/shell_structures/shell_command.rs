//! The shape of a command.

use crate::shell_structures::shell_variable_assignment::{clone_words, words_view};
use crate::shell_structures::shell_word::quoted_expressions::clone_bytes;
use crate::shell_structures::shell_word::{ShellWord, ShellWordView};
use vstd::prelude::*;

verus! {

/// The shape of a command, as far as its first bytes decide it.
#[derive(Clone, Copy, Debug, PartialEq, Eq, Structural)]
pub enum ShellCommand {
    Simple(),
    /// Begins with `for`, `select`, `case`, `if`, `while` or `until`.
    Compound(),
    Coproc(),
    FunctionDefinition(),
}

impl View for ShellCommand {
    type V = ShellCommand;

    open spec fn view(&self) -> ShellCommand {
        *self
    }
}

/// The value of an indexed assignment.
#[derive(Debug, PartialEq, Eq)]
pub enum VariableAssignmentValue {
    Plain(ShellWord),
    List(Vec<ShellWord>),
}

/// An assignment to a variable or to one element of it, `name[3]=value`.
#[derive(Debug, PartialEq, Eq)]
pub struct VariableAssignment {
    pub name: Vec<u8>,
    pub index: i64,
    pub value: VariableAssignmentValue,
}

/// What the value of an indexed assignment holds.
pub enum VariableAssignmentValueView {
    Plain(ShellWordView),
    List(Seq<ShellWordView>),
}

/// What an indexed assignment holds.
pub struct VariableAssignmentView {
    pub name: Seq<u8>,
    pub index: i64,
    pub value: VariableAssignmentValueView,
}

impl View for VariableAssignmentValue {
    type V = VariableAssignmentValueView;

    open spec fn view(&self) -> VariableAssignmentValueView {
        match *self {
            VariableAssignmentValue::Plain(word) => VariableAssignmentValueView::Plain(word@),
            VariableAssignmentValue::List(words) => VariableAssignmentValueView::List(
                words_view(words@),
            ),
        }
    }
}

impl View for VariableAssignment {
    type V = VariableAssignmentView;

    open spec fn view(&self) -> VariableAssignmentView {
        VariableAssignmentView { name: self.name@, index: self.index, value: self.value@ }
    }
}

impl Clone for VariableAssignmentValue {
    fn clone(&self) -> (copy: Self)
        ensures
            copy@ == self@,
    {
        match self {
            VariableAssignmentValue::Plain(word) => VariableAssignmentValue::Plain(word.clone()),
            VariableAssignmentValue::List(words) => VariableAssignmentValue::List(
                clone_words(words),
            ),
        }
    }
}

impl Clone for VariableAssignment {
    fn clone(&self) -> (copy: Self)
        ensures
            copy@ == self@,
    {
        VariableAssignment {
            name: clone_bytes(&self.name),
            index: self.index,
            value: self.value.clone(),
        }
    }
}

} // verus!
