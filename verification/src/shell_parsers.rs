//! The parsers. Each reads through a `ShellInputIterator` and moves it only
//! when it has matched.

pub mod shell_command_parser;
pub mod shell_variable_assignment_parser;
pub mod shell_word_parser;
