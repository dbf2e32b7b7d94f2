//! Parsing of interactive shell input into words, assignments and command shapes.

pub mod byte_classes;
pub mod decimal;
pub mod shell_input_iterator;
pub mod shell_input_parser;
pub mod shell_parser_base;
pub mod shell_parsers;
pub mod shell_structures;
