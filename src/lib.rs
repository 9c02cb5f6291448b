//! A command-line argument parser driven by a declared tree of arguments:
//! defaults, positionals, optionals, flags and nested actions.
//!
//! A [`Parser`] is built once and then parses any number of token sequences. Each parse
//! runs five phases on the root (defaults, positionals, optionals, flags, actions) and
//! descends into the action that the next token names. The result is a bag of typed
//! values, or a message that carries the help text of the parser that failed.

pub mod value;
pub mod command_line_parsing_results;
pub mod text;
pub mod command_line_parsing;
pub mod default_argument;
pub mod positional_argument;
pub mod optional_argument;
pub mod flag_argument;
pub mod parser;
pub mod theorems;

pub use parser::Parser;
