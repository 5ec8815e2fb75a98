//! A small interactive shell core: a line tokenizer with quoting rules and
//! the pure decision logic of a read-tokenize-classify-execute loop.
//!
//! The tokenizer turns one line of input into a sequence of typed tokens
//! (command, arguments, quoted literals, lexical errors). The dispatch
//! logic partitions those tokens and classifies the command against the
//! fixed builtin set (`exit`, `cd`, `clear`/`cls`), yielding an action for
//! the surrounding terminal loop to perform.

pub mod token;
pub mod lexer;
pub mod dispatch;
pub mod prompt;
pub mod laws;
