//! Core logic of a small interactive shell: quote-aware splitting of a
//! command line into pipeline subcommands, tokenization of each subcommand,
//! dispatch planning for built-ins and external stages, prompt construction,
//! and the interrupt-time redraw decision.

pub mod lexer;
pub mod plan;
pub mod prompt;
