//! A small interactive shell: command-line grammar, aliases and variables,
//! pipelines with redirection, and a line editor with history search.
pub mod history;
pub mod input;
pub mod parsing;
pub mod patterns;
pub mod state;
pub mod text;
