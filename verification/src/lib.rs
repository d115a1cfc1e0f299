//! The planning core of a small interactive shell.
//!
//! Every decision the shell takes is a function here: how a line of text
//! becomes tokens, how tokens become pipeline stages with their redirections,
//! what each built-in command reports, where each report is written, and in
//! which order the pipes of a pipeline are opened, handed over and closed.
//! Reading the terminal, touching the file system and starting processes are
//! left to the caller, which feeds the observations in and carries the
//! returned plans out.
pub mod text;
pub mod lexer;
pub mod history;
pub mod reader;
pub mod splitter;
pub mod redirect;
pub mod output;
pub mod builtins;
pub mod process;
pub mod executor;
pub mod completion;
pub mod laws;
