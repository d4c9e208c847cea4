//! A small Unix shell: command-line parsing, parameter expansion, session
//! history, shell variables, background-job bookkeeping and the decisions of
//! the read-execute loop, with the process and terminal work left to the
//! program that embeds it.

pub mod text;
pub mod parser;
pub mod variables;
pub mod expansion;
pub mod history;
pub mod jobs;
pub mod command;
pub mod shell;
pub mod repl;
