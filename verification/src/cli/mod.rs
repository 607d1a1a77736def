//! The command line: its switches, what it takes from the environment, and the conversation on a
//! terminal.
pub mod options;
pub mod repl;
pub mod shell;
