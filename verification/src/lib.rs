//! A verified engine that corrects a previously failed shell command.
//!
//! Given the failed invocation's text, its captured error output, and its
//! shell, the engine finds applicable correction rules, produces a ranked,
//! deduplicated sequence of candidate replacement commands, and drives a
//! confirm-then-execute workflow that optionally repeats on failure.
//!
//! The crate is organised leaves-first:
//! - [`text`] holds the tokenisation, trimming and comparison primitives that
//!   every contract is stated over;
//! - [`error`] holds the error taxonomy;
//! - [`types`] holds the command model (`Command`, `ParsedCommand`,
//!   `CorrectedCommand`, `Shell`, `CommandResult`);
//! - [`registry`] holds correction rules and the rule registry;
//! - [`dispatch`] evaluates rules against a command and its error output;
//! - [`ranking`] merges and ranks candidates and exposes a cursor;
//! - [`machine`] is the confirmation-and-execution state machine;
//! - [`cli`] classifies parsed command-line requests.
//!
//! All I/O (reading the terminal, spawning processes, the clock behind
//! `Command::new`) stays with the caller; the engine only consumes plain
//! values and returns decisions.

pub mod cli;
pub mod dispatch;
pub mod error;
pub mod machine;
pub mod ranking;
pub mod registry;
pub mod text;
pub mod time;
pub mod types;

pub use cli::Cli;
pub use error::ErrorContext;
pub use error::TheFuckError;
pub use error::TheFuckResult;
pub use types::Command;
pub use types::CommandResult;
pub use types::CorrectedCommand;
pub use types::ParsedCommand;
pub use types::Shell;
