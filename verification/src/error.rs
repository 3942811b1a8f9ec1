//! The error taxonomy of the engine.
//!
//! Rule-level faults are recoverable diagnostics, the absence of matches is a
//! terminal condition, and validation or parse failures are reported before
//! any rule is evaluated.

use vstd::prelude::*;
use vstd::string::StringExecFns;

verus! {

/// Errors reported by the command-correction engine.
#[derive(Debug)]
pub enum TheFuckError {
    /// Command parsing failed.
    ParseError(String),
    /// The shell is not supported.
    UnsupportedShell(String),
    /// The shell failed to run something.
    ShellExecutionError(String),
    /// No rule produced a candidate for the command.
    NoRulesFound(String),
    /// A single rule failed while matching or correcting.
    RuleExecutionError(String),
    /// A configuration value is invalid.
    ConfigError(String),
    /// A configuration file could not be loaded.
    ConfigLoadError(String),
    /// A file-system operation failed.
    FileSystemError(String),
    /// A file could not be read.
    FileReadError(String),
    /// A file could not be written.
    FileWriteError(String),
    /// A process could not be spawned or awaited.
    ProcessError(String),
    /// An executed command reported a failure.
    CommandExecutionError(String),
    /// The command history could not be accessed.
    HistoryError(String),
    /// An input value was rejected before dispatch.
    ValidationError(String),
    /// A network operation failed.
    NetworkError(String),
    /// A path could not be converted.
    PathError(String),
}

/// The mathematical model of a [`TheFuckError`]: the same variants over
/// character sequences.
pub enum ErrorView {
    ParseError(Seq<char>),
    UnsupportedShell(Seq<char>),
    ShellExecutionError(Seq<char>),
    NoRulesFound(Seq<char>),
    RuleExecutionError(Seq<char>),
    ConfigError(Seq<char>),
    ConfigLoadError(Seq<char>),
    FileSystemError(Seq<char>),
    FileReadError(Seq<char>),
    FileWriteError(Seq<char>),
    ProcessError(Seq<char>),
    CommandExecutionError(Seq<char>),
    HistoryError(Seq<char>),
    ValidationError(Seq<char>),
    NetworkError(Seq<char>),
    PathError(Seq<char>),
}

impl View for TheFuckError {
    type V = ErrorView;

    open spec fn view(&self) -> ErrorView {
        match self {
            TheFuckError::ParseError(m) => ErrorView::ParseError(m@),
            TheFuckError::UnsupportedShell(m) => ErrorView::UnsupportedShell(m@),
            TheFuckError::ShellExecutionError(m) => ErrorView::ShellExecutionError(m@),
            TheFuckError::NoRulesFound(m) => ErrorView::NoRulesFound(m@),
            TheFuckError::RuleExecutionError(m) => ErrorView::RuleExecutionError(m@),
            TheFuckError::ConfigError(m) => ErrorView::ConfigError(m@),
            TheFuckError::ConfigLoadError(m) => ErrorView::ConfigLoadError(m@),
            TheFuckError::FileSystemError(m) => ErrorView::FileSystemError(m@),
            TheFuckError::FileReadError(m) => ErrorView::FileReadError(m@),
            TheFuckError::FileWriteError(m) => ErrorView::FileWriteError(m@),
            TheFuckError::ProcessError(m) => ErrorView::ProcessError(m@),
            TheFuckError::CommandExecutionError(m) => ErrorView::CommandExecutionError(m@),
            TheFuckError::HistoryError(m) => ErrorView::HistoryError(m@),
            TheFuckError::ValidationError(m) => ErrorView::ValidationError(m@),
            TheFuckError::NetworkError(m) => ErrorView::NetworkError(m@),
            TheFuckError::PathError(m) => ErrorView::PathError(m@),
        }
    }
}

/// The human-readable message of an error: a fixed description of the
/// variant, followed by the carried detail.
pub open spec fn message_view(e: ErrorView) -> Seq<char> {
    match e {
        ErrorView::ParseError(m) => "Failed to parse command: "@ + m,
        ErrorView::UnsupportedShell(m) => "Shell not supported: "@ + m,
        ErrorView::ShellExecutionError(m) => "Shell execution failed: "@ + m,
        ErrorView::NoRulesFound(m) => "No matching rules found for command: "@ + m,
        ErrorView::RuleExecutionError(m) => "Rule execution failed: "@ + m,
        ErrorView::ConfigError(m) => "Configuration error: "@ + m,
        ErrorView::ConfigLoadError(m) => "Failed to load configuration file: "@ + m,
        ErrorView::FileSystemError(m) => "File system error: "@ + m,
        ErrorView::FileReadError(m) => "Failed to read file: "@ + m,
        ErrorView::FileWriteError(m) => "Failed to write file: "@ + m,
        ErrorView::ProcessError(m) => "Process execution failed: "@ + m,
        ErrorView::CommandExecutionError(m) => "Command execution failed: "@ + m,
        ErrorView::HistoryError(m) => "Failed to access command history: "@ + m,
        ErrorView::ValidationError(m) => "Validation error: "@ + m,
        ErrorView::NetworkError(m) => "Network error: "@ + m,
        ErrorView::PathError(m) => "Path conversion error: "@ + m,
    }
}

/// Adding context prefixes the carried detail of the recoverable variants
/// with `context: ` and leaves the remaining variants untouched.
pub open spec fn with_context_view(e: ErrorView, context: Seq<char>) -> ErrorView {
    match e {
        ErrorView::ParseError(m) => ErrorView::ParseError(context + ": "@ + m),
        ErrorView::ShellExecutionError(m) => ErrorView::ShellExecutionError(context + ": "@ + m),
        ErrorView::RuleExecutionError(m) => ErrorView::RuleExecutionError(context + ": "@ + m),
        ErrorView::ConfigError(m) => ErrorView::ConfigError(context + ": "@ + m),
        ErrorView::FileSystemError(m) => ErrorView::FileSystemError(context + ": "@ + m),
        ErrorView::ProcessError(m) => ErrorView::ProcessError(context + ": "@ + m),
        ErrorView::CommandExecutionError(m) => ErrorView::CommandExecutionError(
            context + ": "@ + m,
        ),
        ErrorView::HistoryError(m) => ErrorView::HistoryError(context + ": "@ + m),
        ErrorView::ValidationError(m) => ErrorView::ValidationError(context + ": "@ + m),
        ErrorView::NetworkError(m) => ErrorView::NetworkError(context + ": "@ + m),
        ErrorView::PathError(m) => ErrorView::PathError(context + ": "@ + m),
        _ => e,
    }
}

/// `context`, a separating `: `, then `detail`.
fn prefixed(context: &str, detail: &str) -> (r: String)
    ensures
        r@ == context@ + ": "@ + detail@,
{
    let mut r = context.to_owned();
    r.append(": ");
    r.append(detail);
    r
}

/// `prefix` followed by `detail`.
fn described(prefix: &str, detail: &str) -> (r: String)
    ensures
        r@ == prefix@ + detail@,
{
    let mut r = prefix.to_owned();
    r.append(detail);
    r
}

impl TheFuckError {
    /// A parse error with the given detail.
    pub fn parse_error(message: &str) -> (r: Self)
        ensures
            r@ == ErrorView::ParseError(message@),
    {
        TheFuckError::ParseError(message.to_owned())
    }

    /// An unsupported-shell error naming the shell.
    pub fn unsupported_shell(shell: &str) -> (r: Self)
        ensures
            r@ == ErrorView::UnsupportedShell(shell@),
    {
        TheFuckError::UnsupportedShell(shell.to_owned())
    }

    /// A no-matching-rules error naming the command.
    pub fn no_rules_found(command: &str) -> (r: Self)
        ensures
            r@ == ErrorView::NoRulesFound(command@),
    {
        TheFuckError::NoRulesFound(command.to_owned())
    }

    /// A configuration error with the given detail.
    pub fn config_error(message: &str) -> (r: Self)
        ensures
            r@ == ErrorView::ConfigError(message@),
    {
        TheFuckError::ConfigError(message.to_owned())
    }

    /// A file-system error with the given detail.
    pub fn file_system_error(message: &str) -> (r: Self)
        ensures
            r@ == ErrorView::FileSystemError(message@),
    {
        TheFuckError::FileSystemError(message.to_owned())
    }

    /// A process error with the given detail.
    pub fn process_error(message: &str) -> (r: Self)
        ensures
            r@ == ErrorView::ProcessError(message@),
    {
        TheFuckError::ProcessError(message.to_owned())
    }

    /// A validation error with the given detail.
    pub fn validation_error(message: &str) -> (r: Self)
        ensures
            r@ == ErrorView::ValidationError(message@),
    {
        TheFuckError::ValidationError(message.to_owned())
    }

    /// A path error with the given detail.
    pub fn path_error(message: &str) -> (r: Self)
        ensures
            r@ == ErrorView::PathError(message@),
    {
        TheFuckError::PathError(message.to_owned())
    }

    /// The human-readable message of the error.
    pub fn message(&self) -> (r: String)
        ensures
            r@ == message_view(self@),
    {
        match self {
            TheFuckError::ParseError(m) => described("Failed to parse command: ", m.as_str()),
            TheFuckError::UnsupportedShell(m) => described("Shell not supported: ", m.as_str()),
            TheFuckError::ShellExecutionError(m) => described(
                "Shell execution failed: ",
                m.as_str(),
            ),
            TheFuckError::NoRulesFound(m) => described(
                "No matching rules found for command: ",
                m.as_str(),
            ),
            TheFuckError::RuleExecutionError(m) => described("Rule execution failed: ", m.as_str()),
            TheFuckError::ConfigError(m) => described("Configuration error: ", m.as_str()),
            TheFuckError::ConfigLoadError(m) => described(
                "Failed to load configuration file: ",
                m.as_str(),
            ),
            TheFuckError::FileSystemError(m) => described("File system error: ", m.as_str()),
            TheFuckError::FileReadError(m) => described("Failed to read file: ", m.as_str()),
            TheFuckError::FileWriteError(m) => described("Failed to write file: ", m.as_str()),
            TheFuckError::ProcessError(m) => described("Process execution failed: ", m.as_str()),
            TheFuckError::CommandExecutionError(m) => described(
                "Command execution failed: ",
                m.as_str(),
            ),
            TheFuckError::HistoryError(m) => described(
                "Failed to access command history: ",
                m.as_str(),
            ),
            TheFuckError::ValidationError(m) => described("Validation error: ", m.as_str()),
            TheFuckError::NetworkError(m) => described("Network error: ", m.as_str()),
            TheFuckError::PathError(m) => described("Path conversion error: ", m.as_str()),
        }
    }

    /// The process exit code this error maps to. The convention this engine
    /// fixes: validation and parse failures report 2, the no-rules condition
    /// reports 3, and every other error reports 1.
    pub fn exit_code(&self) -> (c: i32)
        ensures
            c == match self@ {
                ErrorView::ValidationError(_) => 2int,
                ErrorView::ParseError(_) => 2int,
                ErrorView::NoRulesFound(_) => 3int,
                _ => 1int,
            },
    {
        match self {
            TheFuckError::ValidationError(_) => 2,
            TheFuckError::ParseError(_) => 2,
            TheFuckError::NoRulesFound(_) => 3,
            _ => 1,
        }
    }

    /// The error with the given context folded into its detail, for the
    /// recoverable variants.
    pub fn add_context(self, context: &str) -> (r: Self)
        ensures
            r@ == with_context_view(self@, context@),
    {
        match self {
            TheFuckError::ParseError(m) => TheFuckError::ParseError(prefixed(context, m.as_str())),
            TheFuckError::ShellExecutionError(m) => TheFuckError::ShellExecutionError(
                prefixed(context, m.as_str()),
            ),
            TheFuckError::RuleExecutionError(m) => TheFuckError::RuleExecutionError(
                prefixed(context, m.as_str()),
            ),
            TheFuckError::ConfigError(m) => TheFuckError::ConfigError(
                prefixed(context, m.as_str()),
            ),
            TheFuckError::FileSystemError(m) => TheFuckError::FileSystemError(
                prefixed(context, m.as_str()),
            ),
            TheFuckError::ProcessError(m) => TheFuckError::ProcessError(
                prefixed(context, m.as_str()),
            ),
            TheFuckError::CommandExecutionError(m) => TheFuckError::CommandExecutionError(
                prefixed(context, m.as_str()),
            ),
            TheFuckError::HistoryError(m) => TheFuckError::HistoryError(
                prefixed(context, m.as_str()),
            ),
            TheFuckError::ValidationError(m) => TheFuckError::ValidationError(
                prefixed(context, m.as_str()),
            ),
            TheFuckError::NetworkError(m) => TheFuckError::NetworkError(
                prefixed(context, m.as_str()),
            ),
            TheFuckError::PathError(m) => TheFuckError::PathError(prefixed(context, m.as_str())),
            _ => self,
        }
    }
}

/// Result type of the engine's fallible operations.
pub type TheFuckResult<T> = Result<T, TheFuckError>;

/// Adds context to the error of a fallible result.
pub trait ErrorContext<T>: Sized {
    /// The result with `context` folded into its error, if any.
    fn with_context(self, context: &str) -> TheFuckResult<T>;
}

impl<T> ErrorContext<T> for TheFuckResult<T> {
    fn with_context(self, context: &str) -> (r: TheFuckResult<T>)
        ensures
            self is Ok <==> r is Ok,
            self matches Ok(v) ==> r matches Ok(w) && w == v,
            self matches Err(e) ==> r matches Err(f) && f@ == with_context_view(e@, context@),
    {
        match self {
            Ok(v) => Ok(v),
            Err(e) => Err(e.add_context(context)),
        }
    }
}

} // verus!
