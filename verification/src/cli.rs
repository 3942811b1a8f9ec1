//! The parsed command-line request and its classification.
//!
//! Flag parsing itself is I/O and lives with the caller; this module only
//! consumes the parsed values and decides, verifiably, which request they
//! denote.

use crate::text::clone_string_vec;
use crate::text::views_of;
use vstd::prelude::*;

verus! {

/// The parsed command-line arguments.
#[derive(Debug)]
pub struct Cli {
    /// Print the alias for the current shell; an explicit shell name may be
    /// supplied.
    pub alias: Option<Option<String>>,
    /// Log shell output to this file.
    pub shell_logger: Option<String>,
    /// Enable the experimental instant mode.
    pub enable_experimental_instant_mode: bool,
    /// Enable debug output.
    pub debug: bool,
    /// Execute the fixed command without confirmation.
    pub yes: bool,
    /// Dispatch again when the fixed command fails.
    pub repeat: bool,
    /// The trailing tokens of the command that should be fixed.
    pub command: Vec<String>,
}

/// The mathematical model of a [`Cli`].
pub struct CliView {
    pub alias: Option<Option<Seq<char>>>,
    pub shell_logger: Option<Seq<char>>,
    pub enable_experimental_instant_mode: bool,
    pub debug: bool,
    pub yes: bool,
    pub repeat: bool,
    pub command: Seq<Seq<char>>,
}

impl View for Cli {
    type V = CliView;

    open spec fn view(&self) -> CliView {
        CliView {
            alias: match self.alias {
                Some(Some(ref name)) => Some(Some(name@)),
                Some(None) => Some(None),
                None => None,
            },
            shell_logger: match self.shell_logger {
                Some(ref file) => Some(file@),
                None => None,
            },
            enable_experimental_instant_mode: self.enable_experimental_instant_mode,
            debug: self.debug,
            yes: self.yes,
            repeat: self.repeat,
            command: views_of(self.command@),
        }
    }
}

/// The request a command line denotes, in the order the requests take
/// precedence: an alias print, a shell-log request, a command to fix (which
/// is missing when only the history integration triggered the request), or
/// nothing but a plea for help.
#[derive(Debug)]
pub enum CliRequest {
    /// Print the shell alias, for the named shell if one was given.
    PrintAlias(Option<String>),
    /// Log shell output to the named file.
    ShellLog(String),
    /// Correct the command formed by these tokens.
    FixCommand(Vec<String>),
    /// A fix was requested but no command tokens were given.
    MissingCommand,
    /// No request: show usage information.
    ShowHelp,
}

/// The mathematical model of a [`CliRequest`].
pub enum CliRequestView {
    PrintAlias(Option<Seq<char>>),
    ShellLog(Seq<char>),
    FixCommand(Seq<Seq<char>>),
    MissingCommand,
    ShowHelp,
}

impl View for CliRequest {
    type V = CliRequestView;

    open spec fn view(&self) -> CliRequestView {
        match self {
            CliRequest::PrintAlias(Some(name)) => CliRequestView::PrintAlias(Some(name@)),
            CliRequest::PrintAlias(None) => CliRequestView::PrintAlias(None),
            CliRequest::ShellLog(file) => CliRequestView::ShellLog(file@),
            CliRequest::FixCommand(tokens) => CliRequestView::FixCommand(views_of(tokens@)),
            CliRequest::MissingCommand => CliRequestView::MissingCommand,
            CliRequest::ShowHelp => CliRequestView::ShowHelp,
        }
    }
}

/// The request a command line denotes: alias printing first, then shell
/// logging, then command fixing — with the command tokens when they were
/// given, and as a missing command when only the history integration
/// triggered the request — and otherwise help.
pub open spec fn classify_view(c: CliView, history_available: bool) -> CliRequestView {
    match c.alias {
        Some(name) => CliRequestView::PrintAlias(name),
        None => match c.shell_logger {
            Some(file) => CliRequestView::ShellLog(file),
            None => {
                if c.command.len() > 0 {
                    CliRequestView::FixCommand(c.command)
                } else if history_available {
                    CliRequestView::MissingCommand
                } else {
                    CliRequestView::ShowHelp
                }
            },
        },
    }
}

impl Cli {
    /// Whether the alias flag was given.
    pub fn is_alias_request(&self) -> (r: bool)
        ensures
            r == (self@.alias is Some),
    {
        self.alias.is_some()
    }

    /// Whether the shell-logger flag was given.
    pub fn is_shell_logger_request(&self) -> (r: bool)
        ensures
            r == (self@.shell_logger is Some),
    {
        self.shell_logger.is_some()
    }

    /// Whether a command fix was requested: command tokens were given, or the
    /// history integration reports a failed command. The caller supplies
    /// `history_available` from its environment.
    pub fn is_command_fix_request(&self, history_available: bool) -> (r: bool)
        ensures
            r == (self@.command.len() > 0 || history_available),
    {
        self.command.len() > 0 || history_available
    }

    /// The request this command line denotes.
    pub fn classify(&self, history_available: bool) -> (r: CliRequest)
        ensures
            r@ == classify_view(self@, history_available),
    {
        match &self.alias {
            Some(Some(name)) => CliRequest::PrintAlias(Some(name.clone())),
            Some(None) => CliRequest::PrintAlias(None),
            None => match &self.shell_logger {
                Some(file) => CliRequest::ShellLog(file.clone()),
                None => {
                    if self.command.len() > 0 {
                        CliRequest::FixCommand(clone_string_vec(&self.command))
                    } else if history_available {
                        CliRequest::MissingCommand
                    } else {
                        CliRequest::ShowHelp
                    }
                },
            },
        }
    }
}

} // verus!
