//! The command model: a failed invocation, its parsed view, a proposed
//! correction, the shell taxonomy and the outcome of an execution.

use crate::error::ErrorView;
use crate::error::TheFuckError;
use crate::error::TheFuckResult;
use crate::text::args_of;
use crate::text::clone_string_vec;
use crate::text::eq_nocase;
use crate::text::joined_with_spaces;
use crate::text::str_eq;
use crate::text::str_eq_nocase;
use crate::text::tokenize;
use crate::text::tokens_of;
use crate::text::trim_str;
use crate::text::trimmed_of;
use crate::text::views_of;
use vstd::prelude::*;
use vstd::pervasive::VecAdditionalExecFns;
use vstd::string::StringExecFns;

verus! {

/// The shell a command ran under.
#[derive(Debug)]
pub enum Shell {
    Bash,
    Zsh,
    Fish,
    PowerShell,
    Cmd,
    /// A shell the engine does not know, under its reported name.
    Unknown(String),
}

/// The mathematical model of a [`Shell`].
pub enum ShellView {
    Bash,
    Zsh,
    Fish,
    PowerShell,
    Cmd,
    Unknown(Seq<char>),
}

impl View for Shell {
    type V = ShellView;

    open spec fn view(&self) -> ShellView {
        match self {
            Shell::Bash => ShellView::Bash,
            Shell::Zsh => ShellView::Zsh,
            Shell::Fish => ShellView::Fish,
            Shell::PowerShell => ShellView::PowerShell,
            Shell::Cmd => ShellView::Cmd,
            Shell::Unknown(name) => ShellView::Unknown(name@),
        }
    }
}

/// The shell denoted by a name, compared ASCII case-insensitively; an
/// unrecognised name is kept verbatim.
pub open spec fn shell_of(s: Seq<char>) -> ShellView {
    if eq_nocase(s, "bash"@) {
        ShellView::Bash
    } else if eq_nocase(s, "zsh"@) {
        ShellView::Zsh
    } else if eq_nocase(s, "fish"@) {
        ShellView::Fish
    } else if eq_nocase(s, "powershell"@) || eq_nocase(s, "pwsh"@) {
        ShellView::PowerShell
    } else if eq_nocase(s, "cmd"@) || eq_nocase(s, "cmd.exe"@) {
        ShellView::Cmd
    } else {
        ShellView::Unknown(s)
    }
}

/// The canonical name of a shell.
pub open spec fn shell_name(v: ShellView) -> Seq<char> {
    match v {
        ShellView::Bash => "bash"@,
        ShellView::Zsh => "zsh"@,
        ShellView::Fish => "fish"@,
        ShellView::PowerShell => "powershell"@,
        ShellView::Cmd => "cmd"@,
        ShellView::Unknown(name) => name,
    }
}

impl Shell {
    /// The shell denoted by `s`, compared ASCII case-insensitively.
    pub fn from_string(s: &str) -> (r: Self)
        ensures
            r@ == shell_of(s@),
    {
        if str_eq_nocase(s, "bash") {
            Shell::Bash
        } else if str_eq_nocase(s, "zsh") {
            Shell::Zsh
        } else if str_eq_nocase(s, "fish") {
            Shell::Fish
        } else if str_eq_nocase(s, "powershell") || str_eq_nocase(s, "pwsh") {
            Shell::PowerShell
        } else if str_eq_nocase(s, "cmd") || str_eq_nocase(s, "cmd.exe") {
            Shell::Cmd
        } else {
            Shell::Unknown(s.to_owned())
        }
    }

    /// The canonical name of the shell.
    pub fn as_string(&self) -> (r: String)
        ensures
            r@ == shell_name(self@),
    {
        match self {
            Shell::Bash => String::from_str("bash"),
            Shell::Zsh => String::from_str("zsh"),
            Shell::Fish => String::from_str("fish"),
            Shell::PowerShell => String::from_str("powershell"),
            Shell::Cmd => String::from_str("cmd"),
            Shell::Unknown(name) => name.clone(),
        }
    }

    /// Whether the shell is one the engine knows.
    pub fn is_supported(&self) -> (r: bool)
        ensures
            r == !(self@ is Unknown),
    {
        !matches!(self, Shell::Unknown(_))
    }
}

impl Clone for Shell {
    /// An equal copy of the shell.
    fn clone(&self) -> (r: Self)
        ensures
            r == *self,
    {
        match self {
            Shell::Bash => Shell::Bash,
            Shell::Zsh => Shell::Zsh,
            Shell::Fish => Shell::Fish,
            Shell::PowerShell => Shell::PowerShell,
            Shell::Cmd => Shell::Cmd,
            Shell::Unknown(name) => Shell::Unknown(name.clone()),
        }
    }
}

impl PartialEq for Shell {
    /// Two shells are equal when they are the same variant and, for unknown
    /// shells, carry the same name.
    fn eq(&self, other: &Shell) -> (r: bool) {
        match (self, other) {
            (Shell::Bash, Shell::Bash) => true,
            (Shell::Zsh, Shell::Zsh) => true,
            (Shell::Fish, Shell::Fish) => true,
            (Shell::PowerShell, Shell::PowerShell) => true,
            (Shell::Cmd, Shell::Cmd) => true,
            (Shell::Unknown(a), Shell::Unknown(b)) => str_eq(a.as_str(), b.as_str()),
            _ => false,
        }
    }
}

impl vstd::std_specs::cmp::PartialEqSpecImpl for Shell {
    open spec fn obeys_eq_spec() -> bool {
        true
    }

    open spec fn eq_spec(&self, other: &Shell) -> bool {
        self@ == other@
    }
}

/// An environment is a sequence of name/value pairs with pairwise distinct
/// names.
pub open spec fn env_wf(env: Seq<(String, String)>) -> bool {
    forall|i: int, j: int| 0 <= i < j < env.len() ==> env[i].0@ != env[j].0@
}

/// The mapping from names to values that an environment sequence denotes.
pub open spec fn env_map(env: Seq<(String, String)>) -> Map<Seq<char>, Seq<char>>
    decreases env.len(),
{
    if env.len() == 0 {
        Map::empty()
    } else {
        env_map(env.drop_last()).insert(env.last().0@, env.last().1@)
    }
}

/// A name that occurs in a well-formed environment maps to the paired value.
proof fn lemma_env_map_value(env: Seq<(String, String)>, i: int)
    requires
        env_wf(env),
        0 <= i < env.len(),
    ensures
        env_map(env).contains_key(env[i].0@),
        env_map(env)[env[i].0@] == env[i].1@,
    decreases env.len(),
{
    if i < env.len() - 1 {
        let front = env.drop_last();
        assert(forall|a: int| 0 <= a < front.len() ==> front[a] == env[a]);
        lemma_env_map_value(front, i);
        assert(env[i].0@ != env.last().0@);
    }
}

/// A name that occurs nowhere in an environment is not in its mapping.
proof fn lemma_env_map_absent(env: Seq<(String, String)>, k: Seq<char>)
    requires
        forall|i: int| 0 <= i < env.len() ==> env[i].0@ != k,
    ensures
        !env_map(env).contains_key(k),
    decreases env.len(),
{
    if env.len() > 0 {
        let front = env.drop_last();
        assert(forall|a: int| 0 <= a < front.len() ==> front[a] == env[a]);
        lemma_env_map_absent(front, k);
        assert(env.last() == env[env.len() - 1]);
    }
}

/// Replacing the pair at `i` by one with the same name updates the mapping at
/// that name only.
proof fn lemma_env_map_update(env: Seq<(String, String)>, i: int, p: (String, String))
    requires
        env_wf(env),
        0 <= i < env.len(),
        env[i].0@ == p.0@,
    ensures
        env_map(env.update(i, p)) == env_map(env).insert(p.0@, p.1@),
        env_wf(env.update(i, p)),
    decreases env.len(),
{
    let e2 = env.update(i, p);
    assert(forall|a: int| 0 <= a < env.len() && a != i ==> e2[a] == env[a]);
    if i == env.len() - 1 {
        assert(e2.drop_last() =~= env.drop_last());
        assert(env_map(e2) == env_map(env.drop_last()).insert(p.0@, p.1@));
        assert(env_map(env) == env_map(env.drop_last()).insert(env.last().0@, env.last().1@));
        assert(env.last().0@ == p.0@);
        assert(env_map(env.drop_last()).insert(p.0@, p.1@) =~= env_map(env.drop_last()).insert(
            env.last().0@,
            env.last().1@,
        ).insert(p.0@, p.1@));
    } else {
        let front = env.drop_last();
        assert(forall|a: int| 0 <= a < front.len() ==> front[a] == env[a]);
        lemma_env_map_update(front, i, p);
        assert(e2.drop_last() =~= front.update(i, p));
        assert(e2.last() == env.last());
        assert(env[i].0@ != env.last().0@);
        assert(env_map(e2) == env_map(front).insert(p.0@, p.1@).insert(
            env.last().0@,
            env.last().1@,
        ));
        assert(env_map(front).insert(p.0@, p.1@).insert(env.last().0@, env.last().1@)
            =~= env_map(front).insert(env.last().0@, env.last().1@).insert(p.0@, p.1@));
    }
}

/// Removing the pair at `i` removes exactly its name from the mapping.
proof fn lemma_env_map_remove(env: Seq<(String, String)>, i: int)
    requires
        env_wf(env),
        0 <= i < env.len(),
    ensures
        env_map(env.remove(i)) == env_map(env).remove(env[i].0@),
        env_wf(env.remove(i)),
    decreases env.len(),
{
    let e2 = env.remove(i);
    if i == env.len() - 1 {
        assert(e2 =~= env.drop_last());
        assert(forall|a: int| 0 <= a < e2.len() ==> e2[a] == env[a]);
        lemma_env_map_absent(e2, env[i].0@);
        assert(env_map(env) == env_map(e2).insert(env.last().0@, env.last().1@));
        assert(env.last() == env[i]);
        assert(env_map(e2).insert(env[i].0@, env[i].1@).remove(env[i].0@) =~= env_map(e2));
    } else {
        let front = env.drop_last();
        assert(forall|a: int| 0 <= a < front.len() ==> front[a] == env[a]);
        lemma_env_map_remove(front, i);
        assert(e2.drop_last() =~= front.remove(i));
        assert(e2.last() == env.last());
        assert(env[i].0@ != env.last().0@);
        assert(env_map(e2) == env_map(front).remove(env[i].0@).insert(
            env.last().0@,
            env.last().1@,
        ));
        assert(env_map(front).remove(env[i].0@).insert(env.last().0@, env.last().1@)
            =~= env_map(front).insert(env.last().0@, env.last().1@).remove(env[i].0@));
    }
}

/// A copy of an environment, equal pair by pair.
fn clone_env(env: &Vec<(String, String)>) -> (r: Vec<(String, String)>)
    ensures
        r@ == env@,
{
    let mut r: Vec<(String, String)> = Vec::new();
    let mut i: usize = 0;
    while i < env.len()
        invariant
            i <= env@.len(),
            r@ =~= env@.take(i as int),
        decreases env@.len() - i,
    {
        let pair = &env[i];
        r.push((pair.0.clone(), pair.1.clone()));
        i = i + 1;
    }
    proof {
        assert(env@.take(env@.len() as int) =~= env@);
    }
    r
}

/// The difference `a - b`, clamped to the range of `i64`.
pub open spec fn clamped_diff(a: int, b: int) -> int {
    if a - b > i64::MAX {
        i64::MAX as int
    } else if a - b < i64::MIN {
        i64::MIN as int
    } else {
        a - b
    }
}

/// Signed division with truncation toward zero, as the hardware divides.
pub open spec fn div_toward_zero(a: int, b: int) -> int {
    if a >= 0 {
        a / b
    } else {
        -((-a) / b)
    }
}

/// A failed shell invocation: its raw text, the shell it ran under, the time
/// it was captured, its environment and its working directory.
///
/// A command is an immutable snapshot: the builder methods return a fresh
/// value and share no mutable state with the receiver. The working directory
/// starts as the placeholder name `unknown`; a caller that knows the real
/// directory supplies it through [`Command::with_cwd`].
#[derive(Debug)]
pub struct Command {
    /// The raw invocation text.
    pub text: String,
    /// The shell that executed the command.
    pub shell: Shell,
    /// Capture time, in whole seconds since the Unix epoch.
    pub timestamp: i64,
    /// Environment variables at execution time, with pairwise distinct names.
    pub env: Vec<(String, String)>,
    /// Working directory at execution time.
    pub cwd: String,
}

/// The mathematical model of a [`Command`].
pub struct CommandView {
    pub text: Seq<char>,
    pub shell: ShellView,
    pub timestamp: int,
    pub env: Map<Seq<char>, Seq<char>>,
    pub cwd: Seq<char>,
}

impl View for Command {
    type V = CommandView;

    open spec fn view(&self) -> CommandView {
        CommandView {
            text: self.text@,
            shell: self.shell@,
            timestamp: self.timestamp as int,
            env: env_map(self.env@),
            cwd: self.cwd@,
        }
    }
}

/// The model of a command after its text is replaced.
pub open spec fn with_text_view(c: CommandView, text: Seq<char>) -> CommandView {
    CommandView { text, ..c }
}

impl Command {
    /// The environment holds pairwise distinct names.
    pub open spec fn wf(&self) -> bool {
        env_wf(self.env@)
    }

    /// A fresh command over `text` and `shell`, timestamped from the system
    /// clock, with an empty environment and the placeholder working
    /// directory.
    pub fn new(text: String, shell: Shell) -> (r: Self)
        ensures
            r.text == text,
            r.shell == shell,
            r.env@ == Seq::<(String, String)>::empty(),
            r.cwd@ == "unknown"@,
            r.wf(),
    {
        let r = Command {
            text,
            shell,
            timestamp: crate::time::current_unix_seconds(),
            env: Vec::new(),
            cwd: String::from_str("unknown"),
        };
        r
    }

    /// The command with the given environment.
    pub fn with_env(self, env: Vec<(String, String)>) -> (r: Self)
        requires
            env_wf(env@),
        ensures
            r.text == self.text,
            r.shell == self.shell,
            r.timestamp == self.timestamp,
            r.env == env,
            r.cwd == self.cwd,
            r.wf(),
    {
        Command {
            text: self.text,
            shell: self.shell,
            timestamp: self.timestamp,
            env,
            cwd: self.cwd,
        }
    }

    /// The command with the given working directory.
    pub fn with_cwd(self, cwd: String) -> (r: Self)
        ensures
            r.text == self.text,
            r.shell == self.shell,
            r.timestamp == self.timestamp,
            r.env == self.env,
            r.cwd == cwd,
    {
        Command {
            text: self.text,
            shell: self.shell,
            timestamp: self.timestamp,
            env: self.env,
            cwd,
        }
    }

    /// The command with the given capture time.
    pub fn with_timestamp(self, timestamp: i64) -> (r: Self)
        ensures
            r.text == self.text,
            r.shell == self.shell,
            r.timestamp == timestamp,
            r.env == self.env,
            r.cwd == self.cwd,
    {
        Command {
            text: self.text,
            shell: self.shell,
            timestamp,
            env: self.env,
            cwd: self.cwd,
        }
    }

    /// The raw command text.
    pub fn as_str(&self) -> (r: &str)
        ensures
            r@ == self.text@,
    {
        self.text.as_str()
    }

    /// The command text with surrounding whitespace removed.
    pub fn trimmed(&self) -> (r: &str)
        ensures
            r@ == trimmed_of(self.text@),
    {
        trim_str(self.text.as_str())
    }

    /// Whether the command text is whitespace only.
    pub fn is_empty(&self) -> (r: bool)
        ensures
            r == (trimmed_of(self.text@).len() == 0),
    {
        self.trimmed().is_empty()
    }

    /// The first token of the command text, if any.
    pub fn program(&self) -> (r: Option<String>)
        ensures
            match r {
                Some(p) => tokens_of(self.text@).len() > 0 && p@ == tokens_of(self.text@)[0],
                None => tokens_of(self.text@).len() == 0,
            },
    {
        let toks = tokenize(self.text.as_str());
        if toks.len() == 0 {
            None
        } else {
            Some(toks[0].clone())
        }
    }

    /// The tokens after the program name.
    pub fn arguments(&self) -> (r: Vec<String>)
        ensures
            views_of(r@) == args_of(self.text@),
    {
        let mut toks = tokenize(self.text.as_str());
        if toks.len() > 0 {
            toks.remove(0);
            proof {
                assert(views_of(toks@) =~= args_of(self.text@));
            }
        } else {
            proof {
                assert(views_of(toks@) =~= args_of(self.text@));
            }
        }
        toks
    }

    /// The number of arguments.
    pub fn argument_count(&self) -> (r: usize)
        ensures
            r == args_of(self.text@).len(),
    {
        self.arguments().len()
    }

    /// Whether the command has any arguments.
    pub fn has_arguments(&self) -> (r: bool)
        ensures
            r == (args_of(self.text@).len() > 0),
    {
        self.argument_count() > 0
    }

    /// The argument at `index`, if it exists.
    pub fn argument(&self, index: usize) -> (r: Option<String>)
        ensures
            match r {
                Some(a) => index < args_of(self.text@).len() && a@ == args_of(self.text@)[
                    index as int
                ],
                None => index >= args_of(self.text@).len(),
            },
    {
        let args = self.arguments();
        if index < args.len() {
            Some(args[index].clone())
        } else {
            None
        }
    }

    /// Whether the command's program equals `program`, ASCII
    /// case-insensitively.
    pub fn starts_with(&self, program: &str) -> (r: bool)
        ensures
            r == (tokens_of(self.text@).len() > 0 && eq_nocase(tokens_of(self.text@)[0], program@)),
    {
        let toks = tokenize(self.text.as_str());
        if toks.len() == 0 {
            false
        } else {
            str_eq_nocase(toks[0].as_str(), program)
        }
    }

    /// Whether some argument equals `arg`, ASCII case-insensitively.
    pub fn contains_argument(&self, arg: &str) -> (r: bool)
        ensures
            r == exists|i: int|
                0 <= i < args_of(self.text@).len() && eq_nocase(args_of(self.text@)[i], arg@),
    {
        let args = self.arguments();
        let mut i: usize = 0;
        while i < args.len()
            invariant
                i <= args@.len(),
                views_of(args@) == args_of(self.text@),
                forall|j: int| 0 <= j < i ==> !eq_nocase(args_of(self.text@)[j], arg@),
            decreases args@.len() - i,
        {
            if str_eq_nocase(args[i].as_str(), arg) {
                proof {
                    assert(args_of(self.text@)[i as int] == args@[i as int]@);
                }
                return true;
            }
            i = i + 1;
        }
        false
    }

    /// The parsed view of the command: its program, its arguments and its
    /// original text. Fails exactly when the text has no tokens.
    pub fn parse(&self) -> (r: TheFuckResult<ParsedCommand>)
        ensures
            r is Err <==> tokens_of(self.text@).len() == 0,
            r matches Err(e) ==> e@ == ErrorView::ParseError("Command text is empty"@),
            r matches Ok(p) ==> p@ == parsed_view_of(self.text@),
    {
        let mut toks = tokenize(self.text.as_str());
        if toks.len() == 0 {
            return Err(TheFuckError::parse_error("Command text is empty"));
        }
        let program = toks.remove(0);
        proof {
            assert(views_of(toks@) =~= args_of(self.text@));
        }
        Ok(ParsedCommand { program, arguments: toks, original: self.text.clone() })
    }

    /// Checks that the command text is not whitespace only; fails with a
    /// validation error otherwise.
    pub fn validate(&self) -> (r: TheFuckResult<()>)
        ensures
            r is Ok <==> trimmed_of(self.text@).len() > 0,
            r matches Err(e) ==> e@ == ErrorView::ValidationError("Command text cannot be empty"@),
    {
        if self.is_empty() {
            Err(TheFuckError::validation_error("Command text cannot be empty"))
        } else {
            Ok(())
        }
    }

    /// A fresh command equal to this one but for its text.
    pub fn with_text(&self, text: String) -> (r: Self)
        ensures
            r.text == text,
            r.shell == self.shell,
            r.timestamp == self.timestamp,
            r.env@ == self.env@,
            r.cwd == self.cwd,
            r@ == with_text_view(self@, text@),
    {
        Command {
            text,
            shell: self.shell.clone(),
            timestamp: self.timestamp,
            env: clone_env(&self.env),
            cwd: self.cwd.clone(),
        }
    }

    /// The command's age relative to `now`, in seconds, clamped to `i64`.
    pub fn age_seconds_at(&self, now: i64) -> (r: i64)
        ensures
            r as int == clamped_diff(now as int, self.timestamp as int),
    {
        let d: i128 = now as i128 - self.timestamp as i128;
        if d > i64::MAX as i128 {
            i64::MAX
        } else if d < i64::MIN as i128 {
            i64::MIN
        } else {
            d as i64
        }
    }

    /// The command's age in seconds, read against the system clock.
    pub fn age_seconds(&self) -> i64 {
        let now = crate::time::current_unix_seconds();
        self.age_seconds_at(now)
    }

    /// The command's age relative to `now`, in whole minutes.
    pub fn age_minutes_at(&self, now: i64) -> (r: i64)
        ensures
            r as int == div_toward_zero(now as int - self.timestamp as int, 60),
    {
        let d: i128 = now as i128 - self.timestamp as i128;
        if d >= 0 {
            let q: i128 = d / 60;
            q as i64
        } else {
            let q: i128 = (-d) / 60;
            -(q as i64)
        }
    }

    /// The command's age in whole minutes, read against the system clock.
    pub fn age_minutes(&self) -> i64 {
        let now = crate::time::current_unix_seconds();
        self.age_minutes_at(now)
    }

    /// Whether the command is less than an hour old relative to `now`.
    pub fn is_recent_at(&self, now: i64) -> (r: bool)
        ensures
            r == (div_toward_zero(now as int - self.timestamp as int, 60) < 60),
    {
        self.age_minutes_at(now) < 60
    }

    /// Whether the command is less than an hour old, read against the system
    /// clock.
    pub fn is_recent(&self) -> bool {
        let now = crate::time::current_unix_seconds();
        self.is_recent_at(now)
    }

    /// The value of the environment variable `key`, if set.
    pub fn get_env(&self, key: &str) -> (r: Option<&String>)
        requires
            self.wf(),
        ensures
            match r {
                Some(v) => self@.env.contains_key(key@) && v@ == self@.env[key@],
                None => !self@.env.contains_key(key@),
            },
    {
        let mut i: usize = 0;
        while i < self.env.len()
            invariant
                self.wf(),
                i <= self.env@.len(),
                forall|j: int| 0 <= j < i ==> self.env@[j].0@ != key@,
            decreases self.env@.len() - i,
        {
            if str_eq(self.env[i].0.as_str(), key) {
                proof {
                    lemma_env_map_value(self.env@, i as int);
                }
                return Some(&self.env[i].1);
            }
            i = i + 1;
        }
        proof {
            lemma_env_map_absent(self.env@, key@);
        }
        None
    }

    /// Sets the environment variable `key` to `value`, replacing any earlier
    /// value.
    pub fn set_env(&mut self, key: String, value: String)
        requires
            old(self).wf(),
        ensures
            final(self).wf(),
            final(self)@.env == old(self)@.env.insert(key@, value@),
            final(self).text == old(self).text,
            final(self).shell == old(self).shell,
            final(self).timestamp == old(self).timestamp,
            final(self).cwd == old(self).cwd,
    {
        let mut i: usize = 0;
        while i < self.env.len()
            invariant
                self == old(self),
                self.wf(),
                i <= self.env@.len(),
                forall|j: int| 0 <= j < i ==> self.env@[j].0@ != key@,
            decreases self.env@.len() - i,
        {
            if str_eq(self.env[i].0.as_str(), key.as_str()) {
                proof {
                    lemma_env_map_update(self.env@, i as int, (key, value));
                }
                self.env.set(i, (key, value));
                return ;
            }
            i = i + 1;
        }
        proof {
            lemma_env_map_absent(self.env@, key@);
            assert(self.env@.push((key, value)).drop_last() =~= self.env@);
            assert forall|a: int, b: int|
                0 <= a < b < self.env@.push((key, value)).len() implies self.env@.push(
                (key, value),
            )[a].0@ != self.env@.push((key, value))[b].0@ by {
                if b < self.env@.len() {
                } else {
                    assert(self.env@.push((key, value))[b] == (key, value));
                }
            }
        }
        self.env.push((key, value));
    }

    /// Removes the environment variable `key`, returning its value if it was
    /// set.
    pub fn remove_env(&mut self, key: &str) -> (r: Option<String>)
        requires
            old(self).wf(),
        ensures
            final(self).wf(),
            final(self)@.env == old(self)@.env.remove(key@),
            match r {
                Some(v) => old(self)@.env.contains_key(key@) && v@ == old(self)@.env[key@],
                None => !old(self)@.env.contains_key(key@),
            },
            final(self).text == old(self).text,
            final(self).shell == old(self).shell,
            final(self).timestamp == old(self).timestamp,
            final(self).cwd == old(self).cwd,
    {
        let mut i: usize = 0;
        while i < self.env.len()
            invariant
                self == old(self),
                self.wf(),
                i <= self.env@.len(),
                forall|j: int| 0 <= j < i ==> self.env@[j].0@ != key@,
            decreases self.env@.len() - i,
        {
            if str_eq(self.env[i].0.as_str(), key) {
                proof {
                    lemma_env_map_value(self.env@, i as int);
                    lemma_env_map_remove(self.env@, i as int);
                }
                let pair = self.env.remove(i);
                return Some(pair.1);
            }
            i = i + 1;
        }
        proof {
            lemma_env_map_absent(self.env@, key@);
            assert(env_map(self.env@).remove(key@) =~= env_map(self.env@));
        }
        None
    }
}

impl Clone for Command {
    /// A copy of the command equal to it field by field, sharing no mutable
    /// state with it.
    fn clone(&self) -> (r: Self)
        ensures
            r.text == self.text,
            r.shell == self.shell,
            r.timestamp == self.timestamp,
            r.env@ == self.env@,
            r.cwd == self.cwd,
            r@ == self@,
    {
        Command {
            text: self.text.clone(),
            shell: self.shell.clone(),
            timestamp: self.timestamp,
            env: clone_env(&self.env),
            cwd: self.cwd.clone(),
        }
    }
}

/// The parsed view of a command: its program, its arguments in order and the
/// original text it came from.
#[derive(Debug)]
pub struct ParsedCommand {
    /// The program name: the first token.
    pub program: String,
    /// The remaining tokens, in order.
    pub arguments: Vec<String>,
    /// The raw text the parse came from.
    pub original: String,
}

/// The mathematical model of a [`ParsedCommand`].
pub struct ParsedCommandView {
    pub program: Seq<char>,
    pub arguments: Seq<Seq<char>>,
    pub original: Seq<char>,
}

/// The parsed view that a command text with at least one token denotes.
pub open spec fn parsed_view_of(text: Seq<char>) -> ParsedCommandView {
    ParsedCommandView { program: tokens_of(text)[0], arguments: args_of(text), original: text }
}

/// Validation and parsing agree on what they reject: a command text fails
/// validation (its trimmed text is empty) exactly when it fails to parse
/// (it has no tokens); both reject precisely the whitespace-only texts.
pub proof fn lemma_validate_parse_agree(text: Seq<char>)
    ensures
        (trimmed_of(text).len() == 0) <==> (tokens_of(text).len() == 0),
{
    crate::text::lemma_trimmed_empty_iff_all_space(text);
    crate::text::lemma_tokens_empty_iff_all_space(text);
}

/// Parsing is deterministic: any two parsed views of one command text are
/// equal, so parsing the same command twice yields equal results.
pub proof fn lemma_parse_deterministic(text: Seq<char>, p1: ParsedCommandView, p2: ParsedCommandView)
    requires
        p1 == parsed_view_of(text),
        p2 == parsed_view_of(text),
    ensures
        p1 == p2,
{
}

impl View for ParsedCommand {
    type V = ParsedCommandView;

    open spec fn view(&self) -> ParsedCommandView {
        ParsedCommandView {
            program: self.program@,
            arguments: views_of(self.arguments@),
            original: self.original@,
        }
    }
}

impl ParsedCommand {
    /// A parsed command over the given parts.
    pub fn new(program: String, arguments: Vec<String>, original: String) -> (r: Self)
        ensures
            r.program == program,
            r.arguments == arguments,
            r.original == original,
    {
        ParsedCommand { program, arguments, original }
    }

    /// The program and arguments joined with single spaces.
    pub fn as_string(&self) -> (r: String)
        ensures
            r@ == joined_with_spaces(seq![self.program@] + views_of(self.arguments@)),
    {
        let ghost parts = seq![self.program@] + views_of(self.arguments@);
        let mut r = self.program.clone();
        proof {
            assert(parts.take(1) =~= seq![self.program@]);
        }
        let mut i: usize = 0;
        while i < self.arguments.len()
            invariant
                parts == seq![self.program@] + views_of(self.arguments@),
                i <= self.arguments@.len(),
                parts.len() == 1 + self.arguments@.len(),
                r@ == joined_with_spaces(parts.take(1 + i as int)),
            decreases self.arguments@.len() - i,
        {
            r.append(" ");
            proof {
                reveal_strlit(" ");
                assert(" "@ =~= seq![' ']);
            }
            r.append(self.arguments[i].as_str());
            proof {
                assert(parts.take(2 + i as int).drop_last() =~= parts.take(1 + i as int));
                assert(parts.take(2 + i as int).last() == self.arguments@[i as int]@);
            }
            i = i + 1;
        }
        proof {
            assert(parts.take(parts.len() as int) =~= parts);
        }
        r
    }
}

impl Clone for ParsedCommand {
    /// A copy of the parsed command equal to it field by field.
    fn clone(&self) -> (r: Self)
        ensures
            r.program == self.program,
            r.arguments@ == self.arguments@,
            r.original == self.original,
            r@ == self@,
    {
        ParsedCommand {
            program: self.program.clone(),
            arguments: clone_string_vec(&self.arguments),
            original: self.original.clone(),
        }
    }
}

/// A candidate replacement for a failed command, produced by a rule.
#[derive(Debug)]
pub struct CorrectedCommand {
    /// The proposed replacement text.
    pub text: String,
    /// An owned copy of the command being corrected.
    pub original: Command,
    /// The rule's weight; greater weights rank earlier.
    pub priority: u32,
    /// Whether the candidate must be confirmed before execution.
    pub requires_confirmation: bool,
    /// Human-readable warnings about consequences of running the candidate.
    pub side_effects: Vec<String>,
}

/// The mathematical model of a [`CorrectedCommand`].
pub struct CorrectedCommandView {
    pub text: Seq<char>,
    pub original: CommandView,
    pub priority: int,
    pub requires_confirmation: bool,
    pub side_effects: Seq<Seq<char>>,
}

impl View for CorrectedCommand {
    type V = CorrectedCommandView;

    open spec fn view(&self) -> CorrectedCommandView {
        CorrectedCommandView {
            text: self.text@,
            original: self.original@,
            priority: self.priority as int,
            requires_confirmation: self.requires_confirmation,
            side_effects: views_of(self.side_effects@),
        }
    }
}

impl CorrectedCommand {
    /// A candidate over the given text, originating command and priority; it
    /// requires confirmation and declares no side effects.
    pub fn new(text: String, original: Command, priority: u32) -> (r: Self)
        ensures
            r.text == text,
            r.original == original,
            r.priority == priority,
            r.requires_confirmation == true,
            r.side_effects@ == Seq::<String>::empty(),
    {
        CorrectedCommand {
            text,
            original,
            priority,
            requires_confirmation: true,
            side_effects: Vec::new(),
        }
    }

    /// The candidate with its confirmation requirement set to
    /// `requires_confirmation`.
    pub fn with_confirmation(self, requires_confirmation: bool) -> (r: Self)
        ensures
            r.text == self.text,
            r.original == self.original,
            r.priority == self.priority,
            r.requires_confirmation == requires_confirmation,
            r.side_effects == self.side_effects,
    {
        CorrectedCommand {
            text: self.text,
            original: self.original,
            priority: self.priority,
            requires_confirmation,
            side_effects: self.side_effects,
        }
    }

    /// The candidate with one more side-effect warning appended.
    pub fn with_side_effect(self, side_effect: String) -> (r: Self)
        ensures
            r.text == self.text,
            r.original == self.original,
            r.priority == self.priority,
            r.requires_confirmation == self.requires_confirmation,
            r.side_effects@ == self.side_effects@.push(side_effect),
    {
        let mut side_effects = self.side_effects;
        side_effects.push(side_effect);
        CorrectedCommand {
            text: self.text,
            original: self.original,
            priority: self.priority,
            requires_confirmation: self.requires_confirmation,
            side_effects,
        }
    }
}

impl Clone for CorrectedCommand {
    /// A copy of the candidate equal to it field by field.
    fn clone(&self) -> (r: Self)
        ensures
            r.text == self.text,
            r.original.text == self.original.text,
            r.original.shell == self.original.shell,
            r.original.timestamp == self.original.timestamp,
            r.original.env@ == self.original.env@,
            r.original.cwd == self.original.cwd,
            r.priority == self.priority,
            r.requires_confirmation == self.requires_confirmation,
            r.side_effects@ == self.side_effects@,
            r@ == self@,
    {
        CorrectedCommand {
            text: self.text.clone(),
            original: self.original.clone(),
            priority: self.priority,
            requires_confirmation: self.requires_confirmation,
            side_effects: clone_string_vec(&self.side_effects),
        }
    }
}

/// The models of a sequence of candidates.
pub open spec fn candidate_views(v: Seq<CorrectedCommand>) -> Seq<CorrectedCommandView> {
    v.map_values(|c: CorrectedCommand| c@)
}

/// The outcome of running a command, as reported by the execution
/// collaborator. The engine only consumes these values; rules never construct
/// them.
#[derive(Debug)]
pub struct CommandResult {
    /// Whether the command succeeded.
    pub success: bool,
    /// The command's exit code.
    pub exit_code: i32,
    /// Captured standard output.
    pub stdout: String,
    /// Captured standard error.
    pub stderr: String,
    /// Execution time in milliseconds.
    pub execution_time: u64,
}

/// The mathematical model of a [`CommandResult`].
pub struct CommandResultView {
    pub success: bool,
    pub exit_code: int,
    pub stdout: Seq<char>,
    pub stderr: Seq<char>,
    pub execution_time: int,
}

impl View for CommandResult {
    type V = CommandResultView;

    open spec fn view(&self) -> CommandResultView {
        CommandResultView {
            success: self.success,
            exit_code: self.exit_code as int,
            stdout: self.stdout@,
            stderr: self.stderr@,
            execution_time: self.execution_time as int,
        }
    }
}

impl CommandResult {
    /// A result over the given parts.
    pub fn new(success: bool, exit_code: i32, stdout: String, stderr: String, execution_time: u64)
        -> (r: Self)
        ensures
            r.success == success,
            r.exit_code == exit_code,
            r.stdout == stdout,
            r.stderr == stderr,
            r.execution_time == execution_time,
    {
        CommandResult { success, exit_code, stdout, stderr, execution_time }
    }

    /// A successful result carrying the given output.
    pub fn success(stdout: String) -> (r: Self)
        ensures
            r.success == true,
            r.exit_code == 0,
            r.stdout == stdout,
            r.stderr@ == Seq::<char>::empty(),
            r.execution_time == 0,
    {
        CommandResult {
            success: true,
            exit_code: 0,
            stdout,
            stderr: String::new(),
            execution_time: 0,
        }
    }

    /// A failed result carrying the given exit code and error output.
    pub fn failure(exit_code: i32, stderr: String) -> (r: Self)
        ensures
            r.success == false,
            r.exit_code == exit_code,
            r.stdout@ == Seq::<char>::empty(),
            r.stderr == stderr,
            r.execution_time == 0,
    {
        CommandResult {
            success: false,
            exit_code,
            stdout: String::new(),
            stderr,
            execution_time: 0,
        }
    }
}

impl Clone for CommandResult {
    /// An equal copy of the result.
    fn clone(&self) -> (r: Self)
        ensures
            r == *self,
    {
        CommandResult {
            success: self.success,
            exit_code: self.exit_code,
            stdout: self.stdout.clone(),
            stderr: self.stderr.clone(),
            execution_time: self.execution_time,
        }
    }
}

} // verus!
