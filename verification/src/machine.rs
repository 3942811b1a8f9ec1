//! The confirmation-and-execution state machine.
//!
//! The machine holds the rule registry, the command under correction and the
//! ranked candidate session, and advances by one total step function: the
//! caller performs the returned action (present a candidate, ask for a
//! decision, run a command) and feeds the resulting event back in. The
//! machine itself performs no I/O, so every transition is verified: a
//! candidate is executed only when it was auto-confirmed or explicitly
//! accepted, each acceptance leads to exactly one execute action, and
//! aborting or skipping never executes anything.
//!
//! When an executed candidate fails and repeat-on-failure is on, the machine
//! re-runs dispatch and ranking itself — rule evaluation is pure — using the
//! corrected command and the fresh error output, and presents the new
//! session; if the fresh dispatch yields no candidate the session ends with
//! the failed result.

use crate::dispatch::dispatch_candidates;
use crate::dispatch::evaluate;
use crate::error::ErrorView;
use crate::error::TheFuckError;
use crate::error::TheFuckResult;
use crate::ranking::rank;
use crate::ranking::ranked;
use crate::ranking::Session;
use crate::registry::applicable_views;
use crate::registry::rule_views;
use crate::registry::RuleRegistry;
use crate::registry::RuleView;
use crate::text::trimmed_of;
use crate::types::candidate_views;
use crate::types::with_text_view;
use crate::types::Command;
use crate::types::CommandResult;
use crate::types::CommandResultView;
use crate::types::CommandView;
use crate::types::CorrectedCommand;
use crate::types::CorrectedCommandView;
use crate::types::Shell;
use crate::types::ShellView;
use vstd::prelude::*;

verus! {

/// The caller's three-way answer to a confirmation request.
#[derive(Debug, Clone, Copy, PartialEq, Eq, Structural)]
pub enum Decision {
    /// Run the presented candidate.
    Accept,
    /// Pass over the presented candidate and move to the next one.
    Skip,
    /// End the session; nothing is executed.
    Abort,
}

/// How a fix session ends.
#[derive(Debug)]
pub enum Outcome {
    /// A candidate was executed and this is its result.
    Done(CommandResult),
    /// The caller aborted; nothing was executed.
    Aborted,
    /// Every candidate was passed over.
    Exhausted,
}

/// The mathematical model of an [`Outcome`].
pub enum OutcomeView {
    Done(CommandResultView),
    Aborted,
    Exhausted,
}

impl View for Outcome {
    type V = OutcomeView;

    open spec fn view(&self) -> OutcomeView {
        match self {
            Outcome::Done(res) => OutcomeView::Done(res@),
            Outcome::Aborted => OutcomeView::Aborted,
            Outcome::Exhausted => OutcomeView::Exhausted,
        }
    }
}

impl Clone for Outcome {
    /// An equal copy of the outcome.
    fn clone(&self) -> (r: Self)
        ensures
            r == *self,
    {
        match self {
            Outcome::Done(res) => Outcome::Done(res.clone()),
            Outcome::Aborted => Outcome::Aborted,
            Outcome::Exhausted => Outcome::Exhausted,
        }
    }
}

/// Where the machine stands.
#[derive(Debug)]
pub enum Phase {
    /// A candidate is being shown to the caller.
    Presenting,
    /// The machine waits for the caller's decision on the shown candidate.
    AwaitingConfirmation,
    /// The accepted candidate has been handed out for execution.
    Executing,
    /// The session is over.
    Terminal(Outcome),
}

/// The mathematical model of a [`Phase`].
pub enum PhaseView {
    Presenting,
    AwaitingConfirmation,
    Executing,
    Terminal(OutcomeView),
}

impl View for Phase {
    type V = PhaseView;

    open spec fn view(&self) -> PhaseView {
        match self {
            Phase::Presenting => PhaseView::Presenting,
            Phase::AwaitingConfirmation => PhaseView::AwaitingConfirmation,
            Phase::Executing => PhaseView::Executing,
            Phase::Terminal(o) => PhaseView::Terminal(o@),
        }
    }
}

/// What the caller tells the machine.
#[derive(Debug)]
pub enum Event {
    /// Present the candidate under the cursor.
    Proceed,
    /// The caller answered a confirmation request.
    Decided(Decision),
    /// The execution collaborator finished running the accepted candidate.
    Completed(CommandResult),
}

/// The mathematical model of an [`Event`].
pub enum EventView {
    Proceed,
    Decided(Decision),
    Completed(CommandResultView),
}

impl View for Event {
    type V = EventView;

    open spec fn view(&self) -> EventView {
        match self {
            Event::Proceed => EventView::Proceed,
            Event::Decided(d) => EventView::Decided(*d),
            Event::Completed(res) => EventView::Completed(res@),
        }
    }
}

/// What the caller must do next.
#[derive(Debug)]
pub enum Action {
    /// Show this candidate, then feed in `Proceed`.
    Present(CorrectedCommand),
    /// Surface this candidate's side effects, obtain a decision, and feed it
    /// in.
    AskConfirmation(CorrectedCommand),
    /// Run this text under this shell in this working directory, exactly
    /// once, and feed in the result.
    Execute(String, Shell, String),
    /// The session is over with this outcome.
    Finish(Outcome),
    /// The event did not belong to the current phase; nothing changed.
    Ignored,
}

/// The mathematical model of an [`Action`].
pub enum ActionView {
    Present(CorrectedCommandView),
    AskConfirmation(CorrectedCommandView),
    Execute(Seq<char>, ShellView, Seq<char>),
    Finish(OutcomeView),
    Ignored,
}

impl View for Action {
    type V = ActionView;

    open spec fn view(&self) -> ActionView {
        match self {
            Action::Present(c) => ActionView::Present(c@),
            Action::AskConfirmation(c) => ActionView::AskConfirmation(c@),
            Action::Execute(text, shell, cwd) => ActionView::Execute(text@, shell@, cwd@),
            Action::Finish(o) => ActionView::Finish(o@),
            Action::Ignored => ActionView::Ignored,
        }
    }
}

/// The mathematical model of a [`FixMachine`].
pub struct FixMachineView {
    pub rules: Seq<RuleView>,
    pub command: CommandView,
    pub candidates: Seq<CorrectedCommandView>,
    pub cursor: int,
    pub phase: PhaseView,
    pub assume_yes: bool,
    pub repeat_on_failure: bool,
}

/// While the session is live, the cursor rests on a candidate.
pub open spec fn machine_wf(m: FixMachineView) -> bool {
    !(m.phase is Terminal) ==> 0 <= m.cursor < m.candidates.len()
}

/// The execute action for the candidate under the cursor: its text, run
/// under its originating command's shell and working directory.
pub open spec fn exec_action(m: FixMachineView) -> ActionView {
    ActionView::Execute(
        m.candidates[m.cursor].text,
        m.candidates[m.cursor].original.shell,
        m.candidates[m.cursor].original.cwd,
    )
}

/// The fresh ranked session a repeat dispatches: the accepted candidate's
/// text becomes the command under correction and the new error output is the
/// input.
pub open spec fn repeat_candidates(m: FixMachineView, res: CommandResultView) -> Seq<
    CorrectedCommandView,
> {
    let cmd = with_text_view(m.candidates[m.cursor].original, m.candidates[m.cursor].text);
    ranked(dispatch_candidates(applicable_views(m.rules, cmd.shell), cmd, res.stderr))
}

/// The machine's one total transition function: the next machine and the
/// action the caller must perform. An event that does not belong to the
/// current phase changes nothing and is reported as ignored; a terminal
/// machine answers every event by restating its outcome.
pub open spec fn spec_step(m: FixMachineView, e: EventView) -> (FixMachineView, ActionView) {
    match m.phase {
        PhaseView::Presenting => match e {
            EventView::Proceed => {
                let c = m.candidates[m.cursor];
                if !c.requires_confirmation || m.assume_yes {
                    (FixMachineView { phase: PhaseView::Executing, ..m }, exec_action(m))
                } else {
                    (
                        FixMachineView { phase: PhaseView::AwaitingConfirmation, ..m },
                        ActionView::AskConfirmation(c),
                    )
                }
            },
            _ => (m, ActionView::Ignored),
        },
        PhaseView::AwaitingConfirmation => match e {
            EventView::Decided(d) => match d {
                Decision::Accept => (
                    FixMachineView { phase: PhaseView::Executing, ..m },
                    exec_action(m),
                ),
                Decision::Skip => {
                    if m.cursor + 1 < m.candidates.len() {
                        (
                            FixMachineView {
                                cursor: m.cursor + 1,
                                phase: PhaseView::Presenting,
                                ..m
                            },
                            ActionView::Present(m.candidates[m.cursor + 1]),
                        )
                    } else {
                        (
                            FixMachineView {
                                phase: PhaseView::Terminal(OutcomeView::Exhausted),
                                ..m
                            },
                            ActionView::Finish(OutcomeView::Exhausted),
                        )
                    }
                },
                Decision::Abort => (
                    FixMachineView { phase: PhaseView::Terminal(OutcomeView::Aborted), ..m },
                    ActionView::Finish(OutcomeView::Aborted),
                ),
            },
            _ => (m, ActionView::Ignored),
        },
        PhaseView::Executing => match e {
            EventView::Completed(res) => {
                if !res.success && m.repeat_on_failure {
                    let cmd = with_text_view(
                        m.candidates[m.cursor].original,
                        m.candidates[m.cursor].text,
                    );
                    let fresh = repeat_candidates(m, res);
                    if fresh.len() > 0 {
                        (
                            FixMachineView {
                                command: cmd,
                                candidates: fresh,
                                cursor: 0,
                                phase: PhaseView::Presenting,
                                ..m
                            },
                            ActionView::Present(fresh[0]),
                        )
                    } else {
                        (
                            FixMachineView {
                                phase: PhaseView::Terminal(OutcomeView::Done(res)),
                                ..m
                            },
                            ActionView::Finish(OutcomeView::Done(res)),
                        )
                    }
                } else {
                    (
                        FixMachineView { phase: PhaseView::Terminal(OutcomeView::Done(res)), ..m },
                        ActionView::Finish(OutcomeView::Done(res)),
                    )
                }
            },
            _ => (m, ActionView::Ignored),
        },
        PhaseView::Terminal(o) => (m, ActionView::Finish(o)),
    }
}

/// The confirm-then-execute engine for one fix request.
#[derive(Debug)]
pub struct FixMachine {
    /// The rules dispatch draws on, also for repeats.
    pub registry: RuleRegistry,
    /// The command under correction.
    pub command: Command,
    /// The ranked candidates and the cursor over them.
    pub session: Session,
    /// Where the machine stands.
    pub phase: Phase,
    /// Execute without asking, even when a candidate requires confirmation.
    pub assume_yes: bool,
    /// After a failed execution, dispatch again on the fresh error output.
    pub repeat_on_failure: bool,
}

impl View for FixMachine {
    type V = FixMachineView;

    open spec fn view(&self) -> FixMachineView {
        FixMachineView {
            rules: rule_views(self.registry.rules@),
            command: self.command@,
            candidates: candidate_views(self.session.candidates@),
            cursor: self.session.cursor as int,
            phase: self.phase@,
            assume_yes: self.assume_yes,
            repeat_on_failure: self.repeat_on_failure,
        }
    }
}

impl FixMachine {
    /// While the session is live, the cursor rests on a candidate.
    pub open spec fn wf(&self) -> bool {
        machine_wf(self@)
    }

    /// A machine over a validated command: the command is checked, every
    /// applicable rule is dispatched on it and the captured `stderr`, and the
    /// candidates are ranked. Fails with a validation error, before any rule
    /// is evaluated, when the command text is whitespace only; fails with
    /// no-rules-found when the ranked candidate sequence is empty.
    pub fn new(
        registry: RuleRegistry,
        command: Command,
        stderr: &str,
        assume_yes: bool,
        repeat_on_failure: bool,
    ) -> (r: TheFuckResult<FixMachine>)
        ensures
            r is Err <==> trimmed_of(command.text@).len() == 0 || ranked(
                dispatch_candidates(
                    applicable_views(rule_views(registry.rules@), command.shell@),
                    command@,
                    stderr@,
                ),
            ).len() == 0,
            r matches Err(e) ==> (trimmed_of(command.text@).len() == 0 ==> e@
                == ErrorView::ValidationError("Command text cannot be empty"@)),
            r matches Err(e) ==> (trimmed_of(command.text@).len() > 0 ==> e@
                == ErrorView::NoRulesFound(command.text@)),
            r matches Ok(m) ==> {
                &&& m@.rules == rule_views(registry.rules@)
                &&& m@.command == command@
                &&& m@.candidates == ranked(
                    dispatch_candidates(
                        applicable_views(rule_views(registry.rules@), command.shell@),
                        command@,
                        stderr@,
                    ),
                )
                &&& m@.cursor == 0
                &&& m@.phase is Presenting
                &&& m@.assume_yes == assume_yes
                &&& m@.repeat_on_failure == repeat_on_failure
                &&& m.wf()
            },
    {
        match command.validate() {
            Err(e) => Err(e),
            Ok(()) => {
                let outcome = evaluate(&registry, &command, stderr);
                let ranked_candidates = rank(&outcome.candidates);
                if ranked_candidates.len() == 0 {
                    Err(TheFuckError::no_rules_found(command.as_str()))
                } else {
                    Ok(
                        FixMachine {
                            registry,
                            command,
                            session: Session::new(ranked_candidates),
                            phase: Phase::Presenting,
                            assume_yes,
                            repeat_on_failure,
                        },
                    )
                }
            },
        }
    }

    /// The candidate under the cursor, if the session is live.
    pub fn current_candidate(&self) -> (r: Option<&CorrectedCommand>)
        requires
            self.wf(),
        ensures
            match r {
                Some(c) => !(self@.phase is Terminal) && c@ == self@.candidates[self@.cursor],
                None => self@.phase is Terminal,
            },
    {
        match &self.phase {
            Phase::Terminal(_) => None,
            _ => Some(self.session.current()),
        }
    }

    /// Performs one transition: consumes the event and returns the action
    /// the caller must perform next, exactly as [`spec_step`] describes.
    pub fn step(&mut self, event: Event) -> (action: Action)
        requires
            old(self).wf(),
        ensures
            final(self).wf(),
            (final(self)@, action@) == spec_step(old(self)@, event@),
    {
        let ghost m = old(self)@;
        match &self.phase {
            Phase::Presenting => match event {
                Event::Proceed => {
                    let c = self.session.current();
                    if !c.requires_confirmation || self.assume_yes {
                        let text = c.text.clone();
                        let shell = c.original.shell.clone();
                        let cwd = c.original.cwd.clone();
                        self.phase = Phase::Executing;
                        Action::Execute(text, shell, cwd)
                    } else {
                        let candidate = c.clone();
                        self.phase = Phase::AwaitingConfirmation;
                        Action::AskConfirmation(candidate)
                    }
                },
                _ => Action::Ignored,
            },
            Phase::AwaitingConfirmation => match event {
                Event::Decided(Decision::Accept) => {
                    let c = self.session.current();
                    let text = c.text.clone();
                    let shell = c.original.shell.clone();
                    let cwd = c.original.cwd.clone();
                    self.phase = Phase::Executing;
                    Action::Execute(text, shell, cwd)
                },
                Event::Decided(Decision::Skip) => {
                    if self.session.next() {
                        self.phase = Phase::Presenting;
                        Action::Present(self.session.current().clone())
                    } else {
                        self.phase = Phase::Terminal(Outcome::Exhausted);
                        Action::Finish(Outcome::Exhausted)
                    }
                },
                Event::Decided(Decision::Abort) => {
                    self.phase = Phase::Terminal(Outcome::Aborted);
                    Action::Finish(Outcome::Aborted)
                },
                _ => Action::Ignored,
            },
            Phase::Executing => match event {
                Event::Completed(res) => {
                    if !res.success && self.repeat_on_failure {
                        let accepted = self.session.current();
                        let new_command = accepted.original.with_text(accepted.text.clone());
                        let outcome = evaluate(&self.registry, &new_command, res.stderr.as_str());
                        let fresh = rank(&outcome.candidates);
                        proof {
                            assert(candidate_views(fresh@) == repeat_candidates(m, res@));
                        }
                        if fresh.len() > 0 {
                            self.command = new_command;
                            self.session = Session::new(fresh);
                            self.phase = Phase::Presenting;
                            Action::Present(self.session.current().clone())
                        } else {
                            self.phase = Phase::Terminal(Outcome::Done(res.clone()));
                            Action::Finish(Outcome::Done(res))
                        }
                    } else {
                        self.phase = Phase::Terminal(Outcome::Done(res.clone()));
                        Action::Finish(Outcome::Done(res))
                    }
                },
                _ => Action::Ignored,
            },
            Phase::Terminal(o) => Action::Finish(o.clone()),
        }
    }
}

/// The process exit code an outcome maps to. The convention this engine
/// fixes: a completed execution reports 0 when the command succeeded and 1
/// when it failed, an exhausted session (every candidate declined) reports
/// 4, and an aborted session reports 130, the conventional interrupted code.
/// Validation and parse failures and the no-rules condition are errors, not
/// outcomes; their codes are fixed by `TheFuckError::exit_code`.
pub fn exit_code(outcome: &Outcome) -> (c: i32)
    ensures
        c == match outcome@ {
            OutcomeView::Done(res) => if res.success { 0int } else { 1int },
            OutcomeView::Aborted => 130int,
            OutcomeView::Exhausted => 4int,
        },
{
    match outcome {
        Outcome::Done(res) => if res.success { 0 } else { 1 },
        Outcome::Aborted => 130,
        Outcome::Exhausted => 4,
    }
}

/// A candidate that requires confirmation, with no auto-yes mode active, is
/// never executed straight from presentation: from `Presenting` the machine
/// can only move to `AwaitingConfirmation`, and from there the `Executing`
/// phase is reached by an explicit accept decision alone.
pub proof fn lemma_confirmation_gates_execution(m: FixMachineView, e: EventView)
    requires
        machine_wf(m),
        !(m.phase is Executing),
        m.phase is Presenting ==> m.candidates[m.cursor].requires_confirmation && !m.assume_yes,
    ensures
        spec_step(m, e).0.phase is Executing ==> m.phase is AwaitingConfirmation && e
            == EventView::Decided(Decision::Accept),
{
}

/// An execute action is emitted exactly when a live machine enters the
/// `Executing` phase; it always names the text, shell and working directory
/// of the candidate under the cursor; and it arises only from an
/// auto-confirmed presentation or an explicit accept. In particular a skip
/// or abort decision never executes anything.
pub proof fn lemma_execute_only_on_accept(m: FixMachineView, e: EventView)
    requires
        machine_wf(m),
    ensures
        (spec_step(m, e).1 is Execute) <==> (!(m.phase is Executing) && spec_step(
            m,
            e,
        ).0.phase is Executing),
        spec_step(m, e).1 matches ActionView::Execute(text, shell, cwd) ==> {
            &&& text == m.candidates[m.cursor].text
            &&& shell == m.candidates[m.cursor].original.shell
            &&& cwd == m.candidates[m.cursor].original.cwd
            &&& (m.phase is Presenting && (!m.candidates[m.cursor].requires_confirmation
                || m.assume_yes)) || (m.phase is AwaitingConfirmation && e == EventView::Decided(
                Decision::Accept,
            ))
        },
        e == EventView::Decided(Decision::Skip) || e == EventView::Decided(Decision::Abort)
            ==> !(spec_step(m, e).1 is Execute),
{
}

/// One step preserves the machine's well-formedness, so any chain of steps
/// keeps the cursor on a candidate while the session is live.
pub proof fn lemma_step_preserves_wf(m: FixMachineView, e: EventView)
    requires
        machine_wf(m),
    ensures
        machine_wf(spec_step(m, e).0),
{
}

/// An accepted candidate is executed exactly once: a step that emits an
/// execute action leaves the machine in the `Executing` phase, and no event
/// can draw a second execute action out of that phase — only a completion
/// moves it on, to a terminal state or to presenting a fresh session.
pub proof fn lemma_execute_never_twice(m: FixMachineView, e1: EventView, e2: EventView)
    requires
        machine_wf(m),
    ensures
        spec_step(m, e1).1 is Execute ==> !(spec_step(spec_step(m, e1).0, e2).1 is Execute),
{
    lemma_execute_only_on_accept(m, e1);
}

/// A terminal machine is absorbing: every further event leaves it unchanged,
/// restates its outcome and never executes anything.
pub proof fn lemma_terminal_absorbing(m: FixMachineView, e: EventView)
    requires
        m.phase is Terminal,
    ensures
        spec_step(m, e).0 == m,
        spec_step(m, e).1 == ActionView::Finish(m.phase->Terminal_0),
        !(spec_step(m, e).1 is Execute),
{
}

/// Dispatch and ranking are deterministic: for a fixed rule sequence,
/// command and error output, any two ranked candidate sequences obtained
/// from them are equal.
pub proof fn lemma_dispatch_rank_deterministic(
    rules: Seq<RuleView>,
    cmd: CommandView,
    stderr: Seq<char>,
    a: Seq<CorrectedCommandView>,
    b: Seq<CorrectedCommandView>,
)
    requires
        a == ranked(dispatch_candidates(applicable_views(rules, cmd.shell), cmd, stderr)),
        b == ranked(dispatch_candidates(applicable_views(rules, cmd.shell), cmd, stderr)),
    ensures
        a == b,
{
}

} // verus!
