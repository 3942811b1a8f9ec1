//! Rule dispatch: evaluating every applicable, enabled rule against a failed
//! command and its captured error output.
//!
//! Each rule is evaluated against the same read-only snapshot, so the result
//! is a function of the registry, the command and the error output alone. A
//! rule whose corrector faults is recorded as a diagnostic and excluded from
//! the candidates; it never aborts the evaluation of the remaining rules. The
//! accumulation order of the candidates is registration order, which keeps
//! the later ranking deterministic.

use crate::error::ErrorView;
use crate::error::TheFuckError;
use crate::registry::applicable_views;
use crate::registry::corrector_fault;
use crate::registry::corrector_texts;
use crate::registry::matcher_matches;
use crate::registry::rule_views;
use crate::registry::RuleRegistry;
use crate::registry::RuleView;
use crate::text::clone_string_vec;
use crate::text::tokenize;
use crate::text::tokens_of;
use crate::text::views_of;
use crate::types::candidate_views;
use crate::types::Command;
use crate::types::CommandView;
use crate::types::CorrectedCommand;
use crate::types::CorrectedCommandView;
use vstd::prelude::*;

verus! {

/// The record of one rule's isolated failure during dispatch.
#[derive(Debug)]
pub struct RuleDiagnostic {
    /// The identifier of the rule that failed.
    pub rule_id: String,
    /// The error the rule's corrector reported.
    pub error: TheFuckError,
}

/// The mathematical model of a [`RuleDiagnostic`].
pub struct RuleDiagnosticView {
    pub rule_id: Seq<char>,
    pub error: ErrorView,
}

impl View for RuleDiagnostic {
    type V = RuleDiagnosticView;

    open spec fn view(&self) -> RuleDiagnosticView {
        RuleDiagnosticView { rule_id: self.rule_id@, error: self.error@ }
    }
}

/// The models of a sequence of diagnostics.
pub open spec fn diag_views(v: Seq<RuleDiagnostic>) -> Seq<RuleDiagnosticView> {
    v.map_values(|d: RuleDiagnostic| d@)
}

/// Everything one dispatch run produces: the raw candidate set in rule
/// order, the per-rule failure diagnostics, and how many rules were
/// evaluated.
#[derive(Debug)]
pub struct DispatchOutcome {
    /// The candidates the firing rules produced, in registration order.
    pub candidates: Vec<CorrectedCommand>,
    /// One record per rule whose corrector faulted.
    pub diagnostics: Vec<RuleDiagnostic>,
    /// How many applicable, enabled rules were evaluated.
    pub rules_evaluated: usize,
}

/// Whether a rule's matcher fires on a command text and its error output.
pub open spec fn rule_fires(rule: RuleView, text: Seq<char>, stderr: Seq<char>) -> bool {
    matcher_matches(rule.matcher, text, stderr)
}

/// Whether a rule fires and its corrector then faults.
pub open spec fn rule_faults(rule: RuleView, text: Seq<char>, stderr: Seq<char>) -> bool {
    rule_fires(rule, text, stderr) && corrector_fault(rule.corrector, tokens_of(text))
}

/// The candidate a rule wraps around one replacement text: the text, a copy
/// of the failed command, and the rule's priority, confirmation requirement
/// and side-effect warnings.
pub open spec fn candidate_view(text: Seq<char>, rule: RuleView, cmd: CommandView)
    -> CorrectedCommandView {
    CorrectedCommandView {
        text,
        original: cmd,
        priority: rule.priority,
        requires_confirmation: rule.requires_confirmation,
        side_effects: rule.side_effects,
    }
}

/// The candidates one rule contributes for a command and its error output:
/// none unless its matcher fires and its corrector does not fault.
pub open spec fn rule_candidates(rule: RuleView, cmd: CommandView, stderr: Seq<char>) -> Seq<
    CorrectedCommandView,
> {
    if rule_fires(rule, cmd.text, stderr) && !corrector_fault(rule.corrector, tokens_of(cmd.text)) {
        corrector_texts(rule.corrector, tokens_of(cmd.text)).map_values(
            |t: Seq<char>| candidate_view(t, rule, cmd),
        )
    } else {
        Seq::empty()
    }
}

/// The candidates of a rule sequence, in rule order.
pub open spec fn dispatch_candidates(rules: Seq<RuleView>, cmd: CommandView, stderr: Seq<char>)
    -> Seq<CorrectedCommandView>
    decreases rules.len(),
{
    if rules.len() == 0 {
        Seq::empty()
    } else {
        dispatch_candidates(rules.drop_last(), cmd, stderr) + rule_candidates(
            rules.last(),
            cmd,
            stderr,
        )
    }
}

/// The diagnostics of a rule sequence: one per faulting rule, in rule order.
pub open spec fn dispatch_diags(rules: Seq<RuleView>, text: Seq<char>, stderr: Seq<char>) -> Seq<
    RuleDiagnosticView,
>
    decreases rules.len(),
{
    if rules.len() == 0 {
        Seq::empty()
    } else {
        dispatch_diags(rules.drop_last(), text, stderr) + (
        if rule_faults(rules.last(), text, stderr) {
            seq![
                RuleDiagnosticView {
                    rule_id: rules.last().id,
                    error: ErrorView::RuleExecutionError("Corrector token index out of range"@),
                },
            ]
        } else {
            Seq::empty()
        })
    }
}

/// Evaluates every applicable, enabled rule of `registry` against `command`
/// and the captured `stderr`, isolating per-rule faults.
pub fn evaluate(registry: &RuleRegistry, command: &Command, stderr: &str) -> (r: DispatchOutcome)
    ensures
        candidate_views(r.candidates@) == dispatch_candidates(
            applicable_views(rule_views(registry.rules@), command.shell@),
            command@,
            stderr@,
        ),
        diag_views(r.diagnostics@) == dispatch_diags(
            applicable_views(rule_views(registry.rules@), command.shell@),
            command.text@,
            stderr@,
        ),
        r.rules_evaluated == applicable_views(rule_views(registry.rules@), command.shell@).len(),
{
    let ghost app = applicable_views(rule_views(registry.rules@), command.shell@);
    let rules = registry.list_for_shell(&command.shell);
    let tokens = tokenize(command.as_str());
    let mut candidates: Vec<CorrectedCommand> = Vec::new();
    let mut diagnostics: Vec<RuleDiagnostic> = Vec::new();
    let mut i: usize = 0;
    proof {
        assert(candidate_views(candidates@) =~= dispatch_candidates(app.take(0), command@, stderr@));
        assert(diag_views(diagnostics@) =~= dispatch_diags(app.take(0), command.text@, stderr@));
    }
    while i < rules.len()
        invariant
            app == applicable_views(rule_views(registry.rules@), command.shell@),
            rule_views(rules@) == app,
            views_of(tokens@) == tokens_of(command.text@),
            i <= rules@.len(),
            candidate_views(candidates@) == dispatch_candidates(
                app.take(i as int),
                command@,
                stderr@,
            ),
            diag_views(diagnostics@) == dispatch_diags(app.take(i as int), command.text@, stderr@),
        decreases rules@.len() - i,
    {
        let ghost rv = app[i as int];
        proof {
            assert(rule_views(rules@)[i as int] == rules@[i as int]@);
            assert(app.take(i as int + 1).drop_last() =~= app.take(i as int));
            assert(app.take(i as int + 1).last() == rv);
        }
        if rules[i].matcher.matches(command, stderr) {
            match rules[i].corrector.apply(&tokens) {
                Ok(texts) => {
                    let ghost contributed = rule_candidates(rv, command@, stderr@);
                    proof {
                        assert(contributed == corrector_texts(
                            rv.corrector,
                            tokens_of(command.text@),
                        ).map_values(|t: Seq<char>| candidate_view(t, rv, command@)));
                        assert(contributed.take(0) =~= Seq::<CorrectedCommandView>::empty());
                    }
                    let mut j: usize = 0;
                    while j < texts.len()
                        invariant
                            contributed == rule_candidates(rv, command@, stderr@),
                            views_of(texts@) == corrector_texts(
                                rv.corrector,
                                tokens_of(command.text@),
                            ),
                            rule_views(rules@) == app,
                            i < rules@.len(),
                            rules@[i as int]@ == rv,
                            contributed.len() == texts@.len(),
                            j <= texts@.len(),
                            candidate_views(candidates@) == dispatch_candidates(
                                app.take(i as int),
                                command@,
                                stderr@,
                            ) + contributed.take(j as int),
                        decreases texts@.len() - j,
                    {
                        proof {
                            assert(contributed[j as int] == candidate_view(
                                texts@[j as int]@,
                                rv,
                                command@,
                            ));
                        }
                        let candidate = CorrectedCommand {
                            text: texts[j].clone(),
                            original: command.clone(),
                            priority: rules[i].priority,
                            requires_confirmation: rules[i].requires_confirmation,
                            side_effects: clone_string_vec(&rules[i].side_effects),
                        };
                        proof {
                            assert(candidate@ == contributed[j as int]);
                        }
                        let ghost prev = candidates@;
                        candidates.push(candidate);
                        proof {
                            assert(candidate_views(candidates@) =~= candidate_views(prev).push(
                                candidate@,
                            ));
                            assert(contributed.take(j as int + 1) =~= contributed.take(
                                j as int,
                            ).push(contributed[j as int]));
                            assert(candidate_views(prev).push(candidate@) =~= dispatch_candidates(
                                app.take(i as int),
                                command@,
                                stderr@,
                            ) + contributed.take(j as int + 1));
                        }
                        j = j + 1;
                    }
                    proof {
                        assert(contributed.take(contributed.len() as int) =~= contributed);
                        assert(dispatch_candidates(app.take(i as int + 1), command@, stderr@)
                            == dispatch_candidates(app.take(i as int), command@, stderr@)
                            + contributed);
                        assert(!rule_faults(rv, command.text@, stderr@));
                        assert(dispatch_diags(app.take(i as int + 1), command.text@, stderr@)
                            =~= dispatch_diags(app.take(i as int), command.text@, stderr@));
                    }
                },
                Err(e) => {
                    let diagnostic = RuleDiagnostic { rule_id: rules[i].id.clone(), error: e };
                    proof {
                        assert(rule_faults(rv, command.text@, stderr@));
                        assert(rule_candidates(rv, command@, stderr@) =~= Seq::<
                            CorrectedCommandView,
                        >::empty());
                        assert(dispatch_candidates(app.take(i as int + 1), command@, stderr@)
                            =~= dispatch_candidates(app.take(i as int), command@, stderr@));
                    }
                    diagnostics.push(diagnostic);
                    proof {
                        assert(diag_views(diagnostics@) =~= dispatch_diags(
                            app.take(i as int),
                            command.text@,
                            stderr@,
                        ) + seq![
                            RuleDiagnosticView {
                                rule_id: rv.id,
                                error: ErrorView::RuleExecutionError(
                                    "Corrector token index out of range"@,
                                ),
                            },
                        ]);
                    }
                },
            }
        } else {
            proof {
                assert(!rule_fires(rv, command.text@, stderr@));
                assert(rule_candidates(rv, command@, stderr@) =~= Seq::<
                    CorrectedCommandView,
                >::empty());
                assert(dispatch_candidates(app.take(i as int + 1), command@, stderr@)
                    =~= dispatch_candidates(app.take(i as int), command@, stderr@));
                assert(dispatch_diags(app.take(i as int + 1), command.text@, stderr@)
                    =~= dispatch_diags(app.take(i as int), command.text@, stderr@));
            }
        }
        i = i + 1;
    }
    proof {
        assert(app.take(app.len() as int) =~= app);
    }
    DispatchOutcome { candidates, diagnostics, rules_evaluated: rules.len() }
}

} // verus!
