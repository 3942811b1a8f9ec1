//! Correction rules and the rule registry.
//!
//! A rule is a closed capability pair: a matcher (a pure predicate over a
//! command and its captured error output) and a corrector (a pure generator
//! of zero or more replacement texts), together with a priority, a shell
//! scope and an enabled flag. The registry is append-only and preserves
//! registration order, which later serves as the ranking tie-break.

use crate::error::ErrorView;
use crate::error::TheFuckError;
use crate::error::TheFuckResult;
use crate::text::clone_string_vec;
use crate::text::contains_seq;
use crate::text::eq_nocase;
use crate::text::join_with_spaces;
use crate::text::joined_with_spaces;
use crate::text::str_contains;
use crate::text::str_eq;
use crate::text::str_eq_nocase;
use crate::text::tokens_of;
use crate::text::views_of;
use crate::types::Command;
use crate::types::Shell;
use crate::types::ShellView;
use vstd::prelude::*;
use vstd::pervasive::VecAdditionalExecFns;
use vstd::string::StringExecFns;

verus! {

/// The shells a rule applies to: every shell, or a listed few.
#[derive(Debug)]
pub enum ShellScope {
    /// The rule applies under every shell.
    All,
    /// The rule applies only under the listed shells.
    Only(Vec<Shell>),
}

/// The mathematical model of a [`ShellScope`].
pub enum ShellScopeView {
    All,
    Only(Seq<ShellView>),
}

impl View for ShellScope {
    type V = ShellScopeView;

    open spec fn view(&self) -> ShellScopeView {
        match self {
            ShellScope::All => ShellScopeView::All,
            ShellScope::Only(shells) => ShellScopeView::Only(
                shells@.map_values(|s: Shell| s@),
            ),
        }
    }
}

/// Whether a shell occurs in a list of shells.
pub open spec fn shell_listed(list: Seq<ShellView>, shell: ShellView) -> bool {
    exists|i: int| 0 <= i < list.len() && list[i] == shell
}

/// Whether a scope includes a shell.
pub open spec fn scope_includes(scope: ShellScopeView, shell: ShellView) -> bool {
    match scope {
        ShellScopeView::All => true,
        ShellScopeView::Only(list) => shell_listed(list, shell),
    }
}

impl ShellScope {
    /// Whether the scope includes `shell`.
    pub fn includes(&self, shell: &Shell) -> (r: bool)
        ensures
            r == scope_includes(self@, shell@),
    {
        match self {
            ShellScope::All => true,
            ShellScope::Only(list) => {
                let ghost views = list@.map_values(|s: Shell| s@);
                let mut i: usize = 0;
                while i < list.len()
                    invariant
                        self@ == ShellScopeView::Only(views),
                        views == list@.map_values(|s: Shell| s@),
                        i <= list@.len(),
                        forall|j: int| 0 <= j < i ==> views[j] != shell@,
                    decreases list@.len() - i,
                {
                    if list[i] == *shell {
                        proof {
                            assert(list@[i as int]@ == shell@);
                            assert(views[i as int] == list@[i as int]@);
                            assert(views[i as int] == shell@);
                            assert(shell_listed(views, shell@));
                        }
                        return true;
                    }
                    i = i + 1;
                }
                false
            },
        }
    }
}

impl Clone for ShellScope {
    /// A copy of the scope with an equal model.
    fn clone(&self) -> (r: Self)
        ensures
            r@ == self@,
    {
        match self {
            ShellScope::All => ShellScope::All,
            ShellScope::Only(list) => {
                let mut out: Vec<Shell> = Vec::new();
                let mut i: usize = 0;
                while i < list.len()
                    invariant
                        i <= list@.len(),
                        out@ =~= list@.take(i as int),
                    decreases list@.len() - i,
                {
                    out.push(list[i].clone());
                    i = i + 1;
                }
                proof {
                    assert(list@.take(list@.len() as int) =~= list@);
                }
                ShellScope::Only(out)
            },
        }
    }
}

/// The matcher capability of a rule: the conditions a command and its error
/// output must meet for the rule to fire. A condition left unset always
/// holds.
#[derive(Debug)]
pub struct Matcher {
    /// If set, the command's program (its first token) must equal this, ASCII
    /// case-insensitively.
    pub program: Option<String>,
    /// If set, the captured error output must contain this fragment.
    pub stderr_fragment: Option<String>,
}

/// The mathematical model of a [`Matcher`].
pub struct MatcherView {
    pub program: Option<Seq<char>>,
    pub stderr_fragment: Option<Seq<char>>,
}

impl View for Matcher {
    type V = MatcherView;

    open spec fn view(&self) -> MatcherView {
        MatcherView {
            program: match self.program {
                Some(ref p) => Some(p@),
                None => None,
            },
            stderr_fragment: match self.stderr_fragment {
                Some(ref f) => Some(f@),
                None => None,
            },
        }
    }
}

/// Whether a matcher fires on a command text and its error output.
pub open spec fn matcher_matches(m: MatcherView, text: Seq<char>, stderr: Seq<char>) -> bool {
    &&& match m.program {
        Some(p) => tokens_of(text).len() > 0 && eq_nocase(tokens_of(text)[0], p),
        None => true,
    }
    &&& match m.stderr_fragment {
        Some(f) => contains_seq(stderr, f),
        None => true,
    }
}

impl Matcher {
    /// Whether the matcher fires on `command` with the captured `stderr`.
    pub fn matches(&self, command: &Command, stderr: &str) -> (r: bool)
        ensures
            r == matcher_matches(self@, command.text@, stderr@),
    {
        let program_ok = match &self.program {
            Some(p) => command.starts_with(p.as_str()),
            None => true,
        };
        if !program_ok {
            return false;
        }
        match &self.stderr_fragment {
            Some(f) => str_contains(stderr, f.as_str()),
            None => true,
        }
    }
}

impl Clone for Matcher {
    /// An equal copy of the matcher.
    fn clone(&self) -> (r: Self)
        ensures
            r == *self,
    {
        Matcher {
            program: match &self.program {
                Some(p) => Some(p.clone()),
                None => None,
            },
            stderr_fragment: match &self.stderr_fragment {
                Some(f) => Some(f.clone()),
                None => None,
            },
        }
    }
}

/// The corrector capability of a rule: how replacement texts are generated
/// from the tokens of the failed command.
#[derive(Debug)]
pub enum Corrector {
    /// Replace every token equal (ASCII case-insensitively) to the first
    /// string with the second; yields no candidate when no token matches.
    ReplaceToken(String, String),
    /// Replace the token at the index with the string; faults when the index
    /// is out of range.
    SetToken(usize, String),
    /// Propose the given texts verbatim.
    Suggest(Vec<String>),
}

/// The mathematical model of a [`Corrector`].
pub enum CorrectorView {
    ReplaceToken(Seq<char>, Seq<char>),
    SetToken(int, Seq<char>),
    Suggest(Seq<Seq<char>>),
}

impl View for Corrector {
    type V = CorrectorView;

    open spec fn view(&self) -> CorrectorView {
        match self {
            Corrector::ReplaceToken(from, to) => CorrectorView::ReplaceToken(from@, to@),
            Corrector::SetToken(index, to) => CorrectorView::SetToken(*index as int, to@),
            Corrector::Suggest(texts) => CorrectorView::Suggest(views_of(texts@)),
        }
    }
}

/// Each token equal (ASCII case-insensitively) to `from` replaced by `to`.
pub open spec fn replace_tokens(tokens: Seq<Seq<char>>, from: Seq<char>, to: Seq<char>) -> Seq<
    Seq<char>,
> {
    tokens.map_values(|t: Seq<char>| if eq_nocase(t, from) { to } else { t })
}

/// Whether a corrector faults on the given tokens.
pub open spec fn corrector_fault(c: CorrectorView, tokens: Seq<Seq<char>>) -> bool {
    match c {
        CorrectorView::SetToken(index, _) => !(0 <= index < tokens.len()),
        _ => false,
    }
}

/// The replacement texts a corrector yields for the given tokens, when it
/// does not fault.
pub open spec fn corrector_texts(c: CorrectorView, tokens: Seq<Seq<char>>) -> Seq<Seq<char>> {
    match c {
        CorrectorView::ReplaceToken(from, to) => {
            if exists|i: int| 0 <= i < tokens.len() && eq_nocase(tokens[i], from) {
                seq![joined_with_spaces(replace_tokens(tokens, from, to))]
            } else {
                Seq::empty()
            }
        },
        CorrectorView::SetToken(index, to) => {
            if 0 <= index < tokens.len() {
                seq![joined_with_spaces(tokens.update(index, to))]
            } else {
                Seq::empty()
            }
        },
        CorrectorView::Suggest(texts) => texts,
    }
}

impl Corrector {
    /// The replacement texts for the given tokens; an out-of-range token
    /// index is a rule-execution fault.
    pub fn apply(&self, tokens: &Vec<String>) -> (r: TheFuckResult<Vec<String>>)
        ensures
            r is Err <==> corrector_fault(self@, views_of(tokens@)),
            r matches Err(e) ==> e@ == ErrorView::RuleExecutionError(
                "Corrector token index out of range"@,
            ),
            r matches Ok(texts) ==> views_of(texts@) == corrector_texts(self@, views_of(tokens@)),
    {
        match self {
            Corrector::ReplaceToken(from, to) => {
                let ghost tvs = views_of(tokens@);
                let mut out: Vec<String> = Vec::new();
                let mut replaced = false;
                let mut i: usize = 0;
                while i < tokens.len()
                    invariant
                        tvs == views_of(tokens@),
                        i <= tokens@.len(),
                        out@.len() == i,
                        forall|k: int|
                            0 <= k < i ==> out@[k]@ == replace_tokens(tvs, from@, to@)[k],
                        replaced == exists|j: int| 0 <= j < i && eq_nocase(tvs[j], from@),
                    decreases tokens@.len() - i,
                {
                    proof {
                        assert(tvs[i as int] == tokens@[i as int]@);
                    }
                    if str_eq_nocase(tokens[i].as_str(), from.as_str()) {
                        out.push(to.clone());
                        replaced = true;
                        proof {
                            assert(replace_tokens(tvs, from@, to@)[i as int] == to@);
                        }
                    } else {
                        out.push(tokens[i].clone());
                        proof {
                            assert(!eq_nocase(tvs[i as int], from@));
                            assert(replace_tokens(tvs, from@, to@)[i as int] == tvs[i as int]);
                        }
                    }
                    i = i + 1;
                }
                if replaced {
                    proof {
                        assert(views_of(out@) =~= replace_tokens(tvs, from@, to@));
                    }
                    let joined = join_with_spaces(&out);
                    let mut texts: Vec<String> = Vec::new();
                    texts.push(joined);
                    proof {
                        assert(views_of(texts@) =~= corrector_texts(self@, tvs));
                    }
                    Ok(texts)
                } else {
                    let texts: Vec<String> = Vec::new();
                    proof {
                        assert(views_of(texts@) =~= corrector_texts(self@, tvs));
                    }
                    Ok(texts)
                }
            },
            Corrector::SetToken(index, to) => {
                if *index < tokens.len() {
                    let ghost tvs = views_of(tokens@);
                    let mut ts = clone_string_vec(tokens);
                    ts.set(*index, to.clone());
                    proof {
                        assert(views_of(ts@) =~= tvs.update(*index as int, to@));
                    }
                    let joined = join_with_spaces(&ts);
                    let mut texts: Vec<String> = Vec::new();
                    texts.push(joined);
                    proof {
                        assert(views_of(texts@) =~= corrector_texts(self@, tvs));
                    }
                    Ok(texts)
                } else {
                    Err(TheFuckError::RuleExecutionError(
                        String::from_str("Corrector token index out of range"),
                    ))
                }
            },
            Corrector::Suggest(texts) => {
                let out = clone_string_vec(texts);
                proof {
                    assert(views_of(out@) =~= corrector_texts(self@, views_of(tokens@)));
                }
                Ok(out)
            },
        }
    }
}

impl Clone for Corrector {
    /// A copy of the corrector with an equal model.
    fn clone(&self) -> (r: Self)
        ensures
            r@ == self@,
    {
        match self {
            Corrector::ReplaceToken(from, to) => Corrector::ReplaceToken(from.clone(), to.clone()),
            Corrector::SetToken(index, to) => Corrector::SetToken(*index, to.clone()),
            Corrector::Suggest(texts) => Corrector::Suggest(clone_string_vec(texts)),
        }
    }
}

/// A correction rule: an identifier, a shell scope, a matcher, a corrector,
/// a priority, side-effect warnings for its candidates and the flags the
/// dispatcher consults.
#[derive(Debug)]
pub struct Rule {
    /// The unique identifier the registry keys toggles by.
    pub id: String,
    /// The shells the rule applies to.
    pub applicable_shells: ShellScope,
    /// When the rule fires.
    pub matcher: Matcher,
    /// What the rule proposes.
    pub corrector: Corrector,
    /// The rule's weight; greater weights rank earlier.
    pub priority: u32,
    /// Whether the dispatcher considers the rule at all.
    pub enabled: bool,
    /// Whether candidates of this rule must be confirmed before execution.
    pub requires_confirmation: bool,
    /// Warnings attached to every candidate the rule produces.
    pub side_effects: Vec<String>,
}

/// The mathematical model of a [`Rule`].
pub struct RuleView {
    pub id: Seq<char>,
    pub applicable_shells: ShellScopeView,
    pub matcher: MatcherView,
    pub corrector: CorrectorView,
    pub priority: int,
    pub enabled: bool,
    pub requires_confirmation: bool,
    pub side_effects: Seq<Seq<char>>,
}

impl View for Rule {
    type V = RuleView;

    open spec fn view(&self) -> RuleView {
        RuleView {
            id: self.id@,
            applicable_shells: self.applicable_shells@,
            matcher: self.matcher@,
            corrector: self.corrector@,
            priority: self.priority as int,
            enabled: self.enabled,
            requires_confirmation: self.requires_confirmation,
            side_effects: views_of(self.side_effects@),
        }
    }
}

impl Rule {
    /// A rule over the given parts: enabled, requiring confirmation and
    /// declaring no side effects.
    pub fn new(
        id: String,
        applicable_shells: ShellScope,
        matcher: Matcher,
        corrector: Corrector,
        priority: u32,
    ) -> (r: Self)
        ensures
            r.id == id,
            r.applicable_shells == applicable_shells,
            r.matcher == matcher,
            r.corrector == corrector,
            r.priority == priority,
            r.enabled == true,
            r.requires_confirmation == true,
            r.side_effects@ == Seq::<String>::empty(),
    {
        Rule {
            id,
            applicable_shells,
            matcher,
            corrector,
            priority,
            enabled: true,
            requires_confirmation: true,
            side_effects: Vec::new(),
        }
    }

    /// The rule with its confirmation requirement set.
    pub fn with_confirmation(self, requires_confirmation: bool) -> (r: Self)
        ensures
            r.id == self.id,
            r.applicable_shells == self.applicable_shells,
            r.matcher == self.matcher,
            r.corrector == self.corrector,
            r.priority == self.priority,
            r.enabled == self.enabled,
            r.requires_confirmation == requires_confirmation,
            r.side_effects == self.side_effects,
    {
        Rule {
            id: self.id,
            applicable_shells: self.applicable_shells,
            matcher: self.matcher,
            corrector: self.corrector,
            priority: self.priority,
            enabled: self.enabled,
            requires_confirmation,
            side_effects: self.side_effects,
        }
    }

    /// The rule with one more side-effect warning appended.
    pub fn with_side_effect(self, side_effect: String) -> (r: Self)
        ensures
            r.id == self.id,
            r.applicable_shells == self.applicable_shells,
            r.matcher == self.matcher,
            r.corrector == self.corrector,
            r.priority == self.priority,
            r.enabled == self.enabled,
            r.requires_confirmation == self.requires_confirmation,
            r.side_effects@ == self.side_effects@.push(side_effect),
    {
        let mut side_effects = self.side_effects;
        side_effects.push(side_effect);
        Rule {
            id: self.id,
            applicable_shells: self.applicable_shells,
            matcher: self.matcher,
            corrector: self.corrector,
            priority: self.priority,
            enabled: self.enabled,
            requires_confirmation: self.requires_confirmation,
            side_effects,
        }
    }
}

impl Clone for Rule {
    /// A copy of the rule with an equal model.
    fn clone(&self) -> (r: Self)
        ensures
            r@ == self@,
    {
        Rule {
            id: self.id.clone(),
            applicable_shells: self.applicable_shells.clone(),
            matcher: self.matcher.clone(),
            corrector: self.corrector.clone(),
            priority: self.priority,
            enabled: self.enabled,
            requires_confirmation: self.requires_confirmation,
            side_effects: clone_string_vec(&self.side_effects),
        }
    }
}

/// The models of a sequence of rules.
pub open spec fn rule_views(rules: Seq<Rule>) -> Seq<RuleView> {
    rules.map_values(|r: Rule| r@)
}

/// Whether an enabled rule applies under a shell.
pub open spec fn rule_applies(r: RuleView, shell: ShellView) -> bool {
    r.enabled && scope_includes(r.applicable_shells, shell)
}

/// The subsequence of rules that apply under a shell, in registration order.
pub open spec fn applicable_views(rules: Seq<RuleView>, shell: ShellView) -> Seq<RuleView>
    decreases rules.len(),
{
    if rules.len() == 0 {
        Seq::empty()
    } else if rule_applies(rules.last(), shell) {
        applicable_views(rules.drop_last(), shell) + seq![rules.last()]
    } else {
        applicable_views(rules.drop_last(), shell)
    }
}

/// A rule's model with its enabled flag set.
pub open spec fn with_enabled(r: RuleView, enabled: bool) -> RuleView {
    RuleView { enabled, ..r }
}

/// The models of a rule sequence after the rule named `id` has its enabled
/// flag set.
pub open spec fn set_enabled_views(rules: Seq<RuleView>, id: Seq<char>, enabled: bool) -> Seq<
    RuleView,
> {
    rules.map_values(|r: RuleView| if r.id == id { with_enabled(r, enabled) } else { r })
}

/// The registry of correction rules: append-only registration plus
/// id-scoped enable and disable toggles.
#[derive(Debug)]
pub struct RuleRegistry {
    /// The registered rules, in registration order.
    pub rules: Vec<Rule>,
}

impl RuleRegistry {
    /// Rule identifiers are pairwise distinct.
    pub open spec fn wf(&self) -> bool {
        forall|i: int, j: int|
            0 <= i < j < self.rules@.len() ==> self.rules@[i].id@ != self.rules@[j].id@
    }

    /// An empty registry.
    pub fn new() -> (r: Self)
        ensures
            r.rules@ == Seq::<Rule>::empty(),
            r.wf(),
    {
        RuleRegistry { rules: Vec::new() }
    }

    /// Registers a rule at the end of the order; fails with a validation
    /// error, leaving the registry unchanged, exactly when a rule with the
    /// same identifier is already present.
    pub fn register(&mut self, rule: Rule) -> (r: TheFuckResult<()>)
        requires
            old(self).wf(),
        ensures
            final(self).wf(),
            r is Err <==> exists|i: int|
                0 <= i < old(self).rules@.len() && old(self).rules@[i].id@ == rule.id@,
            r matches Err(e) ==> {
                &&& e@ == ErrorView::ValidationError("Duplicate rule id: "@ + rule.id@)
                &&& final(self).rules@ == old(self).rules@
            },
            r is Ok ==> final(self).rules@ == old(self).rules@.push(rule),
    {
        let mut i: usize = 0;
        while i < self.rules.len()
            invariant
                self == old(self),
                self.wf(),
                i <= self.rules@.len(),
                forall|j: int| 0 <= j < i ==> self.rules@[j].id@ != rule.id@,
            decreases self.rules@.len() - i,
        {
            if str_eq(self.rules[i].id.as_str(), rule.id.as_str()) {
                let mut message = String::from_str("Duplicate rule id: ");
                message.append(rule.id.as_str());
                return Err(TheFuckError::ValidationError(message));
            }
            i = i + 1;
        }
        proof {
            let pushed = self.rules@.push(rule);
            assert forall|a: int, b: int|
                0 <= a < b < pushed.len() implies pushed[a].id@ != pushed[b].id@ by {
                if b < self.rules@.len() {
                } else {
                    assert(pushed[b] == rule);
                }
            }
        }
        self.rules.push(rule);
        Ok(())
    }

    /// The enabled rules applicable under `shell`, in registration order.
    pub fn list_for_shell(&self, shell: &Shell) -> (r: Vec<Rule>)
        ensures
            rule_views(r@) == applicable_views(rule_views(self.rules@), shell@),
    {
        let mut out: Vec<Rule> = Vec::new();
        let mut i: usize = 0;
        proof {
            assert(rule_views(self.rules@).take(0) =~= Seq::<RuleView>::empty());
            assert(rule_views(out@) =~= Seq::<RuleView>::empty());
        }
        while i < self.rules.len()
            invariant
                i <= self.rules@.len(),
                rule_views(out@) == applicable_views(
                    rule_views(self.rules@).take(i as int),
                    shell@,
                ),
            decreases self.rules@.len() - i,
        {
            let ghost all = rule_views(self.rules@);
            proof {
                assert(all.take(i as int + 1).drop_last() =~= all.take(i as int));
                assert(all.take(i as int + 1).last() == self.rules@[i as int]@);
            }
            if self.rules[i].enabled && self.rules[i].applicable_shells.includes(shell) {
                out.push(self.rules[i].clone());
                proof {
                    assert(rule_views(out@) =~= applicable_views(all.take(i as int), shell@)
                        + seq![self.rules@[i as int]@]);
                }
            }
            i = i + 1;
        }
        proof {
            assert(rule_views(self.rules@).take(self.rules@.len() as int) =~= rule_views(
                self.rules@,
            ));
        }
        out
    }

    /// Sets the enabled flag of the rule named `id`, reporting whether such a
    /// rule exists; the registry is otherwise unchanged.
    fn set_enabled(&mut self, id: &str, enabled: bool) -> (found: bool)
        requires
            old(self).wf(),
        ensures
            final(self).wf(),
            found == exists|i: int|
                0 <= i < old(self).rules@.len() && old(self).rules@[i].id@ == id@,
            rule_views(final(self).rules@) == set_enabled_views(
                rule_views(old(self).rules@),
                id@,
                enabled,
            ),
    {
        let ghost before = rule_views(old(self).rules@);
        let mut i: usize = 0;
        while i < self.rules.len()
            invariant
                self == old(self),
                self.wf(),
                before == rule_views(old(self).rules@),
                i <= self.rules@.len(),
                forall|j: int| 0 <= j < i ==> self.rules@[j].id@ != id@,
            decreases self.rules@.len() - i,
        {
            if str_eq(self.rules[i].id.as_str(), id) {
                proof {
                    assert(self.rules@[i as int].id@ == id@);
                    assert forall|j: int|
                        0 <= j < self.rules@.len() && j != i as int implies self.rules@[j].id@
                        != id@ by {
                        if j > i as int {
                            assert(self.rules@[i as int].id@ != self.rules@[j].id@);
                        }
                    }
                }
                let old_rule = self.rules.remove(i);
                let updated = Rule {
                    id: old_rule.id,
                    applicable_shells: old_rule.applicable_shells,
                    matcher: old_rule.matcher,
                    corrector: old_rule.corrector,
                    priority: old_rule.priority,
                    enabled,
                    requires_confirmation: old_rule.requires_confirmation,
                    side_effects: old_rule.side_effects,
                };
                self.rules.insert(i, updated);
                proof {
                    assert(self.rules@ =~= old(self).rules@.update(i as int, updated));
                    assert(rule_views(self.rules@).len() == before.len());
                    assert forall|a: int, b: int|
                        0 <= a < b < self.rules@.len() implies self.rules@[a].id@
                        != self.rules@[b].id@ by {
                        assert(old(self).rules@[a].id@ != old(self).rules@[b].id@);
                        assert(updated.id == old(self).rules@[i as int].id);
                    }
                    assert forall|j: int|
                        0 <= j < before.len() implies rule_views(self.rules@)[j]
                        == set_enabled_views(before, id@, enabled)[j] by {
                        assert(before[j] == old(self).rules@[j]@);
                        if j == i as int {
                            assert(self.rules@[j] == updated);
                        } else {
                            assert(old(self).rules@[j].id@ != id@);
                            assert(self.rules@[j] == old(self).rules@[j]);
                        }
                    }
                    assert(rule_views(self.rules@) =~= set_enabled_views(before, id@, enabled));
                }
                return true;
            }
            i = i + 1;
        }
        proof {
            assert forall|j: int|
                0 <= j < before.len() implies set_enabled_views(before, id@, enabled)[j]
                == rule_views(self.rules@)[j] by {
                assert(before[j] == self.rules@[j]@);
                assert(self.rules@[j].id@ != id@);
            }
            assert(rule_views(self.rules@) =~= set_enabled_views(before, id@, enabled));
        }
        false
    }

    /// Enables the rule named `id`, reporting whether such a rule exists.
    pub fn enable(&mut self, id: &str) -> (found: bool)
        requires
            old(self).wf(),
        ensures
            final(self).wf(),
            found == exists|i: int|
                0 <= i < old(self).rules@.len() && old(self).rules@[i].id@ == id@,
            rule_views(final(self).rules@) == set_enabled_views(
                rule_views(old(self).rules@),
                id@,
                true,
            ),
    {
        self.set_enabled(id, true)
    }

    /// Disables the rule named `id`, reporting whether such a rule exists;
    /// the rule keeps its position in the order.
    pub fn disable(&mut self, id: &str) -> (found: bool)
        requires
            old(self).wf(),
        ensures
            final(self).wf(),
            found == exists|i: int|
                0 <= i < old(self).rules@.len() && old(self).rules@[i].id@ == id@,
            rule_views(final(self).rules@) == set_enabled_views(
                rule_views(old(self).rules@),
                id@,
                false,
            ),
    {
        self.set_enabled(id, false)
    }
}

impl Clone for RuleRegistry {
    /// A copy of the registry with an equal model.
    fn clone(&self) -> (r: Self)
        ensures
            rule_views(r.rules@) == rule_views(self.rules@),
            self.wf() ==> r.wf(),
    {
        let mut rules: Vec<Rule> = Vec::new();
        let mut i: usize = 0;
        while i < self.rules.len()
            invariant
                i <= self.rules@.len(),
                rules@.len() == i,
                forall|j: int| 0 <= j < i ==> rules@[j]@ == self.rules@[j]@,
            decreases self.rules@.len() - i,
        {
            rules.push(self.rules[i].clone());
            i = i + 1;
        }
        proof {
            assert(rule_views(rules@) =~= rule_views(self.rules@));
            if self.wf() {
                assert forall|a: int, b: int|
                    0 <= a < b < rules@.len() implies rules@[a].id@ != rules@[b].id@ by {
                    assert(rules@[a]@ == self.rules@[a]@);
                    assert(rules@[b]@ == self.rules@[b]@);
                    assert(self.rules@[a].id@ != self.rules@[b].id@);
                }
            }
        }
        RuleRegistry { rules }
    }
}

} // verus!
