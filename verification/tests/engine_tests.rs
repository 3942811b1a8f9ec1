use thefuck_rs::dispatch::evaluate;
use thefuck_rs::machine::exit_code;
use thefuck_rs::machine::Action;
use thefuck_rs::machine::Decision;
use thefuck_rs::machine::Event;
use thefuck_rs::machine::FixMachine;
use thefuck_rs::machine::Outcome;
use thefuck_rs::ranking::rank;
use thefuck_rs::ranking::Session;
use thefuck_rs::registry::Corrector;
use thefuck_rs::registry::Matcher;
use thefuck_rs::registry::Rule;
use thefuck_rs::registry::RuleRegistry;
use thefuck_rs::registry::ShellScope;
use thefuck_rs::Cli;
use thefuck_rs::Command;
use thefuck_rs::CommandResult;
use thefuck_rs::Shell;
use thefuck_rs::TheFuckError;

fn replace_rule(id: &str, from: &str, to: &str, priority: u32) -> Rule {
    Rule::new(
        id.to_string(),
        ShellScope::All,
        Matcher { program: None, stderr_fragment: None },
        Corrector::ReplaceToken(from.to_string(), to.to_string()),
        priority,
    )
}

fn suggest_rule(id: &str, text: &str, priority: u32) -> Rule {
    Rule::new(
        id.to_string(),
        ShellScope::All,
        Matcher { program: None, stderr_fragment: None },
        Corrector::Suggest(vec![text.to_string()]),
        priority,
    )
}

#[test]
fn test_git_pshu_scenario() {
    // One registered rule maps pshu to push at priority 800.
    let mut registry = RuleRegistry::new();
    registry
        .register(Rule::new(
            "git_pshu".to_string(),
            ShellScope::All,
            Matcher {
                program: Some("git".to_string()),
                stderr_fragment: Some("is not a git command".to_string()),
            },
            Corrector::ReplaceToken("pshu".to_string(), "push".to_string()),
            800,
        ))
        .unwrap();

    let command = Command::new("git pshu origin main".to_string(), Shell::Bash);
    let outcome = evaluate(&registry, &command, "git: 'pshu' is not a git command");
    let ranked = rank(&outcome.candidates);

    assert_eq!(ranked.len(), 1);
    assert_eq!(ranked[0].text, "git push origin main");
    assert!(ranked[0].requires_confirmation);
    assert_eq!(ranked[0].priority, 800);
}

#[test]
fn test_whitespace_command_fails_validation_before_dispatch() {
    // Even with a rule that fires on everything, a whitespace-only command
    // is rejected as a validation error: the dispatcher is never consulted.
    let mut registry = RuleRegistry::new();
    registry.register(suggest_rule("always", "echo hello", 100)).unwrap();

    let command = Command::new("   ".to_string(), Shell::Bash);
    assert!(command.validate().is_err());

    match FixMachine::new(registry, command, "some stderr", false, false) {
        Err(TheFuckError::ValidationError(msg)) => {
            assert_eq!(msg, "Command text cannot be empty");
        }
        _ => panic!("Expected ValidationError"),
    }
}

#[test]
fn test_equal_priority_merge_and_tie_break() {
    // Rules A and B both produce the same corrected text at priority 500;
    // rule M, registered between them, produces a different text at the same
    // priority. The equal texts merge into one candidate, and A's position
    // (first seen) wins the tie against M's candidate.
    let mut registry = RuleRegistry::new();
    registry.register(suggest_rule("rule_a", "ls | grep foo", 500)).unwrap();
    registry.register(suggest_rule("rule_m", "ls -a", 500)).unwrap();
    registry.register(suggest_rule("rule_b", "ls | grep foo", 500)).unwrap();

    let command = Command::new("lz grep foo".to_string(), Shell::Bash);
    let outcome = evaluate(&registry, &command, "lz: command not found");
    let ranked = rank(&outcome.candidates);

    assert_eq!(ranked.len(), 2);
    assert_eq!(ranked[0].text, "ls | grep foo");
    assert_eq!(ranked[1].text, "ls -a");
}

#[test]
fn test_merge_takes_max_priority_and_unions_side_effects() {
    let mut registry = RuleRegistry::new();
    registry
        .register(
            suggest_rule("low", "git push --force", 300)
                .with_side_effect("will force-push".to_string()),
        )
        .unwrap();
    registry
        .register(
            suggest_rule("high", "git push --force", 900)
                .with_side_effect("will force-push".to_string())
                .with_side_effect("overwrites remote history".to_string()),
        )
        .unwrap();

    let command = Command::new("git push".to_string(), Shell::Bash);
    let outcome = evaluate(&registry, &command, "rejected");
    let ranked = rank(&outcome.candidates);

    assert_eq!(ranked.len(), 1);
    assert_eq!(ranked[0].priority, 900);
    assert_eq!(
        ranked[0].side_effects,
        vec!["will force-push".to_string(), "overwrites remote history".to_string()]
    );
}

#[test]
fn test_zero_rules_firing_is_no_rules_found() {
    let mut registry = RuleRegistry::new();
    registry
        .register(Rule::new(
            "docker_only".to_string(),
            ShellScope::All,
            Matcher { program: Some("docker".to_string()), stderr_fragment: None },
            Corrector::Suggest(vec!["docker ps".to_string()]),
            100,
        ))
        .unwrap();

    let command = Command::new("git status".to_string(), Shell::Bash);
    let outcome = evaluate(&registry, &command, "boom");
    assert!(outcome.candidates.is_empty());
    assert_eq!(outcome.rules_evaluated, 1);

    match FixMachine::new(registry, command, "boom", false, false) {
        Err(TheFuckError::NoRulesFound(msg)) => assert_eq!(msg, "git status"),
        _ => panic!("Expected NoRulesFound"),
    }
}

#[test]
fn test_rule_fault_is_isolated() {
    // A corrector that indexes past the tokens faults; the rule is recorded
    // as a diagnostic and the remaining rules still produce candidates.
    let mut registry = RuleRegistry::new();
    registry
        .register(Rule::new(
            "faulty".to_string(),
            ShellScope::All,
            Matcher { program: None, stderr_fragment: None },
            Corrector::SetToken(9, "push".to_string()),
            700,
        ))
        .unwrap();
    registry.register(suggest_rule("sound", "git push", 400)).unwrap();

    let command = Command::new("git psh".to_string(), Shell::Bash);
    let outcome = evaluate(&registry, &command, "psh is not a git command");

    assert_eq!(outcome.rules_evaluated, 2);
    assert_eq!(outcome.diagnostics.len(), 1);
    assert_eq!(outcome.diagnostics[0].rule_id, "faulty");
    assert!(matches!(
        outcome.diagnostics[0].error,
        TheFuckError::RuleExecutionError(_)
    ));
    let ranked = rank(&outcome.candidates);
    assert_eq!(ranked.len(), 1);
    assert_eq!(ranked[0].text, "git push");
}

#[test]
fn test_set_token_corrector() {
    let mut registry = RuleRegistry::new();
    registry
        .register(Rule::new(
            "second_token".to_string(),
            ShellScope::All,
            Matcher { program: Some("git".to_string()), stderr_fragment: None },
            Corrector::SetToken(1, "push".to_string()),
            100,
        ))
        .unwrap();
    let command = Command::new("git psh origin".to_string(), Shell::Bash);
    let outcome = evaluate(&registry, &command, "");
    assert_eq!(outcome.candidates.len(), 1);
    assert_eq!(outcome.candidates[0].text, "git push origin");
}

#[test]
fn test_registry_rejects_duplicate_id() {
    let mut registry = RuleRegistry::new();
    registry.register(suggest_rule("dup", "a", 1)).unwrap();
    match registry.register(suggest_rule("dup", "b", 2)) {
        Err(TheFuckError::ValidationError(msg)) => {
            assert_eq!(msg, "Duplicate rule id: dup");
        }
        _ => panic!("Expected ValidationError"),
    }
    assert_eq!(registry.rules.len(), 1);
}

#[test]
fn test_registry_shell_scope_and_toggles() {
    let mut registry = RuleRegistry::new();
    registry
        .register(Rule::new(
            "bash_only".to_string(),
            ShellScope::Only(vec![Shell::Bash]),
            Matcher { program: None, stderr_fragment: None },
            Corrector::Suggest(vec!["x".to_string()]),
            10,
        ))
        .unwrap();
    registry.register(suggest_rule("everywhere", "y", 20)).unwrap();

    assert_eq!(registry.list_for_shell(&Shell::Bash).len(), 2);
    assert_eq!(registry.list_for_shell(&Shell::Zsh).len(), 1);

    assert!(registry.disable("everywhere"));
    assert_eq!(registry.list_for_shell(&Shell::Zsh).len(), 0);
    assert!(registry.enable("everywhere"));
    assert_eq!(registry.list_for_shell(&Shell::Zsh).len(), 1);
    assert!(!registry.disable("missing"));
}

#[test]
fn test_cursor_does_not_wrap() {
    let original = Command::new("x".to_string(), Shell::Bash);
    let a = thefuck_rs::CorrectedCommand::new("a".to_string(), original.clone(), 2);
    let b = thefuck_rs::CorrectedCommand::new("b".to_string(), original, 1);
    let mut session = Session::new(vec![a, b]);

    assert_eq!(session.current().text, "a");
    assert!(!session.has_previous());
    assert!(session.has_next());

    // previous() at the first element reports the boundary and stays put
    assert!(!session.previous());
    assert_eq!(session.current().text, "a");

    assert!(session.next());
    assert_eq!(session.current().text, "b");
    assert!(!session.has_next());

    // next() past the last element reports the boundary and does not wrap
    assert!(!session.next());
    assert_eq!(session.current().text, "b");

    assert!(session.previous());
    assert_eq!(session.current().text, "a");
}

#[test]
fn test_machine_confirm_accept_execute_once() {
    let mut registry = RuleRegistry::new();
    registry.register(replace_rule("psh", "psh", "push", 100)).unwrap();
    let command = Command::new("git psh".to_string(), Shell::Bash)
        .with_cwd("/repo".to_string());

    let mut machine =
        FixMachine::new(registry, command, "psh is not a git command", false, false).unwrap();

    // Presenting: the candidate requires confirmation and auto-yes is off.
    assert_eq!(machine.current_candidate().unwrap().text, "git push");
    let action = machine.step(Event::Proceed);
    match action {
        Action::AskConfirmation(c) => assert_eq!(c.text, "git push"),
        _ => panic!("Expected AskConfirmation"),
    }

    // Accept: exactly one execute action, for the accepted text, under the
    // originating shell and working directory.
    let action = machine.step(Event::Decided(Decision::Accept));
    match action {
        Action::Execute(text, shell, cwd) => {
            assert_eq!(text, "git push");
            assert_eq!(shell, Shell::Bash);
            assert_eq!(cwd, "/repo");
        }
        _ => panic!("Expected Execute"),
    }

    // Completion ends the session with the result.
    let result = CommandResult::success("ok".to_string());
    let action = machine.step(Event::Completed(result));
    match action {
        Action::Finish(Outcome::Done(res)) => {
            assert!(res.success);
            assert_eq!(exit_code(&Outcome::Done(res)), 0);
        }
        _ => panic!("Expected Finish(Done)"),
    }

    // The terminal machine is absorbing and never executes again.
    assert!(machine.current_candidate().is_none());
    let action = machine.step(Event::Proceed);
    assert!(matches!(action, Action::Finish(Outcome::Done(_))));
}

#[test]
fn test_machine_skip_to_exhaustion() {
    let mut registry = RuleRegistry::new();
    registry.register(suggest_rule("one", "echo one", 20)).unwrap();
    registry.register(suggest_rule("two", "echo two", 10)).unwrap();
    let command = Command::new("echo onee".to_string(), Shell::Bash);

    let mut machine = FixMachine::new(registry, command, "", false, false).unwrap();

    assert!(matches!(machine.step(Event::Proceed), Action::AskConfirmation(_)));
    match machine.step(Event::Decided(Decision::Skip)) {
        Action::Present(c) => assert_eq!(c.text, "echo two"),
        _ => panic!("Expected Present"),
    }
    assert!(matches!(machine.step(Event::Proceed), Action::AskConfirmation(_)));
    match machine.step(Event::Decided(Decision::Skip)) {
        Action::Finish(Outcome::Exhausted) => {
            assert_eq!(exit_code(&Outcome::Exhausted), 4);
        }
        _ => panic!("Expected Finish(Exhausted)"),
    }
}

#[test]
fn test_machine_abort_executes_nothing() {
    let mut registry = RuleRegistry::new();
    registry.register(suggest_rule("one", "rm -rf /tmp/x", 20)).unwrap();
    let command = Command::new("rm -rf /tmp/y".to_string(), Shell::Bash);

    let mut machine = FixMachine::new(registry, command, "", false, false).unwrap();
    assert!(matches!(machine.step(Event::Proceed), Action::AskConfirmation(_)));
    match machine.step(Event::Decided(Decision::Abort)) {
        Action::Finish(Outcome::Aborted) => {
            assert_eq!(exit_code(&Outcome::Aborted), 130);
        }
        _ => panic!("Expected Finish(Aborted)"),
    }
}

#[test]
fn test_machine_auto_yes_skips_confirmation() {
    let mut registry = RuleRegistry::new();
    registry.register(suggest_rule("one", "echo ok", 20)).unwrap();
    let command = Command::new("echo okk".to_string(), Shell::Zsh);

    let mut machine = FixMachine::new(registry, command, "", true, false).unwrap();
    match machine.step(Event::Proceed) {
        Action::Execute(text, shell, _) => {
            assert_eq!(text, "echo ok");
            assert_eq!(shell, Shell::Zsh);
        }
        _ => panic!("Expected Execute"),
    }
}

#[test]
fn test_machine_repeat_on_failure_redispatches() {
    let mut registry = RuleRegistry::new();
    registry
        .register(Rule::new(
            "typo".to_string(),
            ShellScope::All,
            Matcher {
                program: None,
                stderr_fragment: Some("not a git command".to_string()),
            },
            Corrector::ReplaceToken("psh".to_string(), "push".to_string()),
            800,
        ))
        .unwrap();
    registry
        .register(Rule::new(
            "force".to_string(),
            ShellScope::All,
            Matcher {
                program: None,
                stderr_fragment: Some("rejected".to_string()),
            },
            Corrector::Suggest(vec!["git push --force".to_string()]),
            500,
        ))
        .unwrap();
    let command = Command::new("git psh".to_string(), Shell::Bash);

    let mut machine =
        FixMachine::new(registry, command, "'psh' is not a git command", true, true).unwrap();

    match machine.step(Event::Proceed) {
        Action::Execute(text, _, _) => assert_eq!(text, "git push"),
        _ => panic!("Expected Execute"),
    }

    // The executed correction fails; the fresh error output is dispatched
    // again and the new session is presented.
    let failure = CommandResult::failure(1, "updates were rejected".to_string());
    match machine.step(Event::Completed(failure)) {
        Action::Present(c) => assert_eq!(c.text, "git push --force"),
        _ => panic!("Expected Present"),
    }
}

#[test]
fn test_machine_without_repeat_finishes_on_failure() {
    let mut registry = RuleRegistry::new();
    registry.register(suggest_rule("one", "echo ok", 20)).unwrap();
    let command = Command::new("echo okk".to_string(), Shell::Bash);

    let mut machine = FixMachine::new(registry, command, "", true, false).unwrap();
    assert!(matches!(machine.step(Event::Proceed), Action::Execute(_, _, _)));
    let failure = CommandResult::failure(7, "still broken".to_string());
    match machine.step(Event::Completed(failure)) {
        Action::Finish(Outcome::Done(res)) => {
            assert!(!res.success);
            assert_eq!(res.exit_code, 7);
            assert_eq!(exit_code(&Outcome::Done(res)), 1);
        }
        _ => panic!("Expected Finish(Done)"),
    }
}

#[test]
fn test_machine_ignores_mismatched_events() {
    let mut registry = RuleRegistry::new();
    registry.register(suggest_rule("one", "echo ok", 20)).unwrap();
    let command = Command::new("echo okk".to_string(), Shell::Bash);

    let mut machine = FixMachine::new(registry, command, "", false, false).unwrap();
    // A decision before anything was presented is ignored.
    assert!(matches!(
        machine.step(Event::Decided(Decision::Accept)),
        Action::Ignored
    ));
    // The machine still presents normally afterwards.
    assert!(matches!(machine.step(Event::Proceed), Action::AskConfirmation(_)));
}

#[test]
fn test_dispatch_and_rank_are_deterministic() {
    let mut registry = RuleRegistry::new();
    registry.register(suggest_rule("a", "ls -a", 10)).unwrap();
    registry.register(suggest_rule("b", "ls -l", 10)).unwrap();
    registry.register(suggest_rule("c", "ls -a", 30)).unwrap();
    let command = Command::new("lz".to_string(), Shell::Fish);

    let first: Vec<String> = rank(&evaluate(&registry, &command, "lz: not found").candidates)
        .iter()
        .map(|c| c.text.clone())
        .collect();
    let second: Vec<String> = rank(&evaluate(&registry, &command, "lz: not found").candidates)
        .iter()
        .map(|c| c.text.clone())
        .collect();

    assert_eq!(first, vec!["ls -a".to_string(), "ls -l".to_string()]);
    assert_eq!(first, second);
}

#[test]
fn test_candidates_merge_on_trimmed_text() {
    let mut registry = RuleRegistry::new();
    registry.register(suggest_rule("padded", "  ls -a  ", 10)).unwrap();
    registry.register(suggest_rule("plain", "ls -a", 40)).unwrap();
    let command = Command::new("lz".to_string(), Shell::Bash);

    let ranked = rank(&evaluate(&registry, &command, "").candidates);
    assert_eq!(ranked.len(), 1);
    assert_eq!(ranked[0].priority, 40);
}

#[test]
fn test_cli_classification() {
    let base = Cli {
        alias: None,
        shell_logger: None,
        enable_experimental_instant_mode: false,
        debug: false,
        yes: false,
        repeat: false,
        command: Vec::new(),
    };

    assert!(matches!(
        Cli { alias: Some(None), ..base_clone(&base) }.classify(false),
        thefuck_rs::cli::CliRequest::PrintAlias(None)
    ));
    assert!(matches!(
        Cli { shell_logger: Some("log.txt".to_string()), ..base_clone(&base) }.classify(false),
        thefuck_rs::cli::CliRequest::ShellLog(_)
    ));
    match (Cli { command: vec!["git".to_string(), "psh".to_string()], ..base_clone(&base) })
        .classify(false)
    {
        thefuck_rs::cli::CliRequest::FixCommand(tokens) => {
            assert_eq!(tokens, vec!["git".to_string(), "psh".to_string()]);
        }
        _ => panic!("Expected FixCommand"),
    }
    assert!(matches!(
        base_clone(&base).classify(true),
        thefuck_rs::cli::CliRequest::MissingCommand
    ));
    assert!(matches!(
        base_clone(&base).classify(false),
        thefuck_rs::cli::CliRequest::ShowHelp
    ));

    assert!(base_clone(&base).is_command_fix_request(true));
    assert!(!base_clone(&base).is_command_fix_request(false));
}

fn base_clone(base: &Cli) -> Cli {
    Cli {
        alias: base.alias.clone(),
        shell_logger: base.shell_logger.clone(),
        enable_experimental_instant_mode: base.enable_experimental_instant_mode,
        debug: base.debug,
        yes: base.yes,
        repeat: base.repeat,
        command: base.command.clone(),
    }
}
