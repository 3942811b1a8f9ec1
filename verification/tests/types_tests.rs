use thefuck_rs::types::Command;
use thefuck_rs::types::CommandResult;
use thefuck_rs::types::CorrectedCommand;
use thefuck_rs::types::ParsedCommand;
use thefuck_rs::types::Shell;

#[test]
fn test_command_creation() {
    let cmd = Command::new("git status".to_string(), Shell::Bash);
    assert_eq!(cmd.text, "git status");
    assert_eq!(cmd.shell, Shell::Bash);
    assert!(!cmd.cwd.is_empty());
}

#[test]
fn test_command_validation() {
    let cmd = Command::new("".to_string(), Shell::Bash);
    assert!(cmd.validate().is_err());

    let cmd = Command::new("git status".to_string(), Shell::Bash);
    assert!(cmd.validate().is_ok());
}

#[test]
fn test_command_builder_methods() {
    let env = vec![("PATH".to_string(), "/usr/bin".to_string())];

    let cmd = Command::new("git status".to_string(), Shell::Bash)
        .with_env(env.clone())
        .with_cwd("/home/user".to_string());

    assert_eq!(cmd.env, env);
    assert_eq!(cmd.cwd, "/home/user");
}

#[test]
fn test_command_text_methods() {
    let cmd = Command::new("  git status  ".to_string(), Shell::Bash);

    assert_eq!(cmd.as_str(), "  git status  ");
    assert_eq!(cmd.trimmed(), "git status");
    assert!(!cmd.is_empty());

    let empty_cmd = Command::new("   ".to_string(), Shell::Bash);
    assert!(empty_cmd.is_empty());
}

#[test]
fn test_command_parsing_methods() {
    let cmd = Command::new("git status --porcelain".to_string(), Shell::Bash);

    assert_eq!(cmd.program(), Some("git".to_string()));
    assert_eq!(cmd.arguments(), vec!["status".to_string(), "--porcelain".to_string()]);
    assert_eq!(cmd.argument_count(), 2);
    assert!(cmd.has_arguments());
    assert_eq!(cmd.argument(0), Some("status".to_string()));
    assert_eq!(cmd.argument(1), Some("--porcelain".to_string()));
    assert_eq!(cmd.argument(2), None);
}

#[test]
fn test_command_matching_methods() {
    let cmd = Command::new("git push origin main".to_string(), Shell::Bash);

    assert!(cmd.starts_with("git"));
    assert!(cmd.starts_with("GIT")); // case insensitive
    assert!(!cmd.starts_with("ls"));

    assert!(cmd.contains_argument("push"));
    assert!(cmd.contains_argument("PUSH")); // case insensitive
    assert!(!cmd.contains_argument("pull"));
}

#[test]
fn test_command_parse() {
    let cmd = Command::new("git status --porcelain".to_string(), Shell::Bash);
    let parsed = cmd.parse().unwrap();

    assert_eq!(parsed.program, "git");
    assert_eq!(parsed.arguments, vec!["status".to_string(), "--porcelain".to_string()]);
    assert_eq!(parsed.original, "git status --porcelain");
}

#[test]
fn test_command_parse_empty() {
    let cmd = Command::new("   ".to_string(), Shell::Bash);
    assert!(cmd.parse().is_err());
}

#[test]
fn test_command_with_text() {
    let original = Command::new("git status".to_string(), Shell::Bash);
    let modified = original.with_text("git add .".to_string());

    assert_eq!(modified.text, "git add .");
    assert_eq!(modified.shell, original.shell);
    assert_eq!(modified.cwd, original.cwd);
}

#[test]
fn test_command_age() {
    let cmd = Command::new("git status".to_string(), Shell::Bash);

    // Command should be very recent (just created)
    assert!(cmd.age_seconds() < 5);
    assert!(cmd.age_minutes() < 1);
    assert!(cmd.is_recent());
}

#[test]
fn test_command_env_methods() {
    let mut cmd = Command::new("git status".to_string(), Shell::Bash);

    // Test setting and getting env vars
    cmd.set_env("PATH".to_string(), "/usr/bin".to_string());
    assert_eq!(cmd.get_env("PATH"), Some(&"/usr/bin".to_string()));
    assert_eq!(cmd.get_env("NONEXISTENT"), None);

    // Test removing env vars
    let removed = cmd.remove_env("PATH");
    assert_eq!(removed, Some("/usr/bin".to_string()));
    assert_eq!(cmd.get_env("PATH"), None);
}

#[test]
fn test_command_display() {
    let cmd = Command::new("git status".to_string(), Shell::Bash);
    assert_eq!(cmd.as_str(), "git status");
}

#[test]
fn test_shell_parsing() {
    assert_eq!(Shell::from_string("bash"), Shell::Bash);
    assert_eq!(Shell::from_string("ZSH"), Shell::Zsh);
    assert_eq!(
        Shell::from_string("unknown"),
        Shell::Unknown("unknown".to_string())
    );
}

#[test]
fn test_parsed_command() {
    let parsed = ParsedCommand::new(
        "git".to_string(),
        vec!["status".to_string()],
        "git status".to_string(),
    );
    assert_eq!(parsed.as_string(), "git status");
}

#[test]
fn test_corrected_command() {
    let original = Command::new("git psh".to_string(), Shell::Bash);
    let corrected = CorrectedCommand::new("git push".to_string(), original, 100);
    assert_eq!(corrected.text, "git push");
    assert_eq!(corrected.priority, 100);
    assert!(corrected.requires_confirmation);
}

#[test]
fn test_shell_round_trip_names() {
    assert_eq!(Shell::from_string("fish").as_string(), "fish");
    assert_eq!(Shell::from_string("PWSH").as_string(), "powershell");
    assert_eq!(Shell::from_string("cmd.exe").as_string(), "cmd");
    assert_eq!(Shell::Unknown("tcsh".to_string()).as_string(), "tcsh");
    assert!(Shell::Bash.is_supported());
    assert!(!Shell::from_string("tcsh").is_supported());
}

#[test]
fn test_command_set_env_replaces_value() {
    let mut cmd = Command::new("ls".to_string(), Shell::Zsh);
    cmd.set_env("HOME".to_string(), "/home/a".to_string());
    cmd.set_env("HOME".to_string(), "/home/b".to_string());
    assert_eq!(cmd.get_env("HOME"), Some(&"/home/b".to_string()));
    assert_eq!(cmd.env.len(), 1);
}

#[test]
fn test_command_with_timestamp_and_age() {
    let cmd = Command::new("ls".to_string(), Shell::Bash).with_timestamp(0);
    assert_eq!(cmd.timestamp, 0);
    let shifted = cmd.with_timestamp(120);
    assert_eq!(shifted.age_minutes_at(480), 6);
    assert_eq!(shifted.age_seconds_at(480), 360);
    assert!(shifted.is_recent_at(480));
    assert!(!shifted.is_recent_at(120 + 3600));
}

#[test]
fn test_parsed_command_without_arguments() {
    let parsed = ParsedCommand::new("ls".to_string(), Vec::new(), "ls".to_string());
    assert_eq!(parsed.as_string(), "ls");
}

#[test]
fn test_command_tokenizes_mixed_whitespace() {
    let cmd = Command::new("\tgit \n commit  -m ok ".to_string(), Shell::Bash);
    assert_eq!(cmd.program(), Some("git".to_string()));
    assert_eq!(
        cmd.arguments(),
        vec!["commit".to_string(), "-m".to_string(), "ok".to_string()]
    );
}

#[test]
fn test_corrected_command_builders() {
    let original = Command::new("rm -r build".to_string(), Shell::Bash);
    let corrected = CorrectedCommand::new("rm -rf build".to_string(), original, 500)
        .with_confirmation(false)
        .with_side_effect("removes files permanently".to_string());
    assert!(!corrected.requires_confirmation);
    assert_eq!(corrected.side_effects, vec!["removes files permanently".to_string()]);
}

#[test]
fn test_command_result_constructors() {
    let ok = CommandResult::success("done".to_string());
    assert!(ok.success);
    assert_eq!(ok.exit_code, 0);
    assert_eq!(ok.stdout, "done");
    assert_eq!(ok.stderr, "");

    let bad = CommandResult::failure(2, "boom".to_string());
    assert!(!bad.success);
    assert_eq!(bad.exit_code, 2);
    assert_eq!(bad.stderr, "boom");

    let full = CommandResult::new(true, 0, "a".to_string(), "b".to_string(), 7);
    assert_eq!(full.execution_time, 7);
}
