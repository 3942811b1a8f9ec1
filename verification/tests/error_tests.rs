use thefuck_rs::ErrorContext;
use thefuck_rs::TheFuckError;
use thefuck_rs::TheFuckResult;

#[test]
fn test_error_creation() {
    let parse_err = TheFuckError::parse_error("Invalid command syntax");
    assert!(matches!(parse_err, TheFuckError::ParseError(_)));

    let shell_err = TheFuckError::unsupported_shell("cmd.exe");
    assert!(matches!(shell_err, TheFuckError::UnsupportedShell(_)));

    let no_rules_err = TheFuckError::no_rules_found("git psh");
    assert!(matches!(no_rules_err, TheFuckError::NoRulesFound(_)));
}

#[test]
fn test_error_context() {
    let result: TheFuckResult<()> = Err(TheFuckError::parse_error("test"));
    let result_with_context = result.with_context("parsing command");

    match result_with_context {
        Err(TheFuckError::ParseError(msg)) => {
            assert!(msg.contains("parsing command"));
            assert!(msg.contains("test"));
        }
        _ => panic!("Expected ParseError"),
    }
}

#[test]
fn test_error_display() {
    let error = TheFuckError::parse_error("test error");
    let display = error.message();
    assert_eq!(display, "Failed to parse command: test error");
}

#[test]
fn test_error_context_exact_message() {
    let result: TheFuckResult<u32> = Err(TheFuckError::validation_error("empty"));
    match result.with_context("checking input") {
        Err(TheFuckError::ValidationError(msg)) => {
            assert_eq!(msg, "checking input: empty");
        }
        _ => panic!("Expected ValidationError"),
    }
}

#[test]
fn test_error_context_passes_ok_and_opaque_variants() {
    let ok: TheFuckResult<u32> = Ok(7);
    assert_eq!(ok.with_context("anything").unwrap(), 7);

    let result: TheFuckResult<()> = Err(TheFuckError::no_rules_found("git psh"));
    match result.with_context("dispatching") {
        Err(TheFuckError::NoRulesFound(msg)) => assert_eq!(msg, "git psh"),
        _ => panic!("Expected NoRulesFound"),
    }
}

#[test]
fn test_error_messages_per_variant() {
    assert_eq!(
        TheFuckError::no_rules_found("git psh").message(),
        "No matching rules found for command: git psh"
    );
    assert_eq!(
        TheFuckError::validation_error("empty").message(),
        "Validation error: empty"
    );
    assert_eq!(
        TheFuckError::config_error("bad").message(),
        "Configuration error: bad"
    );
    assert_eq!(
        TheFuckError::unsupported_shell("tcsh").message(),
        "Shell not supported: tcsh"
    );
    assert_eq!(
        TheFuckError::process_error("spawn failed").message(),
        "Process execution failed: spawn failed"
    );
    assert_eq!(
        TheFuckError::file_system_error("missing").message(),
        "File system error: missing"
    );
    assert_eq!(
        TheFuckError::path_error("bad path").message(),
        "Path conversion error: bad path"
    );
}

#[test]
fn test_error_exit_codes() {
    assert_eq!(TheFuckError::validation_error("empty").exit_code(), 2);
    assert_eq!(TheFuckError::parse_error("empty").exit_code(), 2);
    assert_eq!(TheFuckError::no_rules_found("x").exit_code(), 3);
    assert_eq!(TheFuckError::config_error("x").exit_code(), 1);
}
