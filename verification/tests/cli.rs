use harbor_light::cli::{failure_exit_code, Cli, Command};
use harbor_light::providers::Provider;

#[test]
fn hook_failures_exit_quietly() {
    assert_eq!(failure_exit_code(Some("hook")), 0);
    assert_eq!(failure_exit_code(Some("install")), 1);
    assert_eq!(failure_exit_code(Some("hooks")), 1);
    assert_eq!(failure_exit_code(None), 1);
}

#[test]
fn commands_carry_their_arguments() {
    let cli = Cli { command: Some(Command::Hook { provider: Provider::Cursor }) };
    assert!(matches!(cli.command, Some(Command::Hook { provider: Provider::Cursor })));
    let cli = Cli { command: Some(Command::Package { out: "dist".into(), zip: true }) };
    assert!(matches!(cli.command, Some(Command::Package { ref out, zip: true }) if out == "dist"));
}
