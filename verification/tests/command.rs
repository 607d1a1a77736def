use cane::command::classify::CommandClassification;
use cane::command::deadline::CommandDeadline;
use cane::command::request::{
    prepare_shell_command, CommandEnvironmentConfig, PreparedShellCommand, ShellInput,
    ShellPreparationError, WorkdirResolution,
};
use cane::path::HostPath;

fn environment() -> CommandEnvironmentConfig {
    CommandEnvironmentConfig::new(
        "/sandbox/home",
        vec!["/usr/local/bin".to_string(), "/usr/bin".to_string()],
        "/sandbox/tmp",
    )
    .unwrap()
}

fn root() -> HostPath {
    HostPath::from_text("/workspace")
}

fn input(command: &str) -> ShellInput {
    ShellInput { command: command.to_string(), timeout_seconds: None, workdir: None }
}

fn at_root() -> WorkdirResolution {
    WorkdirResolution { is_directory: true, path: Ok(root()) }
}

fn prepare(input: ShellInput) -> Result<PreparedShellCommand, ShellPreparationError> {
    prepare_shell_command(&environment(), input, &root(), at_root())
}

#[test]
fn prepare_shell_command_preserves_the_command_and_builds_fixed_bash_arguments() {
    let command = "printf '  unchanged  ' | sed 's/x/y/'";

    let prepared = prepare(input(command)).unwrap();

    assert_eq!(prepared.command(), command);
    assert_eq!(prepared.request().executable, "/bin/bash");
    assert_eq!(
        prepared.request().arguments,
        ["--noprofile", "--norc", "-c", command]
    );
    assert_eq!(prepared.request().docker_endpoint, None);
    assert_eq!(prepared.request().workdir, root());
    assert_eq!(prepared.classification(), &CommandClassification::Complex);
}

#[test]
fn prepare_shell_command_constructs_only_the_declared_environment() {
    let prepared = prepare(input("cargo test")).unwrap();

    let variables: Vec<(&str, &str)> = prepared
        .request()
        .environment
        .variables()
        .iter()
        .map(|variable| (variable.name.as_str(), variable.value.as_str()))
        .collect();
    assert_eq!(
        variables,
        [
            ("GIT_OPTIONAL_LOCKS", "0"),
            ("HOME", "/sandbox/home"),
            ("LANG", "C.UTF-8"),
            ("LC_ALL", "C.UTF-8"),
            ("NO_COLOR", "1"),
            ("PATH", "/usr/local/bin:/usr/bin"),
            ("SHELL", "/bin/bash"),
            ("TERM", "dumb"),
            ("TMPDIR", "/sandbox/tmp"),
        ]
    );
    assert_eq!(prepared.request().environment.get("BASH_ENV"), None);
    assert_eq!(prepared.request().environment.get("OPENAI_API_KEY"), None);
    assert_eq!(prepared.request().environment.get("SSH_AUTH_SOCK"), None);
}

#[test]
fn command_environment_rejects_values_that_cannot_form_the_baseline() {
    let configurations = [
        CommandEnvironmentConfig::new("", vec!["/usr/bin".to_string()], "/tmp"),
        CommandEnvironmentConfig::new("/home", Vec::new(), "/tmp"),
        CommandEnvironmentConfig::new(
            "/home",
            vec!["/usr/bin:/workspace/bin".to_string()],
            "/tmp",
        ),
        CommandEnvironmentConfig::new("/home", vec!["/usr/bin\0hidden".to_string()], "/tmp"),
        CommandEnvironmentConfig::new("/home", vec!["/usr/bin".to_string()], "/tmp\0hidden"),
    ];

    let errors = configurations.map(Result::unwrap_err);

    assert_eq!(
        errors.map(|error| matches!(error, ShellPreparationError::Environment { .. })),
        [true; 5]
    );
}

#[test]
fn prepare_shell_command_uses_the_documented_default_and_timeout_bounds() {
    let inputs = [
        ShellInput { command: "true".to_string(), timeout_seconds: None, workdir: None },
        ShellInput { command: "true".to_string(), timeout_seconds: Some(1), workdir: None },
        ShellInput { command: "true".to_string(), timeout_seconds: Some(1_800), workdir: None },
    ];

    let timeouts = inputs.map(|input| prepare(input).unwrap().timeout());

    assert_eq!(timeouts, [600, 1, 1_800]);
}

#[test]
fn prepare_shell_command_rejects_timeouts_outside_the_documented_bounds() {
    let inputs = [
        ShellInput { command: "true".to_string(), timeout_seconds: Some(0), workdir: None },
        ShellInput { command: "true".to_string(), timeout_seconds: Some(1_801), workdir: None },
    ];

    let errors = inputs.map(|input| prepare(input).unwrap_err());

    assert!(errors.iter().all(|error| matches!(
        error,
        ShellPreparationError::Input { detail }
            if detail == "timeout_seconds must be between 1 and 1800"
    )));
}

#[test]
fn empty_commands_are_rejected() {
    assert_eq!(
        prepare(input(" \n\t ")).unwrap_err().describe(),
        "invalid shell input: command must not be empty"
    );
}

#[test]
fn prepare_shell_command_resolves_a_workspace_relative_workdir() {
    let asked = ShellInput {
        command: "cargo test".to_string(),
        timeout_seconds: None,
        workdir: Some("crates/core".to_string()),
    };

    let prepared = prepare_shell_command(
        &environment(),
        asked,
        &root(),
        WorkdirResolution {
            is_directory: true,
            path: Ok(HostPath::from_text("/workspace/crates/core")),
        },
    )
    .unwrap();

    assert_eq!(
        prepared.request().workdir,
        HostPath::from_text("/workspace/crates/core")
    );
}

#[test]
fn prepare_shell_command_rejects_invalid_workdirs() {
    let cases = [
        ("/workspace/Cargo.toml", false, Ok(HostPath::from_text("/workspace/Cargo.toml"))),
        ("../outside", true, Err("path is outside the workspace".to_string())),
        ("missing", true, Err("not found".to_string())),
        ("Cargo.toml", false, Ok(HostPath::from_text("/workspace/Cargo.toml"))),
        ("", true, Err("path is empty".to_string())),
    ];

    for (workdir, is_directory, path) in cases {
        let asked = ShellInput {
            command: "pwd".to_string(),
            timeout_seconds: None,
            workdir: Some(workdir.to_string()),
        };
        let outcome = prepare_shell_command(
            &environment(),
            asked,
            &root(),
            WorkdirResolution { is_directory, path },
        );
        assert!(matches!(outcome, Err(ShellPreparationError::Input { .. })));
    }
}

#[test]
fn reset_after_replaces_the_active_deadline() {
    let mut deadline = CommandDeadline::after(0, 10);
    let target = deadline.at();

    deadline.reset_after(9, 10);

    assert_eq!(target, 10);
    assert!(!deadline.elapsed(target));
    assert_eq!(deadline.at(), 19);
    assert!(deadline.elapsed(19));
}
