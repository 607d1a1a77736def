use cane::command::classify::{
    classify_command, invokes_direct_executable, tokenize_command_positions, CommandClassification,
    CommandToken, SimpleCommand,
};

#[test]
fn classify_command_normalizes_a_simple_command_into_words() {
    let command = r#"RUST_LOG=debug cargo test "package name" escaped\ value ''"#;

    let classification = classify_command(command);

    assert_eq!(
        classification,
        CommandClassification::Simple(SimpleCommand {
            executable_index: 1,
            words: vec![
                "RUST_LOG=debug".to_string(),
                "cargo".to_string(),
                "test".to_string(),
                "package name".to_string(),
                "escaped value".to_string(),
                String::new(),
            ],
        })
    );
}

#[test]
fn simple_command_identifies_the_executable_after_environment_assignments() {
    let command = "RUST_LOG=debug CARGO_TERM_COLOR=never cargo test";

    let CommandClassification::Simple(simple) = classify_command(command) else {
        panic!("expected a simple command");
    };

    assert_eq!(simple.executable(), "cargo");
    assert_eq!(
        simple.words(),
        ["RUST_LOG=debug", "CARGO_TERM_COLOR=never", "cargo", "test"]
    );
}

#[test]
fn simple_docker_classification_accepts_only_supported_executables() {
    let commands = [
        "docker",
        "docker ps",
        "DOCKER_CLI_HINTS=false docker compose ps",
        "'docker' inspect example",
        "docker-compose up",
    ];

    let recognized =
        commands.map(|command| classify_command(command).is_simple_docker_invocation());

    assert_eq!(recognized, [true; 5]);
}

#[test]
fn simple_docker_classification_rejects_wrappers_paths_and_compound_syntax() {
    let commands = [
        "/usr/bin/docker ps",
        "env docker ps",
        "sudo docker ps",
        "make docker-test",
        "docker ps | cat",
        "docker ps && echo done",
        "docker ps > containers.txt",
        "docker $(cat command)",
        "docker ps\nwhoami",
    ];

    let recognized =
        commands.map(|command| classify_command(command).is_simple_docker_invocation());

    assert_eq!(recognized, [false; 9]);
}

#[test]
fn command_position_recognition_finds_docker_in_common_compound_syntax() {
    let commands = [
        "docker ps 2>&1; echo done",
        "which docker; docker --version 2>&1",
        "echo ready && docker compose version",
        "printf ready | docker ps",
        "RUST_LOG=debug docker-compose up > compose.log",
        "echo first\ndocker ps",
        "> probe.log docker version",
    ];

    let recognized = commands.map(|command| invokes_direct_executable(command, "docker"));
    let compose = invokes_direct_executable(commands[4], "docker-compose");

    assert_eq!(recognized, [true, true, true, true, false, true, true]);
    assert!(compose);
}

#[test]
fn command_position_recognition_ignores_mentions_wrappers_and_ambiguous_syntax() {
    let commands = [
        "echo docker",
        "rg docker crates",
        "printf '%s' 'docker ps; docker version'",
        "echo > docker",
        "/usr/bin/docker ps",
        "env docker ps",
        "sudo docker ps",
        "docker() { malicious; }; docker",
        "cat <<EOF\ndocker ps\nEOF",
        "echo $(docker ps)",
        "if docker ps; then echo yes; fi",
        "# docker ps\necho no",
    ];

    let recognized = commands.map(|command| invokes_direct_executable(command, "docker"));

    assert_eq!(recognized, [false; 12]);
}

#[test]
fn classify_command_allows_quoted_shell_metacharacters() {
    let command = r#"printf '%s' 'a | b; $(still text)' "#;

    let classification = classify_command(command);

    assert_eq!(
        classification,
        CommandClassification::Simple(SimpleCommand {
            executable_index: 0,
            words: vec![
                "printf".to_string(),
                "%s".to_string(),
                "a | b; $(still text)".to_string(),
            ],
        })
    );
}

#[test]
fn classify_command_rejects_compound_or_dynamic_shell_syntax() {
    let commands = [
        "cargo test | tee output.txt",
        "cargo test && cargo clippy",
        "cargo test; cargo clippy",
        "cargo test > output.txt",
        "echo $(whoami)",
        "echo `whoami`",
        "echo $HOME",
        "echo ${HOME}",
        "echo *",
        "echo ?",
        "echo ~",
        "echo one\necho two",
        "echo one\r\necho two",
        "echo one\\\necho two",
        "echo one # comment",
        "(cargo test)",
        "{ cargo test; }",
        "if true; then echo yes; fi",
    ];

    let classifications = commands.map(classify_command);

    assert!(
        classifications
            .iter()
            .all(|classification| *classification == CommandClassification::Complex)
    );
}

#[test]
fn classify_command_rejects_incomplete_or_executable_free_input() {
    let commands = [
        "",
        "   ",
        "RUST_LOG=debug",
        "echo 'unterminated",
        "echo \"unterminated",
        "echo trailing\\",
        "# comment",
    ];

    let classifications = commands.map(classify_command);

    assert!(
        classifications
            .iter()
            .all(|classification| *classification == CommandClassification::Complex)
    );
}

#[test]
fn lines_are_read_apart() {
    for (first, second) in [
        ("echo ready", "docker ps"),
        ("docker ps # list", "echo 'done'"),
        ("true #", "docker ps"),
        ("true\r", "docker ps"),
        ("", "docker ps"),
        ("docker ps >", "out"),
    ] {
        let command = format!("{first}\n{second}");
        let mut tokens = tokenize_command_positions(first).unwrap();
        tokens.push(CommandToken::Boundary);
        tokens.extend(tokenize_command_positions(second).unwrap());

        assert_eq!(tokenize_command_positions(&command), Some(tokens));
        assert!(invokes_direct_executable(&command, "docker"));
    }
    assert!(!invokes_direct_executable("echo docker\necho docker", "docker"));
}
