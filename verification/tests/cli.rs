use cane::cli::options::{
    allowed_roots, discover_docker_endpoint, parse_cli_command, resolve_cane_home,
    resolved_instructions, split_search_path, unsafe_shell_warning, unsafe_visible_path,
    user_docker_socket, user_executable_roots, user_root_candidates, CliCommand, CliShellMode,
    ObservedDirectory,
};
use cane::cli::repl::{
    approval_options, capability_notice, input_line, read_answer, show, ApprovalAnswer, Repl,
    ReplAction, ReplStep, ReplStimulus,
};
use cane::cli::shell::{command_environment, configure_shell, ShellConfiguration, ShellSetup};
use cane::command::output::CommandOutputChunk;
use cane::journal::schema::ShellMode;
use cane::message::StopReason;
use cane::path::HostPath;
use cane::protocol::{
    AgentEvent, ApprovalDecision, ApprovalLifetime, ApprovalSubject, NamedCapability,
    ShutdownReason, TurnOutcome,
};
use serde_json::Value;
use std::collections::HashSet;

fn path(text: &str) -> HostPath {
    HostPath::from_text(text)
}

fn arguments(texts: &[&str]) -> Vec<Vec<u8>> {
    texts.iter().map(|text| text.as_bytes().to_vec()).collect()
}

#[test]
fn cane_home_overrides_the_platform_home_directory() {
    let resolved =
        resolve_cane_home(Some(path("/configured/cane")), Some(path("/users/example")));

    assert_eq!(resolved, Some(path("/configured/cane")));
}

#[test]
fn platform_home_uses_the_dot_cane_default() {
    let resolved = resolve_cane_home(None, Some(path("/users/example")));

    assert_eq!(resolved, Some(path("/users/example/.cane")));
}

#[test]
fn empty_cane_home_falls_back_to_the_platform_home_directory() {
    let resolved = resolve_cane_home(Some(path("")), Some(path("/users/example")));

    assert_eq!(resolved, Some(path("/users/example/.cane")));
    assert_eq!(resolve_cane_home(Some(path("")), Some(path(""))), None);
}

#[test]
fn doctor_is_a_standalone_switch() {
    let doctor_result = parse_cli_command(&arguments(&["--doctor"]));
    let positional_result = parse_cli_command(&arguments(&["doctor"]));
    let extra_result = parse_cli_command(&arguments(&["--doctor", "--json"]));

    assert_eq!(doctor_result.unwrap(), CliCommand::Doctor);
    assert!(positional_result.is_err());
    assert!(extra_result.is_err());
}

#[test]
fn shell_switches_select_explicit_mutually_exclusive_modes() {
    let default_result = parse_cli_command(&arguments(&[]));
    let disabled_result = parse_cli_command(&arguments(&["--no-shell"]));
    let unsafe_result = parse_cli_command(&arguments(&["--unsafe-shell"]));
    let conflict_results = [["--no-shell", "--unsafe-shell"], ["--unsafe-shell", "--no-shell"]]
        .map(|both| parse_cli_command(&arguments(&both)));

    assert_eq!(
        default_result.unwrap(),
        CliCommand::Chat { shell_mode: CliShellMode::Sandboxed }
    );
    assert_eq!(
        disabled_result.unwrap(),
        CliCommand::Chat { shell_mode: CliShellMode::Disabled }
    );
    assert_eq!(
        unsafe_result.unwrap(),
        CliCommand::Chat { shell_mode: CliShellMode::Unsafe }
    );
    assert!(conflict_results.iter().all(Result::is_err));
}

#[test]
fn resolved_shell_instructions_state_the_command_contract_and_boundaries() {
    let disabled_instructions = resolved_instructions(ShellMode::Disabled);
    let sandboxed_instructions = resolved_instructions(ShellMode::Sandboxed);
    let unsafe_instructions = resolved_instructions(ShellMode::Unsafe);

    assert!(disabled_instructions.contains("No shell tool is available"));
    for instructions in [&sandboxed_instructions, &unsafe_instructions] {
        assert!(instructions.contains("`/bin/bash --noprofile --norc -c`"));
        assert!(instructions.contains("one-time user approval"));
        assert!(instructions.contains("defaults to 600"));
        assert!(instructions.contains("between 1 and 1800"));
        assert!(instructions.contains("`cd` does not persist"));
    }
    assert!(sandboxed_instructions.contains("no external network"));
    assert!(unsafe_instructions.contains("not sandboxed"));
    assert!(unsafe_shell_warning().contains("unsandboxed host processes"));
}

#[test]
fn docker_discovery_accepts_only_absolute_unix_endpoints_from_the_environment() {
    let discover =
        |text: &str| discover_docker_endpoint(Some(path(text)), None, false, false);

    let unix_endpoint = discover("unix:///run/user/1000/docker.sock");
    let tcp_endpoint = discover("tcp://localhost:2375");
    let relative_endpoint = discover("unix://docker.sock");

    assert_eq!(unix_endpoint, Some(path("/run/user/1000/docker.sock")));
    assert_ne!(tcp_endpoint, Some(path("localhost:2375")));
    assert_ne!(relative_endpoint, Some(path("docker.sock")));
}

#[test]
fn docker_discovery_falls_back_to_the_sockets_that_exist() {
    let runtime = || Some(path("/run/user/1000"));

    assert_eq!(
        discover_docker_endpoint(None, runtime(), true, true),
        Some(path("/var/run/docker.sock"))
    );
    assert_eq!(
        discover_docker_endpoint(None, runtime(), false, true),
        Some(path("/run/user/1000/docker.sock"))
    );
    assert_eq!(discover_docker_endpoint(None, runtime(), false, false), None);
    assert_eq!(user_docker_socket(Some(path(""))), None);
}

#[test]
fn search_paths_are_split_at_their_colons() {
    assert_eq!(
        split_search_path(b"/usr/bin::bin"),
        [path("/usr/bin"), path(""), path("bin")]
    );
}

#[test]
fn user_executables_lie_in_the_home_directory() {
    let candidates = user_root_candidates(&path("/home/a"));
    assert_eq!(candidates, [path("/home/a/.local/bin"), path("/home/a/bin")]);

    let observed = vec![
        ObservedDirectory { is_directory: false, path: candidates[0].clone() },
        ObservedDirectory { is_directory: true, path: candidates[1].clone() },
    ];

    assert_eq!(user_executable_roots(&observed), [path("/home/a/bin")]);
}

#[test]
fn the_unsafe_search_path_stays_within_the_allowed_roots() {
    let allowed: Vec<ObservedDirectory> = allowed_roots(Some(path("/home/a")))
        .into_iter()
        .map(|path| ObservedDirectory { is_directory: true, path })
        .collect();
    let inherited: Vec<ObservedDirectory> = ["/opt/bin", "/nix/store/x/bin", "bin", "/usr/bin"]
        .iter()
        .map(|text| ObservedDirectory { is_directory: true, path: path(text) })
        .collect();

    assert_eq!(
        unsafe_visible_path(&inherited, &allowed),
        [path("/nix/store/x/bin"), path("/usr/bin")]
    );
    assert_eq!(unsafe_visible_path(&Vec::new(), &allowed).len(), 9);
}

#[test]
fn command_paths_have_to_be_text() {
    let odd = HostPath::from_bytes(vec![b'/', 0xff]);

    assert_eq!(
        command_environment(&odd, &[path("/usr/bin")], &path("/tmp")).unwrap_err(),
        "command HOME is not valid UTF-8: '/\u{fffd}'"
    );
    assert!(command_environment(&path("/h"), &[odd], &path("/tmp")).is_err());
    assert!(command_environment(&path("/h"), &[], &path("/tmp")).is_err());
    assert!(command_environment(&path("/h"), &[path("/usr/bin")], &path("/tmp")).is_ok());
}

#[test]
fn each_shell_mode_has_its_configuration() {
    assert!(matches!(
        configure_shell(ShellSetup::Disabled),
        Ok(ShellConfiguration::Disabled)
    ));
    assert!(matches!(
        configure_shell(ShellSetup::Unsafe {
            visible_path: vec![path("/usr/bin")],
            workspace: path("/workspace"),
        }),
        Ok(ShellConfiguration::Unsafe { .. })
    ));
}

#[test]
fn there_is_no_shell_but_on_linux() {
    assert!(matches!(
        configure_shell(ShellSetup::Elsewhere { mode: CliShellMode::Disabled }),
        Ok(ShellConfiguration::Disabled)
    ));
    for mode in [CliShellMode::Sandboxed, CliShellMode::Unsafe] {
        assert!(matches!(
            configure_shell(ShellSetup::Elsewhere { mode }),
            Err(words)
                if words == "shell execution is currently supported only on Linux; use `--no-shell`"
        ));
    }
}

fn offered_tool_lifetimes() -> Vec<ApprovalLifetime> {
    vec![ApprovalLifetime::Invocation, ApprovalLifetime::Run]
}

fn tool_subject() -> ApprovalSubject {
    ApprovalSubject::tool_call("call_abc", "write_file")
}

/// What a conversation came to.
struct Conversation {
    output: String,
    said: Vec<String>,
    answers: Vec<ApprovalDecision>,
    last: ReplAction,
}

/// Plays a conversation. Lines are read when the terminal asks for them, and the agent says the
/// events in turn; it is gone when they are used up.
fn converse(lines: &str, events: Vec<AgentEvent>, listening: bool) -> Conversation {
    let mut lines = lines.lines();
    let mut events = events.into_iter();
    let mut output = String::new();
    let mut said = Vec::new();
    let mut answers = Vec::new();
    let (mut repl, mut step) = Repl::start();
    loop {
        let ReplStep { action, output: text } = step;
        output.push_str(&text);
        let stimulus = match action {
            ReplAction::AwaitInput | ReplAction::AwaitAnswer => {
                ReplStimulus::Line(lines.next().map(input_line))
            }
            ReplAction::AwaitEvent => ReplStimulus::Event(events.next()),
            ReplAction::Say(line) => {
                said.push(line);
                if listening {
                    ReplStimulus::Taken
                } else {
                    ReplStimulus::NotTaken
                }
            }
            ReplAction::Respond(decision) => {
                answers.push(decision);
                ReplStimulus::Taken
            }
            last => return Conversation { output, said, answers, last },
        };
        step = repl.hear(stimulus);
    }
}

fn turn_complete() -> AgentEvent {
    AgentEvent::TurnComplete {
        outcome: TurnOutcome::Completed { stop_reason: StopReason::EndTurn },
    }
}

fn approval_request() -> AgentEvent {
    AgentEvent::ApprovalRequest {
        available_lifetimes: offered_tool_lifetimes(),
        input: Value::Null,
        subject: tool_subject(),
    }
}

/// What the user answers to one request, and what is written meanwhile.
fn decide(lines: &str) -> Conversation {
    let mut all = String::from("go\n");
    all.push_str(lines);
    converse(&all, vec![approval_request()], true)
}

#[test]
fn run_displays_tool_errors_but_hides_successful_tool_output() {
    let started = || AgentEvent::ToolStarted {
        input: Value::Null,
        name: "read_file".to_string(),
    };
    let finished = |output: &str, is_error: bool| AgentEvent::ToolFinished {
        is_error,
        name: "read_file".to_string(),
        output: output.to_string(),
    };

    let ran = converse(
        "inspect files\n/quit\n",
        vec![
            started(),
            finished("secret successful output", false),
            started(),
            finished("access denied", true),
            AgentEvent::TextDelta("I could not read it.".to_string()),
            turn_complete(),
        ],
        true,
    );

    assert_eq!(
        ran.output,
        "> \n[tool: read_file null]\n\n[tool: read_file null]\n[tool error: access denied]\nI could not read it.\n> "
    );
    assert!(!ran.output.contains("secret successful output"));
}

#[test]
fn run_displays_live_command_output_in_observed_order() {
    let ran = converse(
        "build\n/quit\n",
        vec![
            AgentEvent::ToolStarted { input: Value::Null, name: "shell".to_string() },
            AgentEvent::CommandOutput(CommandOutputChunk::stdout(b"building ".to_vec())),
            AgentEvent::CommandOutput(CommandOutputChunk::stderr(b"warning\n".to_vec())),
            AgentEvent::ToolFinished {
                is_error: false,
                name: "shell".to_string(),
                output: "process exited with code 0".to_string(),
            },
            turn_complete(),
        ],
        true,
    );

    assert_eq!(ran.output, "> \n[tool: shell null]\nbuilding warning\n\n> ");
}

#[test]
fn run_displays_an_approval_request_and_sends_allow_through_its_responder() {
    let ran = converse(
        "write the file\ny\n/quit\n",
        vec![approval_request(), turn_complete()],
        true,
    );

    assert_eq!(
        ran.answers,
        [ApprovalDecision::Grant(tool_subject().grant(ApprovalLifetime::Invocation))]
    );
    assert_eq!(
        ran.output,
        "> \n[approval request: write_file null] [y,n,a]\n> \n> "
    );
}

#[test]
fn run_writes_agent_errors_to_the_output() {
    let ran = converse(
        "hello\n/quit\n",
        vec![
            AgentEvent::Error("provider fell over".to_string()),
            AgentEvent::TurnComplete { outcome: TurnOutcome::Failed },
        ],
        true,
    );

    assert_eq!(ran.output, "> \nerror: provider fell over\n\n> ");
}

#[test]
fn run_displays_a_pause_and_accepts_a_continuation() {
    let ran = converse(
        "start\nContinue\n/quit\n",
        vec![
            AgentEvent::TurnComplete {
                outcome: TurnOutcome::Paused {
                    reason: "provider round budget reached".to_string(),
                },
            },
            turn_complete(),
        ],
        true,
    );

    assert_eq!(ran.said, ["start", "Continue"]);
    assert_eq!(ran.output, "> \npaused: provider round budget reached\n> \n> ");
}

#[test]
fn run_returns_after_a_cancelled_turn_without_processing_more_input() {
    let ran = converse(
        "start something\nnever read\n",
        vec![AgentEvent::TurnComplete { outcome: TurnOutcome::Cancelled }],
        true,
    );

    assert_eq!(ran.output, "> \n");
    assert_eq!(ran.said, ["start something"]);
    assert!(matches!(ran.last, ReplAction::Leave));
}

#[test]
fn run_treats_idle_eof_as_a_clean_exit() {
    let ran = converse("", Vec::new(), true);

    assert_eq!(ran.output, "> ");
    assert!(matches!(ran.last, ReplAction::Quit(ShutdownReason::InputClosed)));
}

#[test]
fn run_reports_an_explicit_user_quit() {
    let ran = converse("/quit\n", Vec::new(), true);

    assert_eq!(ran.output, "> ");
    assert!(matches!(ran.last, ReplAction::Quit(ShutdownReason::UserQuit)));
}

#[test]
fn run_exits_cleanly_when_the_agent_command_channel_is_closed() {
    let ran = converse("hello\n", Vec::new(), false);

    assert_eq!(ran.output, "> ");
    assert!(matches!(ran.last, ReplAction::Leave));
}

#[test]
fn run_exits_when_an_idle_agent_stops_while_input_is_blocked() {
    let (mut repl, first) = Repl::start();

    let step = repl.hear(ReplStimulus::Event(None));

    assert_eq!(first.output, "> ");
    assert_eq!(step.output, "");
    assert!(matches!(step.action, ReplAction::Leave));
}

#[test]
fn an_idle_agent_may_report_trouble_but_nothing_else() {
    let (mut repl, _) = Repl::start();

    let warned = repl.hear(ReplStimulus::Event(Some(AgentEvent::Warning("slow".to_string()))));
    let unexpected = repl.hear(ReplStimulus::Event(Some(turn_complete())));

    assert_eq!(warned.output, "\nwarning: slow\n> ");
    assert!(matches!(warned.action, ReplAction::AwaitInput));
    assert!(matches!(unexpected.action, ReplAction::Unexpected(_)));
}

#[test]
fn a_turn_that_the_agent_leaves_is_an_error() {
    let ran = converse("hello\n", Vec::new(), true);

    assert!(matches!(
        ran.last,
        ReplAction::Fail(words) if words == "agent stopped before completing the turn"
    ));
}

#[test]
fn cancellation_takes_a_pending_question_away() {
    let (mut repl, _) = Repl::start();
    repl.hear(ReplStimulus::Line(Some("go".to_string())));
    repl.hear(ReplStimulus::Taken);
    repl.hear(ReplStimulus::Event(Some(approval_request())));

    let step = repl.hear(ReplStimulus::Cancelled);

    assert!(matches!(step.action, ReplAction::AwaitEvent));
}

#[test]
fn read_decision_returns_deny_with_the_entered_reason() {
    let decided = decide("n\nit would clobber my changes\n");

    assert_eq!(
        decided.answers,
        [ApprovalDecision::Deny { reason: "it would clobber my changes".to_string() }]
    );
    assert!(decided.output.ends_with("> \nreason:\n> "));
}

#[test]
fn approval_options_only_list_offered_grant_lifetimes() {
    let available_lifetimes = vec![ApprovalLifetime::Run, ApprovalLifetime::Workspace];

    let options = approval_options(&available_lifetimes);

    assert_eq!(options, "[n,a,w]");
}

#[test]
fn docker_capability_notice_states_the_host_authority_and_persistence_risks() {
    let subject = ApprovalSubject::capability(
        NamedCapability::docker_daemon("unix:///run/user/1000/docker.sock"),
        "shell-1",
        "shell",
    );

    let notice = capability_notice(&subject).unwrap();

    assert!(notice.contains("mount arbitrary host paths"));
    assert!(notice.contains("external networks"));
    assert!(notice.contains("persistent host effects"));
    assert!(notice.contains("does not make Docker safe"));
    assert!(notice.contains("containers may outlive"));
    assert!(notice.contains("unix:///run/user/1000/docker.sock"));
    assert_eq!(capability_notice(&tool_subject()), None);
}

#[test]
fn read_decision_treats_an_empty_decision_as_deny() {
    let decided = decide("\nnot like that\n");

    assert_eq!(
        decided.answers,
        [ApprovalDecision::Deny { reason: "not like that".to_string() }]
    );
}

#[test]
fn read_decision_accepts_allow_for_run_case_insensitively_with_whitespace() {
    let decided = decide("  A  \n");

    assert_eq!(
        decided.answers,
        [ApprovalDecision::Grant(tool_subject().grant(ApprovalLifetime::Run))]
    );
}

#[test]
fn read_decision_reprompts_after_unrecognized_input() {
    let decided = decide("maybe\ny\n");

    assert_eq!(
        decided.answers,
        [ApprovalDecision::Grant(tool_subject().grant(ApprovalLifetime::Invocation))]
    );
    assert!(decided.output.ends_with("[y,n,a]\n> > "));
}

#[test]
fn read_decision_errors_on_eof_before_a_decision() {
    assert!(matches!(decide("").last, ReplAction::Fail(words) if words == "eof"));
}

#[test]
fn read_decision_errors_on_eof_before_a_denial_reason() {
    let decided = decide("n\n");

    assert!(matches!(decided.last, ReplAction::Fail(words) if words == "eof"));
    assert!(decided.output.contains("reason:"));
}

#[test]
fn answers_mean_what_they_lower_case_to() {
    let offered = [
        ApprovalLifetime::Invocation,
        ApprovalLifetime::Run,
        ApprovalLifetime::Workspace,
    ];

    for character in '\0'..=char::MAX {
        let line = character.to_string();
        let expected = match line.trim().to_lowercase().as_str() {
            "" | "n" => ApprovalAnswer::Deny,
            "a" => ApprovalAnswer::Grant(ApprovalLifetime::Run),
            "w" => ApprovalAnswer::Grant(ApprovalLifetime::Workspace),
            "y" => ApprovalAnswer::Grant(ApprovalLifetime::Invocation),
            _ => ApprovalAnswer::Unclear,
        };
        assert_eq!(read_answer(&line, &offered), expected, "{character:?}");
    }
    assert_eq!(read_answer("w", &[ApprovalLifetime::Run]), ApprovalAnswer::Unclear);
}

#[test]
fn events_show_what_the_user_has_to_know() {
    let mut input = serde_json::Map::new();
    input.insert("path".to_string(), Value::from("a\"b"));

    assert_eq!(
        show(&AgentEvent::ToolStarted {
            input: Value::Object(input),
            name: "read_file".to_string(),
        }),
        "\n[tool: read_file {\"path\":\"a\\\"b\"}]\n"
    );
    assert_eq!(
        show(&AgentEvent::ToolDenied {
            name: "shell".to_string(),
            reason: "not now".to_string(),
        }),
        "[tool denied: not now]\n"
    );
    assert_eq!(
        show(&AgentEvent::CommandOutput(CommandOutputChunk::stdout(vec![b'a', 0xff]))),
        "a\u{fffd}"
    );
    assert_eq!(
        show(&AgentEvent::CommandOutput(CommandOutputChunk::stderr("größer 🦀".into()))),
        "größer 🦀"
    );
}

#[test]
fn paths_are_equal_by_their_components() {
    assert_eq!(path("/a/b"), path("/a//b/"));
    assert_eq!(path("/a/b"), path("/a/./b/."));
    assert_ne!(path("/a/b"), path("a/b"));
    assert_ne!(path("./a"), path("a"));
    assert_ne!(path("/a/b/.."), path("/a"));
    assert!(path("/a/b").same(&path("/a//b/")));
    assert!(!path("/a/b").same(&path("a/b")));
    assert_eq!(path("/a//b/").display(), "/a//b/");
}

#[test]
fn equal_paths_hash_alike() {
    let paths: HashSet<HostPath> =
        [path("/a/b"), path("/a//b/"), path("/a/./b"), path("/a/c")].into_iter().collect();

    assert_eq!(paths.len(), 2);
    assert!(paths.contains(&path("/a/c/")));
}
