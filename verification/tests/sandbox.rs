use cane::command::docker::{
    DockerEndpoint, DockerEndpointError, DockerExecutable, DockerExecutableError,
    DockerExecutableName, DockerIntegration, FileMetadata, FileObservation,
};
use cane::command::executor::{
    establish_bubblewrap_executor, BubblewrapExecutor, CommandExecutionMode, ProcessLaunch,
    ResolvedDirectory, UnsafeExecutor,
};
use cane::command::diagnostics::{DiagnosticStatus, SandboxDiagnosticReport};
use cane::command::linux::diagnosis::{
    diagnose_linux_sandbox, probe_arguments, probe_capability_name, runtime_root_candidates,
    LinuxHostFacts, ProbeOutput, ResolvedWorkspace, SandboxDiagnosticInput,
    PROBE_CAPABILITY_COUNT,
};
use cane::command::linux::git::{
    check_git_pointer, discover_git_metadata, git_candidates, linked_worktree_metadata,
    pointed_git_directory, resolve_git_pointer_path, DotGit, DotGitObservation, GitDiscovery, LinkedWorktreeFacts,
};
use cane::command::linux::launcher::{
    resolve_bubblewrap, resolve_bubblewrap_from, trusted_candidates, trusted_target_roots,
    BubblewrapCandidate, BubblewrapResolutionError, CandidateObservation, LauncherObservations,
};
use cane::command::linux::plan::{compile_linux_sandbox_plan, LinuxSandboxOperation};
use cane::command::policy::{
    build_command_sandbox_policy, CommandSandboxPolicyConfig, CommandSandboxPolicyError,
    ObservedPath, SandboxFilesystemAccess, SandboxPathGrant, SandboxPathPurpose,
};
use cane::command::request::{
    prepare_shell_command, CommandEnvironmentConfig, CommandRequest, ShellInput,
    WorkdirResolution,
};
use cane::command::supervise::CommandExecutionError;
use cane::environment::Environment;
use cane::path::HostPath;

fn path(text: &str) -> HostPath {
    HostPath::from_text(text)
}

fn directory(text: &str) -> ObservedPath {
    ObservedPath {
        canonical: Some(path(text)),
        is_directory: true,
        is_symlink: false,
        path: path(text),
        unavailable: None,
    }
}

fn missing(text: &str) -> ObservedPath {
    ObservedPath {
        canonical: None,
        is_directory: false,
        is_symlink: false,
        path: path(text),
        unavailable: Some("No such file or directory".to_string()),
    }
}

fn config() -> CommandSandboxPolicyConfig {
    CommandSandboxPolicyConfig {
        git_metadata_roots: vec![directory("/host/workspace/.git")],
        inherited_path: vec![directory("/host/ambient/bin"), directory("/host/runtime/bin")],
        pass_through_roots: Vec::new(),
        private_home: path("/host/private-home"),
        private_temp: path("/host/private-temp"),
        runtime_roots: vec![directory("/host/runtime")],
        toolchain_roots: Vec::new(),
        workspace: directory("/host/workspace"),
    }
}

#[test]
fn policy_keeps_only_path_entries_beneath_declared_roots() {
    let policy = build_command_sandbox_policy(config()).unwrap();

    assert_eq!(policy.executable_path(), [path("/host/runtime/bin")]);
    assert_eq!(policy.excluded_path_entries(), [path("/host/ambient/bin")]);
    assert_eq!(policy.workspace(), &path("/host/workspace"));
}

#[test]
fn policy_orders_workspace_before_read_only_git_overlays() {
    let policy = build_command_sandbox_policy(config()).unwrap();

    let workspace = policy
        .grants()
        .iter()
        .position(|grant| grant.purpose == SandboxPathPurpose::Workspace)
        .unwrap();
    let git = policy
        .grants()
        .iter()
        .position(|grant| grant.purpose == SandboxPathPurpose::GitMetadata)
        .unwrap();
    assert!(workspace < git);
    assert_eq!(
        policy.grants()[git],
        SandboxPathGrant {
            access: SandboxFilesystemAccess::ReadOnly,
            path: path("/host/workspace/.git"),
            purpose: SandboxPathPurpose::GitMetadata,
        }
    );
}

#[test]
fn policy_rejects_missing_roots_and_host_root_exposure() {
    let mut absent = config();
    absent.runtime_roots = vec![missing("/host/workspace/missing")];
    let mut host_root = config();
    host_root.pass_through_roots = vec![directory("/")];

    assert!(matches!(
        build_command_sandbox_policy(absent).unwrap_err(),
        CommandSandboxPolicyError::UnavailablePath { name: "runtime", .. }
    ));
    assert_eq!(
        build_command_sandbox_policy(host_root).unwrap_err(),
        CommandSandboxPolicyError::RootExposure { name: "pass-through", path: path("/") }
    );
}

#[test]
fn policy_fails_closed_when_no_visible_path_entry_remains() {
    let mut bare = config();
    bare.inherited_path = vec![directory("/host/ambient/bin")];

    assert!(matches!(
        build_command_sandbox_policy(bare).unwrap_err(),
        CommandSandboxPolicyError::UnavailablePath { name: "executable PATH", .. }
    ));
}

#[test]
fn policy_rejects_a_pass_through_symlink_into_an_undeclared_tree() {
    let mut linked = config();
    linked.pass_through_roots = vec![ObservedPath {
        canonical: Some(path("/host/outside")),
        is_directory: true,
        is_symlink: true,
        path: path("/host/linked-tools"),
        unavailable: None,
    }];

    assert!(matches!(
        build_command_sandbox_policy(linked).unwrap_err(),
        CommandSandboxPolicyError::UnavailablePath { detail, name: "pass-through", .. }
            if detail == "symbolic-link grants are not permitted"
    ));
}

#[test]
fn policy_rejects_a_grant_that_would_replace_a_private_directory() {
    let mut broad = config();
    broad.pass_through_roots = vec![directory("/host")];

    let error = build_command_sandbox_policy(broad).unwrap_err();

    assert_eq!(
        error,
        CommandSandboxPolicyError::PrivateDirectoryShadowed {
            grant: path("/host"),
            private_directory: path("/host/private-home"),
            purpose: SandboxPathPurpose::PassThrough,
        }
    );
    assert_eq!(
        error.describe(),
        "PassThrough grant `/host` would hide private sandbox directory `/host/private-home`"
    );
}

#[test]
fn private_directories_have_to_differ_and_paths_to_be_absolute() {
    let mut shared = config();
    shared.private_temp = path("/host/private-home");
    let mut relative = config();
    relative.private_home = path("private-home");

    assert_eq!(
        build_command_sandbox_policy(shared).unwrap_err(),
        CommandSandboxPolicyError::SharedPrivateDirectory
    );
    assert!(matches!(
        build_command_sandbox_policy(relative).unwrap_err(),
        CommandSandboxPolicyError::RelativePath { .. }
    ));
}

#[test]
fn linux_plan_uses_positive_mounts_and_overlays_git_metadata_read_only() {
    let mut granted = config();
    granted.private_home = path("/home/cane");
    granted.private_temp = path("/tmp");
    let policy = build_command_sandbox_policy(granted).unwrap();

    let plan = compile_linux_sandbox_plan(&policy);

    assert!(plan.arguments().contains(&b"--unshare-net".to_vec()));
    assert!(!plan.arguments().contains(&b"/".to_vec()));
    let place = |operation: LinuxSandboxOperation| {
        plan.operations().iter().position(|candidate| *candidate == operation).unwrap()
    };
    let workspace = place(LinuxSandboxOperation::ReadWriteBind { path: path("/host/workspace") });
    let git = place(LinuxSandboxOperation::ReadOnlyBind { path: path("/host/workspace/.git") });
    assert!(workspace < git);
    assert!(plan
        .operations()
        .contains(&LinuxSandboxOperation::ReadOnlyBind { path: path("/host/runtime") }));
}

fn executable_at(text: &str, canonical: &str, mode: u32) -> BubblewrapCandidate {
    BubblewrapCandidate {
        observation: CandidateObservation::Found {
            canonical: Ok(path(canonical)),
            is_file: true,
            mode,
        },
        path: path(text),
    }
}

#[test]
fn trusted_resolution_ignores_path_and_accepts_only_fixed_candidate_targets() {
    let candidates = vec![
        executable_at("/work/bwrap", "/work/bwrap", 0o755),
        executable_at("/trusted/bwrap", "/trusted/bwrap", 0o755),
    ];

    let installation = resolve_bubblewrap_from(&candidates, &vec![path("/trusted")]).unwrap();

    assert_eq!(installation.path(), &path("/trusted/bwrap"));
}

#[test]
fn trusted_resolution_rejects_a_candidate_symlinked_outside_system_roots() {
    let candidates = vec![executable_at("/trusted/bwrap", "/work/bwrap", 0o755)];

    let error = resolve_bubblewrap_from(&candidates, &vec![path("/trusted")]).unwrap_err();

    assert!(matches!(
        error,
        BubblewrapResolutionError::Rejected { rejections }
            if rejections[0].contains("outside trusted system roots")
    ));
}

#[test]
fn a_launcher_that_is_nowhere_is_not_found() {
    let candidates = vec![BubblewrapCandidate {
        observation: CandidateObservation::Missing,
        path: path("/trusted/bwrap"),
    }];

    assert_eq!(
        resolve_bubblewrap_from(&candidates, &vec![path("/trusted")]).unwrap_err(),
        BubblewrapResolutionError::NotFound { searched: vec![path("/trusted/bwrap")] }
    );
}

#[test]
fn the_launcher_is_looked_for_in_three_places() {
    let found = |canonical: &str| CandidateObservation::Found {
        canonical: Ok(path(canonical)),
        is_file: true,
        mode: 0o555,
    };

    let observed = |usr_bin, bin, current_system| LauncherObservations {
        bin,
        current_system,
        roots: trusted_target_roots(),
        usr_bin,
    };

    let nix = resolve_bubblewrap(observed(
        CandidateObservation::Missing,
        CandidateObservation::Missing,
        found("/nix/store/bubblewrap/bin/bwrap"),
    ));
    let first = resolve_bubblewrap(observed(
        found("/usr/bin/bwrap"),
        found("/bin/bwrap"),
        CandidateObservation::Failed("denied".to_string()),
    ));
    let none = resolve_bubblewrap(observed(
        CandidateObservation::Missing,
        CandidateObservation::Missing,
        CandidateObservation::Missing,
    ));

    assert_eq!(nix.unwrap().path(), &path("/nix/store/bubblewrap/bin/bwrap"));
    assert_eq!(first.unwrap().path(), &path("/usr/bin/bwrap"));
    assert_eq!(
        none.unwrap_err(),
        BubblewrapResolutionError::NotFound { searched: trusted_candidates() }
    );
}

#[test]
fn git_metadata_is_looked_for_from_the_workspace_outwards() {
    assert_eq!(
        git_candidates(&path("/a/b")),
        [path("/a/b/.git"), path("/a/.git"), path("/.git")]
    );
    assert_eq!(
        discover_git_metadata(&vec![
            DotGit { observation: DotGitObservation::Missing, path: path("/a/b/.git") },
            DotGit {
                observation: DotGitObservation::Directory { canonical: Ok(path("/a/.git")) },
                path: path("/a/.git"),
            },
        ]),
        GitDiscovery::Directory(path("/a/.git"))
    );
    assert_eq!(
        discover_git_metadata(&vec![DotGit {
            observation: DotGitObservation::Other,
            path: path("/a/.git"),
        }]),
        GitDiscovery::Failed("/a/.git is neither a file nor directory".to_string())
    );
}

#[test]
fn linked_worktree_metadata_includes_the_git_file_private_dir_and_common_dir() {
    let dot_git = path("/work/tree/.git");
    let pointed = pointed_git_directory(&dot_git, "gitdir: /repo.git/worktrees/tree\n").unwrap();

    let metadata = linked_worktree_metadata(
        &dot_git,
        LinkedWorktreeFacts {
            backlink: Ok(path("/work/tree/.git")),
            common_dir: Ok(path("/repo.git")),
            dot_git: Ok(path("/work/tree/.git")),
            git_dir: Ok(path("/repo.git/worktrees/tree")),
            has_backlink: true,
            has_common_dir: true,
        },
    )
    .unwrap();

    assert_eq!(pointed, path("/repo.git/worktrees/tree"));
    assert_eq!(
        metadata,
        [path("/work/tree/.git"), path("/repo.git/worktrees/tree"), path("/repo.git")]
    );
}

#[test]
fn workspace_git_file_cannot_grant_an_arbitrary_external_directory() {
    let error = linked_worktree_metadata(
        &path("/work/tree/.git"),
        LinkedWorktreeFacts {
            backlink: Err("unread".to_string()),
            common_dir: Err("unread".to_string()),
            dot_git: Ok(path("/work/tree/.git")),
            git_dir: Ok(path("/outside")),
            has_backlink: false,
            has_common_dir: false,
        },
    )
    .unwrap_err();

    assert!(error.contains("supported linked worktree"));
    assert_eq!(
        pointed_git_directory(&path("/work/tree/.git"), "not a pointer"),
        Err("invalid .git file".to_string())
    );
    assert!(check_git_pointer(&path("/work/tree/.git"), 10).is_ok());
    assert!(check_git_pointer(&path("/work/tree/.git"), u64::MAX).is_err());
}

fn socket(canonical: &str) -> FileObservation {
    FileObservation {
        canonical: Ok(path(canonical)),
        metadata: Ok(FileMetadata {
            is_directory: false,
            is_file: false,
            is_socket: true,
            mode: 0o600,
        }),
    }
}

fn file(canonical: &str, mode: u32) -> FileObservation {
    FileObservation {
        canonical: Ok(path(canonical)),
        metadata: Ok(FileMetadata { is_directory: false, is_file: true, is_socket: false, mode }),
    }
}

#[test]
fn endpoint_canonicalizes_a_local_unix_socket_and_builds_its_resource_identity() {
    let endpoint =
        DockerEndpoint::validate(&path("/run/docker.sock"), socket("/run/daemon.sock")).unwrap();

    assert_eq!(endpoint.path(), &path("/run/daemon.sock"));
    assert_eq!(endpoint.resource(), "unix:///run/daemon.sock");
}

#[test]
fn endpoint_rejects_relative_missing_and_non_socket_paths() {
    assert!(matches!(
        DockerEndpoint::validate(&path("docker.sock"), socket("/run/docker.sock")),
        Err(DockerEndpointError::RelativePath { .. })
    ));
    assert!(matches!(
        DockerEndpoint::validate(
            &path("/run/missing.sock"),
            FileObservation {
                canonical: Err("not found".to_string()),
                metadata: Err("not found".to_string()),
            },
        ),
        Err(DockerEndpointError::Unavailable { .. })
    ));
    assert_eq!(
        DockerEndpoint::validate(&path("/run/regular"), file("/run/regular", 0o644)),
        Err(DockerEndpointError::NotUnixSocket { path: path("/run/regular") })
    );
    assert!(matches!(
        DockerEndpoint::validate(
            &path("/run/x"),
            FileObservation {
                canonical: Ok(HostPath::from_bytes(vec![b'/', 0xff])),
                metadata: socket("/run/x").metadata,
            },
        ),
        Err(DockerEndpointError::NonUtf8Path { .. })
    ));
}

#[test]
fn executable_validation_canonicalizes_symlinks_and_requires_an_executable_file() {
    let executable = DockerExecutable::validate(
        DockerExecutableName::Docker,
        &path("/usr/bin/docker"),
        file("/opt/docker", 0o755),
    )
    .unwrap();

    assert_eq!(executable.name(), DockerExecutableName::Docker);
    assert_eq!(executable.path(), &path("/opt/docker"));
    assert!(matches!(
        DockerExecutable::validate(
            DockerExecutableName::DockerCompose,
            &path("/usr/bin/docker-compose"),
            file("/usr/bin/docker-compose", 0o644),
        ),
        Err(DockerExecutableError::NotExecutable { .. })
    ));
    assert!(matches!(
        DockerExecutable::validate(
            DockerExecutableName::Docker,
            &path("/usr/bin"),
            FileObservation {
                canonical: Ok(path("/usr/bin")),
                metadata: Ok(FileMetadata {
                    is_directory: true,
                    is_file: false,
                    is_socket: false,
                    mode: 0o755,
                }),
            },
        ),
        Err(DockerExecutableError::NotRegularFile { .. })
    ));
}

fn docker(name: DockerExecutableName, text: &str) -> DockerExecutable {
    DockerExecutable::validate(name, &path(text), file(text, 0o755)).unwrap()
}

#[test]
fn an_integration_keeps_one_executable_of_each_name() {
    let endpoint =
        DockerEndpoint::validate(&path("/run/docker.sock"), socket("/run/docker.sock")).unwrap();

    let integration = DockerIntegration::new(endpoint).with_executables(vec![
        docker(DockerExecutableName::Docker, "/usr/bin/docker"),
        docker(DockerExecutableName::Docker, "/opt/docker"),
    ]);

    assert_eq!(integration.executables().len(), 1);
    assert_eq!(integration.executables()[0].path(), &path("/opt/docker"));
    assert!(integration.supports(DockerExecutableName::Docker));
    assert!(!integration.supports(DockerExecutableName::DockerCompose));
}

fn input() -> SandboxDiagnosticInput {
    SandboxDiagnosticInput {
        docker_endpoint: None,
        inherited_path: vec![directory("/usr/bin"), directory("/bin")],
        pass_through_roots: Vec::new(),
        toolchain_roots: Vec::new(),
        workspace: directory("/host/workspace"),
    }
}

fn probe(status: bool, stdout: &str, stderr: &str) -> Result<ProbeOutput, String> {
    Ok(ProbeOutput {
        status,
        stderr: stderr.as_bytes().to_vec(),
        stdout: stdout.as_bytes().to_vec(),
    })
}

fn facts(failing: Option<&str>) -> LinuxHostFacts {
    let launcher = resolve_bubblewrap_from(
        &vec![executable_at("/usr/bin/bwrap", "/usr/bin/bwrap", 0o755)],
        &vec![path("/usr/bin")],
    );
    let capability_probes = (0..PROBE_CAPABILITY_COUNT)
        .map(|at| {
            if failing == Some(probe_capability_name(at)) {
                probe(false, "", "capability unavailable")
            } else {
                probe(true, "", "")
            }
        })
        .collect();
    LinuxHostFacts {
        capability_probes,
        git_metadata: Ok(Vec::new()),
        has_bash: true,
        has_true: true,
        launcher,
        runtime_roots: vec![directory("/usr/bin"), directory("/bin")],
        version_probe: probe(true, "bubblewrap 1.2.3\n", ""),
        workspace: Ok(ResolvedWorkspace { is_directory: true, path: path("/host/workspace") }),
    }
}

fn status_of(report: &SandboxDiagnosticReport, name: &str) -> Option<DiagnosticStatus> {
    report.findings.iter().find(|finding| finding.name == name).map(|finding| finding.status)
}

#[test]
fn diagnostics_use_one_probe_path_and_keep_capability_failures_distinct() {
    let report = diagnose_linux_sandbox(input(), facts(Some("network namespace")));

    assert_eq!(report.bubblewrap_path, Some(path("/usr/bin/bwrap")));
    assert_eq!(report.bubblewrap_version.as_deref(), Some("bubblewrap 1.2.3"));
    assert!(!report.is_supported());
    assert_eq!(status_of(&report, "network namespace"), Some(DiagnosticStatus::Failed));
    assert_eq!(status_of(&report, "PID namespace"), Some(DiagnosticStatus::Passed));
}

#[test]
fn diagnostics_fail_closed_without_running_probes_when_bubblewrap_is_missing() {
    let mut absent = facts(None);
    absent.launcher = Err(BubblewrapResolutionError::NotFound {
        searched: vec![path("/usr/bin/missing-bwrap")],
    });
    absent.capability_probes = Vec::new();

    let report = diagnose_linux_sandbox(input(), absent);

    assert!(!report.is_supported());
    assert!(report.bubblewrap_path.is_none());
    assert_eq!(status_of(&report, "Bubblewrap resolution"), Some(DiagnosticStatus::Failed));
    assert_eq!(
        status_of(&report, "combined production capabilities"),
        Some(DiagnosticStatus::Failed)
    );
}

#[test]
fn every_probe_asks_for_what_it_names() {
    let network = (0..PROBE_CAPABILITY_COUNT)
        .find(|at| probe_capability_name(*at) == "network namespace")
        .unwrap();

    let arguments = probe_arguments(&vec![path("/usr")], network);

    assert!(arguments.contains(&b"--unshare-net".to_vec()));
    assert!(arguments.contains(&b"/usr".to_vec()));
}

#[test]
fn an_executor_is_established_only_on_a_sound_diagnosis() {
    let (executor, report) = establish_bubblewrap_executor(input(), facts(None)).unwrap();

    assert!(report.is_supported(), "{}", report.render());
    assert_eq!(executor.descriptor().backend, "bubblewrap");
    assert_eq!(executor.descriptor().mode, CommandExecutionMode::Sandboxed);
    let refused = establish_bubblewrap_executor(input(), facts(Some("PID namespace")));
    assert!(!refused.unwrap_err().is_supported());
}

fn request(command: &str) -> CommandRequest {
    let mut environment = Environment::new();
    environment.insert("PATH", "/usr/bin");
    CommandRequest {
        arguments: ["--noprofile", "--norc", "-c", command]
            .iter()
            .map(|argument| argument.to_string())
            .collect(),
        docker_endpoint: None,
        docker_executables: Vec::new(),
        environment,
        executable: "/bin/bash".to_string(),
        workdir: path("/host/workspace"),
    }
}

fn in_workspace() -> Result<ResolvedDirectory, String> {
    Ok(ResolvedDirectory { is_directory: true, path: path("/host/workspace") })
}

fn texts(launch: &ProcessLaunch) -> Vec<String> {
    launch
        .arguments
        .iter()
        .map(|argument| String::from_utf8(argument.clone()).unwrap())
        .collect()
}

fn values_of(arguments: &[String], name: &str) -> Vec<String> {
    arguments
        .windows(3)
        .filter(|window| window[0] == "--setenv" && window[1] == name)
        .map(|window| window[2].clone())
        .collect()
}

fn executor() -> BubblewrapExecutor {
    let policy = build_command_sandbox_policy(config()).unwrap();
    BubblewrapExecutor::with_launcher(path("/usr/bin/bwrap"), &policy)
}

#[test]
fn bubblewrap_exposes_docker_only_for_a_capability_bearing_request() {
    let endpoint =
        DockerEndpoint::validate(&path("/run/docker.sock"), socket("/run/docker.sock")).unwrap();
    let mut with_docker = request("docker ps");
    with_docker.environment.insert("DOCKER_HOST", "unix:///host/guess.sock");
    with_docker.docker_endpoint = Some(endpoint);
    with_docker.docker_executables = vec![
        docker(DockerExecutableName::Docker, "/opt/docker"),
        docker(DockerExecutableName::DockerCompose, "/opt/docker-compose"),
    ];

    let docker_arguments = texts(&executor().prepare_process(with_docker, &in_workspace()).unwrap());
    let ordinary = executor().prepare_process(request("cargo test"), &in_workspace()).unwrap();
    let ordinary_arguments = texts(&ordinary);

    assert_eq!(ordinary.program, path("/usr/bin/bwrap"));
    assert!(docker_arguments
        .windows(2)
        .any(|window| window == ["--bind", "/run/docker.sock"]));
    assert!(docker_arguments
        .windows(3)
        .any(|window| window == ["--ro-bind", "/opt/docker", "/tmp/cane-docker-bin/docker"]));
    assert!(docker_arguments.windows(3).any(|window| window
        == [
            "--ro-bind",
            "/opt/docker-compose",
            "/tmp/cane-docker-config/cli-plugins/docker-compose",
        ]));
    assert_eq!(
        values_of(&docker_arguments, "PATH"),
        ["/usr/bin", "/tmp/cane-docker-bin:/usr/bin"]
    );
    assert_eq!(values_of(&docker_arguments, "DOCKER_HOST").len(), 2);
    assert!(!ordinary_arguments.contains(&"/run/docker.sock".to_string()));
    assert!(values_of(&ordinary_arguments, "DOCKER_HOST").is_empty());
}

#[test]
fn unsafe_executor_adds_docker_host_only_to_a_capability_bearing_request() {
    let endpoint =
        DockerEndpoint::validate(&path("/run/docker.sock"), socket("/run/docker.sock")).unwrap();
    let host = UnsafeExecutor::new(path("/host/workspace"));
    let mut with_docker = request("docker ps");
    with_docker.docker_endpoint = Some(endpoint);

    let docker_launch = host.prepare_process(with_docker, &in_workspace()).unwrap();
    let ordinary = host.prepare_process(request("cargo test"), &in_workspace()).unwrap();

    assert_eq!(
        docker_launch.environment.get("DOCKER_HOST"),
        Some("unix:///run/docker.sock")
    );
    assert_eq!(ordinary.environment.get("DOCKER_HOST"), None);
    assert_eq!(ordinary.program, path("/bin/bash"));
    assert_eq!(host.descriptor().mode, CommandExecutionMode::Unsafe);
}

#[test]
fn executor_rejects_a_workdir_outside_the_policy_before_spawning() {
    let mut outside = request("pwd");
    outside.workdir = path("/etc");

    let refused = executor().prepare_process(
        outside,
        &Ok(ResolvedDirectory { is_directory: true, path: path("/etc") }),
    );

    assert!(matches!(refused, Err(CommandExecutionError::Failed { .. })));
}

#[test]
fn git_pointers_are_read_from_where_they_stand() {
    assert_eq!(
        resolve_git_pointer_path(&path("/repo/.git/worktrees/tree"), "../..\n"),
        path("/repo/.git/worktrees/tree/../..")
    );
    assert_eq!(resolve_git_pointer_path(&path("/repo"), "/other"), path("/other"));
}

#[test]
fn the_runtime_is_looked_for_in_fixed_places() {
    let candidates = runtime_root_candidates();

    assert_eq!(candidates.len(), 10);
    assert_eq!(candidates[0], path("/usr"));
    assert_eq!(candidates[9], path("/run/current-system/sw"));
}

#[test]
fn a_prepared_command_can_be_let_talk_to_docker() {
    let environment =
        CommandEnvironmentConfig::new("/home", vec!["/usr/bin".to_string()], "/tmp").unwrap();
    let mut prepared = prepare_shell_command(
        &environment,
        ShellInput { command: "docker ps".to_string(), timeout_seconds: None, workdir: None },
        &path("/host/workspace"),
        WorkdirResolution { is_directory: true, path: Ok(path("/host/workspace")) },
    )
    .unwrap();
    let endpoint =
        DockerEndpoint::validate(&path("/run/docker.sock"), socket("/run/docker.sock")).unwrap();
    let integration = DockerIntegration::new(endpoint)
        .with_executables(vec![docker(DockerExecutableName::Docker, "/usr/bin/docker")]);

    prepared.authorize_docker(&integration);

    let request = prepared.into_request();
    assert_eq!(request.docker_endpoint.unwrap().path(), &path("/run/docker.sock"));
    assert_eq!(request.docker_executables[0].path(), &path("/usr/bin/docker"));
    assert_eq!(request.workdir, path("/host/workspace"));
}
