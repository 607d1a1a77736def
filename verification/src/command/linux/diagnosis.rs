//! Whether this host can sandbox commands: what is looked at, and what each look comes to.
use crate::bytes::byte_views;
use crate::command::diagnostics::{
    all_required_passed, finding_views, required, DiagnosticImportance, DiagnosticStatus, FindingView,
    SandboxDiagnosticFinding, SandboxDiagnosticReport,
};
use crate::command::linux::launcher::{
    display_paths, displayed, BubblewrapInstallation, BubblewrapResolutionError,
};
use crate::command::linux::plan::{
    bind_of, bound_paths, compile_linux_sandbox_plan, operation_views, plan_operations,
    plans_bind_exactly_the_grants, push_path_argument, push_text_argument, LinuxSandboxOperation,
    OperationView,
};
use crate::command::policy::{
    build_command_sandbox_policy, git_metadata_lies_over_the_workspace, holds_path, is_exposed,
    policies_are_layered, policy_of, roots_are_exposed, workspace_entries_are_kept,
    CommandSandboxPolicy, CommandSandboxPolicyConfig, GrantView, ObservedPath, PolicyErrorView,
    PolicyView, SandboxFilesystemAccess, SandboxPathPurpose,
};
use crate::path::{
    beneath, components_of, is_absolute_path, lemma_body_is_components, path_views, same_path, trimmed, HostPath,
};
use crate::text::{
    decimal, decode_lossily, join, joined_texts, push_decimal, readable, take_characters, trim,
    trimmed_text,
};
use vstd::prelude::*;
use vstd::string::StringExecFns;
use vstd::utf8::encode_utf8;

verus! {

/// What a probe wrote, and whether it succeeded.
#[derive(Clone, Debug, PartialEq, Eq)]
pub struct ProbeOutput {
    pub status: bool,
    pub stderr: Vec<u8>,
    pub stdout: Vec<u8>,
}

/// How many capabilities are probed.
pub const PROBE_CAPABILITY_COUNT: usize = 9;

/// The name of a capability.
pub open spec fn capability_name(at: int) -> Seq<char> {
    if at == 0 {
        "mount namespace"@
    } else if at == 1 {
        "user namespace"@
    } else if at == 2 {
        "PID namespace"@
    } else if at == 3 {
        "network namespace"@
    } else if at == 4 {
        "IPC namespace"@
    } else if at == 5 {
        "UTS namespace"@
    } else if at == 6 {
        "session isolation"@
    } else if at == 7 {
        "parent-death supervision"@
    } else {
        "combined production capabilities"@
    }
}

/// The launcher's arguments that use a capability.
pub open spec fn capability_arguments(at: int) -> Seq<Seq<u8>> {
    if at == 0 || at == 1 {
        Seq::empty()
    } else if at == 2 {
        seq![encode_utf8("--unshare-pid"@)]
    } else if at == 3 {
        seq![encode_utf8("--unshare-net"@)]
    } else if at == 4 {
        seq![encode_utf8("--unshare-ipc"@)]
    } else if at == 5 {
        seq![encode_utf8("--unshare-uts"@)]
    } else if at == 6 {
        seq![encode_utf8("--new-session"@)]
    } else if at == 7 {
        seq![encode_utf8("--die-with-parent"@)]
    } else {
        seq![
            encode_utf8("--unshare-pid"@),
            encode_utf8("--unshare-net"@),
            encode_utf8("--unshare-ipc"@),
            encode_utf8("--unshare-uts"@),
            encode_utf8("--new-session"@),
            encode_utf8("--die-with-parent"@),
        ]
    }
}

pub fn probe_capability_name(at: usize) -> (name: &'static str)
    requires
        at < PROBE_CAPABILITY_COUNT,
    ensures
        name@ == capability_name(at as int),
{
    match at {
        0 => "mount namespace",
        1 => "user namespace",
        2 => "PID namespace",
        3 => "network namespace",
        4 => "IPC namespace",
        5 => "UTS namespace",
        6 => "session isolation",
        7 => "parent-death supervision",
        _ => "combined production capabilities",
    }
}

/// The arguments that bind each root read-only.
pub open spec fn root_arguments(roots: Seq<Seq<u8>>) -> Seq<Seq<u8>>
    decreases roots.len(),
{
    if roots.len() == 0 {
        Seq::empty()
    } else {
        root_arguments(roots.drop_last()) + seq![
            encode_utf8("--ro-bind"@),
            roots.last(),
            roots.last(),
        ]
    }
}

/// The arguments with which a capability is probed: a sandbox with the runtime alone, in which
/// `/bin/true` is run.
pub open spec fn probe_command(roots: Seq<Seq<u8>>, at: int) -> Seq<Seq<u8>> {
    seq![encode_utf8("--unshare-user"@), encode_utf8("--clearenv"@)] + capability_arguments(at)
        + root_arguments(roots) + seq![
        encode_utf8("--proc"@),
        encode_utf8("/proc"@),
        encode_utf8("--dev"@),
        encode_utf8("/dev"@),
        encode_utf8("--chdir"@),
        encode_utf8("/"@),
        encode_utf8("--"@),
        encode_utf8("/bin/true"@),
    ]
}

fn push_capability_arguments(arguments: &mut Vec<Vec<u8>>, at: usize)
    requires
        at < PROBE_CAPABILITY_COUNT,
    ensures
        byte_views(final(arguments)@) == byte_views(old(arguments)@) + capability_arguments(
            at as int,
        ),
{
    if at == 2 || at == 8 {
        push_text_argument(arguments, "--unshare-pid");
    }
    if at == 3 || at == 8 {
        push_text_argument(arguments, "--unshare-net");
    }
    if at == 4 || at == 8 {
        push_text_argument(arguments, "--unshare-ipc");
    }
    if at == 5 || at == 8 {
        push_text_argument(arguments, "--unshare-uts");
    }
    if at == 6 || at == 8 {
        push_text_argument(arguments, "--new-session");
    }
    if at == 7 || at == 8 {
        push_text_argument(arguments, "--die-with-parent");
    }
    assert(byte_views(arguments@) =~= byte_views(old(arguments)@) + capability_arguments(
        at as int,
    ));
}

/// The arguments with which a capability is probed.
pub fn probe_arguments(runtime_roots: &Vec<HostPath>, at: usize) -> (arguments: Vec<Vec<u8>>)
    requires
        at < PROBE_CAPABILITY_COUNT,
    ensures
        byte_views(arguments@) == probe_command(path_views(runtime_roots@), at as int),
{
    let ghost roots = path_views(runtime_roots@);
    let mut arguments: Vec<Vec<u8>> = Vec::new();
    push_text_argument(&mut arguments, "--unshare-user");
    push_text_argument(&mut arguments, "--clearenv");
    push_capability_arguments(&mut arguments, at);
    let ghost start = byte_views(arguments@);
    assert(start =~= seq![encode_utf8("--unshare-user"@), encode_utf8("--clearenv"@)]
        + capability_arguments(at as int));
    let mut index: usize = 0;
    proof {
        assert(roots.take(0) =~= Seq::empty());
        assert(start + root_arguments(roots.take(0)) =~= start);
    }
    while index < runtime_roots.len()
        invariant
            index <= runtime_roots@.len(),
            roots == path_views(runtime_roots@),
            byte_views(arguments@) == start + root_arguments(roots.take(index as int)),
        decreases runtime_roots.len() - index,
    {
        let ghost before = byte_views(arguments@);
        push_text_argument(&mut arguments, "--ro-bind");
        push_path_argument(&mut arguments, &runtime_roots[index]);
        push_path_argument(&mut arguments, &runtime_roots[index]);
        proof {
            let here = roots.take(index + 1);
            assert(here.drop_last() =~= roots.take(index as int));
            assert(here.last() == runtime_roots@[index as int]@);
            assert(byte_views(arguments@) =~= start + root_arguments(here));
        }
        index += 1;
    }
    assert(roots.take(roots.len() as int) =~= roots);
    push_text_argument(&mut arguments, "--proc");
    push_text_argument(&mut arguments, "/proc");
    push_text_argument(&mut arguments, "--dev");
    push_text_argument(&mut arguments, "/dev");
    push_text_argument(&mut arguments, "--chdir");
    push_text_argument(&mut arguments, "/");
    push_text_argument(&mut arguments, "--");
    push_text_argument(&mut arguments, "/bin/true");
    assert(byte_views(arguments@) =~= probe_command(roots, at as int));
    arguments
}

/// What a failed probe said: its first 400 characters without surrounding white space.
pub open spec fn failure_text(said: Seq<char>) -> Seq<char> {
    let detail = trimmed_text(said);
    if detail.len() == 0 {
        "probe exited unsuccessfully without output"@
    } else if detail.len() <= 400 {
        detail
    } else {
        detail.take(400)
    }
}

/// The bytes that a failed probe is judged by: what it complained, or else what it wrote.
pub open spec fn said_bytes(output: ProbeOutput) -> Seq<u8> {
    if output.stderr@.len() == 0 {
        output.stdout@
    } else {
        output.stderr@
    }
}

pub fn describe_probe_failure(said: &str) -> (detail: String)
    ensures
        detail@ == failure_text(said@),
{
    let detail = trim(said);
    if detail.as_str().is_empty() {
        "probe exited unsuccessfully without output".to_owned()
    } else {
        take_characters(detail.as_str(), 400)
    }
}

fn probe_failure_detail(output: &ProbeOutput) -> (detail: String)
    ensures
        detail@ == failure_text(readable(said_bytes(*output))),
{
    let bytes = if output.stderr.len() == 0 {
        output.stdout.as_slice()
    } else {
        output.stderr.as_slice()
    };
    describe_probe_failure(decode_lossily(bytes).as_str())
}

/// What the version probe comes to, where it wrote `written`.
pub open spec fn version_finding(written: Seq<char>) -> (FindingView, Option<Seq<char>>) {
    let version = trimmed_text(written);
    if version.len() == 0 {
        (
            required(
                "Bubblewrap version"@,
                DiagnosticStatus::Failed,
                "version output was empty"@,
            ),
            None,
        )
    } else {
        (required("Bubblewrap version"@, DiagnosticStatus::Passed, version), Some(version))
    }
}

pub open spec fn version_outcome(probe: Result<ProbeOutput, String>) -> (
    FindingView,
    Option<Seq<char>>,
) {
    match probe {
        Err(error) => (
            required("Bubblewrap version"@, DiagnosticStatus::Failed, error@),
            None,
        ),
        Ok(output) => if output.status {
            version_finding(readable(output.stdout@))
        } else {
            (
                required(
                    "Bubblewrap version"@,
                    DiagnosticStatus::Failed,
                    failure_text(readable(said_bytes(output))),
                ),
                None,
            )
        },
    }
}

pub open spec fn optional_text(text: Option<String>) -> Option<Seq<char>> {
    match text {
        None => None,
        Some(text) => Some(text@),
    }
}

/// Judges what the version probe wrote.
pub fn judge_version(written: &str) -> (judged: (SandboxDiagnosticFinding, Option<String>))
    ensures
        (judged.0@, optional_text(judged.1)) == version_finding(written@),
{
    let version = trim(written);
    if version.as_str().is_empty() {
        (
            SandboxDiagnosticFinding::mandatory(
                "Bubblewrap version",
                DiagnosticStatus::Failed,
                "version output was empty",
            ),
            None,
        )
    } else {
        (
            SandboxDiagnosticFinding::mandatory(
                "Bubblewrap version",
                DiagnosticStatus::Passed,
                version.as_str(),
            ),
            Some(version),
        )
    }
}

fn probe_version(probe: &Result<ProbeOutput, String>) -> (judged: (
    SandboxDiagnosticFinding,
    Option<String>,
))
    ensures
        (judged.0@, optional_text(judged.1)) == version_outcome(*probe),
{
    match probe {
        Err(error) => (
            SandboxDiagnosticFinding::mandatory(
                "Bubblewrap version",
                DiagnosticStatus::Failed,
                error.as_str(),
            ),
            None,
        ),
        Ok(output) => if output.status {
            judge_version(decode_lossily(output.stdout.as_slice()).as_str())
        } else {
            (
                SandboxDiagnosticFinding::mandatory(
                    "Bubblewrap version",
                    DiagnosticStatus::Failed,
                    probe_failure_detail(output).as_str(),
                ),
                None,
            )
        },
    }
}

/// What the probe of a capability comes to.
pub open spec fn capability_finding(at: int, probe: Result<ProbeOutput, String>) -> FindingView {
    match probe {
        Err(error) => required(capability_name(at), DiagnosticStatus::Failed, error@),
        Ok(output) => if output.status {
            required(
                capability_name(at),
                DiagnosticStatus::Passed,
                "functional sandbox invocation succeeded"@,
            )
        } else {
            required(
                capability_name(at),
                DiagnosticStatus::Failed,
                failure_text(readable(said_bytes(output))),
            )
        },
    }
}

pub open spec fn capability_findings(probes: Seq<Result<ProbeOutput, String>>) -> Seq<
    FindingView,
> {
    Seq::new(probes.len(), |i: int| capability_finding(i, probes[i]))
}

fn judge_capability(at: usize, probe: &Result<ProbeOutput, String>) -> (finding:
    SandboxDiagnosticFinding)
    requires
        at < PROBE_CAPABILITY_COUNT,
    ensures
        finding@ == capability_finding(at as int, *probe),
{
    let name = probe_capability_name(at);
    match probe {
        Err(error) => SandboxDiagnosticFinding::mandatory(
            name,
            DiagnosticStatus::Failed,
            error.as_str(),
        ),
        Ok(output) => if output.status {
            SandboxDiagnosticFinding::mandatory(
                name,
                DiagnosticStatus::Passed,
                "functional sandbox invocation succeeded",
            )
        } else {
            SandboxDiagnosticFinding::mandatory(
                name,
                DiagnosticStatus::Failed,
                probe_failure_detail(output).as_str(),
            )
        },
    }
}

/// A Docker endpoint that was discovered, and whether a socket stands there.
#[derive(Debug, PartialEq, Eq)]
pub struct DiscoveredEndpoint {
    pub is_socket: Result<bool, String>,
    pub path: HostPath,
}

impl Clone for DiscoveredEndpoint {
    fn clone(&self) -> (copy: Self)
        ensures
            match (copy.is_socket, self.is_socket) {
                (Ok(left), Ok(right)) => left == right,
                (Err(left), Err(right)) => left@ == right@,
                _ => false,
            },
            copy.path@ == self.path@,
    {
        let is_socket = match &self.is_socket {
            Ok(is_socket) => Ok(*is_socket),
            Err(words) => Err(words.clone()),
        };
        DiscoveredEndpoint { is_socket, path: self.path.clone() }
    }
}

/// What sandboxed commands are to see.
#[derive(Clone, Debug, PartialEq, Eq)]
pub struct SandboxDiagnosticInput {
    pub docker_endpoint: Option<DiscoveredEndpoint>,
    pub inherited_path: Vec<ObservedPath>,
    pub pass_through_roots: Vec<ObservedPath>,
    pub toolchain_roots: Vec<ObservedPath>,
    pub workspace: ObservedPath,
}

/// What the workspace resolves to.
#[derive(Debug, PartialEq, Eq)]
pub struct ResolvedWorkspace {
    pub is_directory: bool,
    pub path: HostPath,
}

/// What was found on the host.
#[derive(Debug)]
pub struct LinuxHostFacts {
    pub capability_probes: Vec<Result<ProbeOutput, String>>,
    pub git_metadata: Result<Vec<ObservedPath>, String>,
    pub has_bash: bool,
    pub has_true: bool,
    pub launcher: Result<BubblewrapInstallation, BubblewrapResolutionError>,
    pub runtime_roots: Vec<ObservedPath>,
    pub version_probe: Result<ProbeOutput, String>,
    pub workspace: Result<ResolvedWorkspace, String>,
}

pub open spec fn observed_paths(observed: Seq<ObservedPath>) -> Seq<Seq<u8>> {
    Seq::new(observed.len(), |i: int| observed[i].path@)
}

pub open spec fn runtime_finding(root: Seq<u8>) -> FindingView {
    required(
        "runtime path "@ + readable(root),
        DiagnosticStatus::Passed,
        "available for read-only exposure"@,
    )
}

pub open spec fn runtime_findings(roots: Seq<ObservedPath>) -> Seq<FindingView> {
    Seq::new(roots.len(), |i: int| runtime_finding(roots[i].path@))
}

pub open spec fn executable_finding(executable: Seq<char>, available: bool) -> FindingView {
    if available {
        required(
            "runtime executable "@ + executable,
            DiagnosticStatus::Passed,
            "required executable is available"@,
        )
    } else {
        required(
            "runtime executable "@ + executable,
            DiagnosticStatus::Failed,
            "required executable is missing"@,
        )
    }
}

pub open spec fn workspace_finding(workspace: Result<ResolvedWorkspace, String>) -> FindingView {
    match workspace {
        Err(error) => required("Workspace"@, DiagnosticStatus::Failed, error@),
        Ok(resolved) => if resolved.is_directory {
            required(
                "Workspace"@,
                DiagnosticStatus::Passed,
                "read/write root is representable at "@ + readable(resolved.path@),
            )
        } else {
            required(
                "Workspace"@,
                DiagnosticStatus::Failed,
                readable(resolved.path@) + " is not a directory"@,
            )
        },
    }
}

pub open spec fn git_finding(git_metadata: Result<Vec<ObservedPath>, String>) -> FindingView {
    match git_metadata {
        Err(error) => required("Git metadata"@, DiagnosticStatus::Failed, error@),
        Ok(roots) => required(
            "Git metadata"@,
            DiagnosticStatus::Passed,
            if roots@.len() == 0 {
                "workspace is not inside a Git repository"@
            } else {
                "read-only metadata: "@ + joined_texts(
                    displayed(observed_paths(roots@)),
                    ", "@,
                )
            },
        ),
    }
}

pub open spec fn git_roots(git_metadata: Result<Vec<ObservedPath>, String>) -> Seq<ObservedPath> {
    match git_metadata {
        Err(_) => Seq::empty(),
        Ok(roots) => roots@,
    }
}

/// Whether no operation mounts the host's root.
pub open spec fn root_is_not_mounted(operations: Seq<OperationView>) -> bool {
    forall|i: int|
        0 <= i < operations.len() ==> match #[trigger] operations[i] {
            OperationView::ReadOnlyBind { path } => !same_path(path, encode_utf8("/"@)),
            OperationView::ReadWriteBind { path } => !same_path(path, encode_utf8("/"@)),
            _ => true,
        }
}

pub open spec fn plan_finding(policy: Result<PolicyView, PolicyErrorView>) -> FindingView {
    match policy {
        Err(error) => required("Linux policy plan"@, DiagnosticStatus::Failed, error.words()),
        Ok(policy) => required(
            "Linux policy plan"@,
            if root_is_not_mounted(plan_operations(policy)) {
                DiagnosticStatus::Passed
            } else {
                DiagnosticStatus::Failed
            },
            decimal(plan_operations(policy).len())
                + " positive mount operations; host root is not mounted"@,
        ),
    }
}

pub open spec fn docker_finding(endpoint: Option<DiscoveredEndpoint>) -> FindingView {
    let (status, detail) = match endpoint {
        None => (
            DiagnosticStatus::Failed,
            "no eligible local Unix socket was discovered"@,
        ),
        Some(endpoint) => match endpoint.is_socket {
            Err(error) => (
                DiagnosticStatus::Failed,
                readable(endpoint.path@) + " is unavailable: "@ + error@,
            ),
            Ok(is_socket) => if is_socket {
                (
                    DiagnosticStatus::Passed,
                    "local Unix socket available at "@ + readable(endpoint.path@),
                )
            } else {
                (
                    DiagnosticStatus::Failed,
                    readable(endpoint.path@) + " is not a Unix socket"@,
                )
            },
        },
    };
    FindingView {
        detail,
        importance: DiagnosticImportance::Optional,
        name: "Docker endpoint"@,
        status,
    }
}

pub open spec fn not_probed(name: Seq<char>) -> FindingView {
    required(
        name,
        DiagnosticStatus::Failed,
        "not probed because no trusted launcher was resolved"@,
    )
}

pub open spec fn launcher_findings(facts: LinuxHostFacts) -> Seq<FindingView> {
    match facts.launcher {
        Ok(installation) => seq![
            required(
                "Bubblewrap resolution"@,
                DiagnosticStatus::Passed,
                "resolved trusted launcher "@ + readable(installation@),
            ),
            version_outcome(facts.version_probe).0,
        ] + capability_findings(facts.capability_probes@),
        Err(error) => seq![
            required("Bubblewrap resolution"@, DiagnosticStatus::Failed, error.words()),
            not_probed("Bubblewrap version"@),
        ] + Seq::new(
            PROBE_CAPABILITY_COUNT as nat,
            |i: int| not_probed(capability_name(i)),
        ),
    }
}

/// Whether `config` is the policy that is diagnosed: what is to be seen, with the runtime and the
/// Git metadata that were found, and fixed private directories.
pub open spec fn is_diagnosed_config(
    config: CommandSandboxPolicyConfig,
    input: SandboxDiagnosticInput,
    facts: LinuxHostFacts,
) -> bool {
    &&& config.git_metadata_roots@ == git_roots(facts.git_metadata)
    &&& config.inherited_path == input.inherited_path
    &&& config.pass_through_roots == input.pass_through_roots
    &&& config.private_home@ == encode_utf8("/home/cane"@)
    &&& config.private_temp@ == encode_utf8("/tmp"@)
    &&& config.runtime_roots == facts.runtime_roots
    &&& config.toolchain_roots == input.toolchain_roots
    &&& config.workspace == input.workspace
}

/// Everything that is reported, in order.
pub open spec fn diagnosed_findings(
    input: SandboxDiagnosticInput,
    facts: LinuxHostFacts,
    policy: Result<PolicyView, PolicyErrorView>,
) -> Seq<FindingView> {
    seq![required("platform"@, DiagnosticStatus::Passed, "Linux selected"@)] + runtime_findings(
        facts.runtime_roots@,
    ) + seq![
        executable_finding("/bin/bash"@, facts.has_bash),
        executable_finding("/bin/true"@, facts.has_true),
        workspace_finding(facts.workspace),
        git_finding(facts.git_metadata),
        plan_finding(policy),
        docker_finding(input.docker_endpoint),
    ] + launcher_findings(facts)
}

/// Whether `report` is what the diagnosis comes to with this policy.
pub open spec fn is_diagnosis(
    report: SandboxDiagnosticReport,
    input: SandboxDiagnosticInput,
    facts: LinuxHostFacts,
    policy: Result<PolicyView, PolicyErrorView>,
) -> bool {
    &&& report.backend@ == "bubblewrap"@
    &&& report.platform@ == "linux"@
    &&& finding_views(report.findings@) == diagnosed_findings(input, facts, policy)
    &&& match policy {
        Ok(view) => report.policy is Some && report.policy->0@ == view,
        Err(_) => report.policy is None,
    }
    &&& match facts.launcher {
        Ok(installation) => report.bubblewrap_path is Some && report.bubblewrap_path->0@
            == installation@ && optional_text(report.bubblewrap_version) == version_outcome(
            facts.version_probe,
        ).1,
        Err(_) => report.bubblewrap_path is None && report.bubblewrap_version is None,
    }
}

fn push_finding(findings: &mut Vec<SandboxDiagnosticFinding>, finding: SandboxDiagnosticFinding)
    ensures
        finding_views(final(findings)@) == finding_views(old(findings)@).push(finding@),
{
    findings.push(finding);
    assert(finding_views(findings@) =~= finding_views(old(findings)@).push(finding@));
}

fn push_runtime_findings(findings: &mut Vec<SandboxDiagnosticFinding>, roots: &Vec<ObservedPath>)
    ensures
        finding_views(final(findings)@) == finding_views(old(findings)@) + runtime_findings(
            roots@,
        ),
{
    let ghost before = finding_views(findings@);
    let mut index: usize = 0;
    assert(before + runtime_findings(roots@).take(0) =~= before);
    while index < roots.len()
        invariant
            index <= roots@.len(),
            finding_views(findings@) == before + runtime_findings(roots@).take(index as int),
        decreases roots.len() - index,
    {
        let name = "runtime path ".to_owned().concat(roots[index].path.display().as_str());
        push_finding(
            findings,
            SandboxDiagnosticFinding::mandatory(
                name.as_str(),
                DiagnosticStatus::Passed,
                "available for read-only exposure",
            ),
        );
        assert(finding_views(findings@) =~= before + runtime_findings(roots@).take(index + 1));
        index += 1;
    }
    assert(runtime_findings(roots@).take(roots@.len() as int) =~= runtime_findings(roots@));
}

fn judge_executable(executable: &str, available: bool) -> (finding: SandboxDiagnosticFinding)
    ensures
        finding@ == executable_finding(executable@, available),
{
    let name = "runtime executable ".to_owned().concat(executable);
    if available {
        SandboxDiagnosticFinding::mandatory(
            name.as_str(),
            DiagnosticStatus::Passed,
            "required executable is available",
        )
    } else {
        SandboxDiagnosticFinding::mandatory(
            name.as_str(),
            DiagnosticStatus::Failed,
            "required executable is missing",
        )
    }
}

fn judge_workspace(workspace: &Result<ResolvedWorkspace, String>) -> (finding:
    SandboxDiagnosticFinding)
    ensures
        finding@ == workspace_finding(*workspace),
{
    match workspace {
        Err(error) => SandboxDiagnosticFinding::mandatory(
            "Workspace",
            DiagnosticStatus::Failed,
            error.as_str(),
        ),
        Ok(resolved) => if resolved.is_directory {
            let detail = "read/write root is representable at ".to_owned().concat(
                resolved.path.display().as_str(),
            );
            SandboxDiagnosticFinding::mandatory(
                "Workspace",
                DiagnosticStatus::Passed,
                detail.as_str(),
            )
        } else {
            let detail = resolved.path.display().concat(" is not a directory");
            SandboxDiagnosticFinding::mandatory(
                "Workspace",
                DiagnosticStatus::Failed,
                detail.as_str(),
            )
        },
    }
}

/// The paths that were observed.
pub fn paths_of(observed: &Vec<ObservedPath>) -> (paths: Vec<HostPath>)
    ensures
        path_views(paths@) == observed_paths(observed@),
{
    let mut paths: Vec<HostPath> = Vec::new();
    let mut index: usize = 0;
    while index < observed.len()
        invariant
            index <= observed@.len(),
            paths@.len() == index,
            forall|i: int| 0 <= i < index ==> (#[trigger] paths@[i])@ == observed@[i].path@,
        decreases observed.len() - index,
    {
        paths.push(observed[index].path.clone());
        index += 1;
    }
    assert(path_views(paths@) =~= observed_paths(observed@));
    paths
}

fn judge_git_metadata(git_metadata: &Result<Vec<ObservedPath>, String>) -> (finding:
    SandboxDiagnosticFinding)
    ensures
        finding@ == git_finding(*git_metadata),
{
    match git_metadata {
        Err(error) => SandboxDiagnosticFinding::mandatory(
            "Git metadata",
            DiagnosticStatus::Failed,
            error.as_str(),
        ),
        Ok(roots) => if roots.len() == 0 {
            SandboxDiagnosticFinding::mandatory(
                "Git metadata",
                DiagnosticStatus::Passed,
                "workspace is not inside a Git repository",
            )
        } else {
            let shown = display_paths(&paths_of(roots));
            let detail = "read-only metadata: ".to_owned().concat(join(&shown, ", ").as_str());
            SandboxDiagnosticFinding::mandatory(
                "Git metadata",
                DiagnosticStatus::Passed,
                detail.as_str(),
            )
        },
    }
}

fn mounts_no_root(operations: &[LinuxSandboxOperation]) -> (none: bool)
    ensures
        none == root_is_not_mounted(operation_views(operations@)),
{
    let ghost views = operation_views(operations@);
    let root = HostPath::from_text("/");
    let mut index: usize = 0;
    while index < operations.len()
        invariant
            index <= operations@.len(),
            views == operation_views(operations@),
            root@ == encode_utf8("/"@),
            forall|i: int|
                0 <= i < index ==> match #[trigger] views[i] {
                    OperationView::ReadOnlyBind { path } => !same_path(path, encode_utf8("/"@)),
                    OperationView::ReadWriteBind { path } => !same_path(path, encode_utf8("/"@)),
                    _ => true,
                },
        decreases operations.len() - index,
    {
        assert(views[index as int] == operations@[index as int]@);
        match &operations[index] {
            LinuxSandboxOperation::ReadOnlyBind { path } => {
                if path.same(&root) {
                    return false;
                }
            },
            LinuxSandboxOperation::ReadWriteBind { path } => {
                if path.same(&root) {
                    return false;
                }
            },
            _ => {},
        }
        index += 1;
    }
    true
}

fn judge_plan(policy: &CommandSandboxPolicy) -> (finding: SandboxDiagnosticFinding)
    ensures
        finding@ == plan_finding(Ok(policy@)),
{
    let plan = compile_linux_sandbox_plan(policy);
    let operations = plan.operations();
    let status = if mounts_no_root(operations) {
        DiagnosticStatus::Passed
    } else {
        DiagnosticStatus::Failed
    };
    let mut detail = String::new();
    push_decimal(&mut detail, operations.len() as u64);
    detail.append(" positive mount operations; host root is not mounted");
    proof {
        assert(operation_views(operations@).len() == operations@.len());
        assert(Seq::<char>::empty() + decimal(operations@.len()) =~= decimal(operations@.len()));
    }
    SandboxDiagnosticFinding::mandatory("Linux policy plan", status, detail.as_str())
}

fn judge_docker_endpoint(endpoint: &Option<DiscoveredEndpoint>) -> (finding:
    SandboxDiagnosticFinding)
    ensures
        finding@ == docker_finding(*endpoint),
{
    match endpoint {
        None => SandboxDiagnosticFinding::optional(
            "Docker endpoint",
            DiagnosticStatus::Failed,
            "no eligible local Unix socket was discovered",
        ),
        Some(endpoint) => match &endpoint.is_socket {
            Err(error) => {
                let detail = endpoint.path.display().concat(" is unavailable: ").concat(
                    error.as_str(),
                );
                SandboxDiagnosticFinding::optional(
                    "Docker endpoint",
                    DiagnosticStatus::Failed,
                    detail.as_str(),
                )
            },
            Ok(is_socket) => if *is_socket {
                let detail = "local Unix socket available at ".to_owned().concat(
                    endpoint.path.display().as_str(),
                );
                SandboxDiagnosticFinding::optional(
                    "Docker endpoint",
                    DiagnosticStatus::Passed,
                    detail.as_str(),
                )
            } else {
                let detail = endpoint.path.display().concat(" is not a Unix socket");
                SandboxDiagnosticFinding::optional(
                    "Docker endpoint",
                    DiagnosticStatus::Failed,
                    detail.as_str(),
                )
            },
        },
    }
}

fn push_capability_findings(
    findings: &mut Vec<SandboxDiagnosticFinding>,
    probes: &Vec<Result<ProbeOutput, String>>,
)
    requires
        probes@.len() == PROBE_CAPABILITY_COUNT,
    ensures
        finding_views(final(findings)@) == finding_views(old(findings)@) + capability_findings(
            probes@,
        ),
{
    let ghost before = finding_views(findings@);
    let mut index: usize = 0;
    assert(before + capability_findings(probes@).take(0) =~= before);
    while index < probes.len()
        invariant
            index <= probes@.len(),
            probes@.len() == PROBE_CAPABILITY_COUNT,
            finding_views(findings@) == before + capability_findings(probes@).take(index as int),
        decreases probes.len() - index,
    {
        push_finding(findings, judge_capability(index, &probes[index]));
        assert(finding_views(findings@) =~= before + capability_findings(probes@).take(index + 1));
        index += 1;
    }
    assert(capability_findings(probes@).take(probes@.len() as int) =~= capability_findings(
        probes@,
    ));
}

fn push_unprobed_findings(findings: &mut Vec<SandboxDiagnosticFinding>)
    ensures
        finding_views(final(findings)@) == finding_views(old(findings)@) + Seq::new(
            PROBE_CAPABILITY_COUNT as nat,
            |i: int| not_probed(capability_name(i)),
        ),
{
    let ghost before = finding_views(findings@);
    let ghost unprobed = Seq::new(
        PROBE_CAPABILITY_COUNT as nat,
        |i: int| not_probed(capability_name(i)),
    );
    let mut index: usize = 0;
    assert(before + unprobed.take(0) =~= before);
    while index < PROBE_CAPABILITY_COUNT
        invariant
            index <= PROBE_CAPABILITY_COUNT,
            unprobed == Seq::new(
                PROBE_CAPABILITY_COUNT as nat,
                |i: int| not_probed(capability_name(i)),
            ),
            finding_views(findings@) == before + unprobed.take(index as int),
        decreases PROBE_CAPABILITY_COUNT - index,
    {
        push_finding(
            findings,
            SandboxDiagnosticFinding::mandatory(
                probe_capability_name(index),
                DiagnosticStatus::Failed,
                "not probed because no trusted launcher was resolved",
            ),
        );
        assert(finding_views(findings@) =~= before + unprobed.take(index + 1));
        index += 1;
    }
    assert(unprobed.take(unprobed.len() as int) =~= unprobed);
}

/// Whether `report` is a diagnosis of what was observed.
pub open spec fn diagnoses(
    report: SandboxDiagnosticReport,
    input: SandboxDiagnosticInput,
    facts: LinuxHostFacts,
) -> bool {
    exists|config: CommandSandboxPolicyConfig| #[trigger]
        is_diagnosed_config(config, input, facts) && is_diagnosis(
            report,
            input,
            facts,
            policy_of(config),
        )
}

/// Diagnoses a Linux host from what was found on it. The probes are needed where a trusted
/// launcher was found.
pub fn diagnose_linux_sandbox(input: SandboxDiagnosticInput, facts: LinuxHostFacts) -> (report:
    SandboxDiagnosticReport)
    requires
        facts.launcher is Ok ==> facts.capability_probes@.len() == PROBE_CAPABILITY_COUNT,
    ensures
        diagnoses(report, input, facts),
{
    let mut findings: Vec<SandboxDiagnosticFinding> = Vec::new();
    push_finding(
        &mut findings,
        SandboxDiagnosticFinding::mandatory(
            "platform",
            DiagnosticStatus::Passed,
            "Linux selected",
        ),
    );
    push_runtime_findings(&mut findings, &facts.runtime_roots);
    push_finding(&mut findings, judge_executable("/bin/bash", facts.has_bash));
    push_finding(&mut findings, judge_executable("/bin/true", facts.has_true));
    push_finding(&mut findings, judge_workspace(&facts.workspace));
    push_finding(&mut findings, judge_git_metadata(&facts.git_metadata));
    let docker = judge_docker_endpoint(&input.docker_endpoint);
    let git_metadata_roots = match facts.git_metadata {
        Ok(roots) => roots,
        Err(_) => Vec::new(),
    };
    let config = CommandSandboxPolicyConfig {
        git_metadata_roots,
        inherited_path: input.inherited_path,
        pass_through_roots: input.pass_through_roots,
        private_home: HostPath::from_text("/home/cane"),
        private_temp: HostPath::from_text("/tmp"),
        runtime_roots: facts.runtime_roots,
        toolchain_roots: input.toolchain_roots,
        workspace: input.workspace,
    };
    let ghost diagnosed = config;
    assert(is_diagnosed_config(diagnosed, input, facts));
    let policy = match build_command_sandbox_policy(config) {
        Ok(policy) => {
            push_finding(&mut findings, judge_plan(&policy));
            Some(policy)
        },
        Err(error) => {
            push_finding(
                &mut findings,
                SandboxDiagnosticFinding::mandatory(
                    "Linux policy plan",
                    DiagnosticStatus::Failed,
                    error.describe().as_str(),
                ),
            );
            None
        },
    };
    push_finding(&mut findings, docker);
    let ghost shared = finding_views(findings@);
    let (bubblewrap_path, bubblewrap_version) = match facts.launcher {
        Ok(installation) => {
            let detail = "resolved trusted launcher ".to_owned().concat(
                installation.path().display().as_str(),
            );
            push_finding(
                &mut findings,
                SandboxDiagnosticFinding::mandatory(
                    "Bubblewrap resolution",
                    DiagnosticStatus::Passed,
                    detail.as_str(),
                ),
            );
            let (finding, version) = probe_version(&facts.version_probe);
            push_finding(&mut findings, finding);
            push_capability_findings(&mut findings, &facts.capability_probes);
            (Some(installation.into_path()), version)
        },
        Err(error) => {
            push_finding(
                &mut findings,
                SandboxDiagnosticFinding::mandatory(
                    "Bubblewrap resolution",
                    DiagnosticStatus::Failed,
                    error.describe().as_str(),
                ),
            );
            push_finding(
                &mut findings,
                SandboxDiagnosticFinding::mandatory(
                    "Bubblewrap version",
                    DiagnosticStatus::Failed,
                    "not probed because no trusted launcher was resolved",
                ),
            );
            push_unprobed_findings(&mut findings);
            (None, None)
        },
    };
    proof {
        assert(finding_views(findings@) =~= shared + launcher_findings(facts));
        assert(finding_views(findings@) =~= diagnosed_findings(
            input,
            facts,
            policy_of(diagnosed),
        ));
    }
    SandboxDiagnosticReport {
        backend: "bubblewrap".to_owned(),
        bubblewrap_path,
        bubblewrap_version,
        findings,
        platform: "linux".to_owned(),
        policy,
    }
}

proof fn lemma_binds_are_bound(operations: Seq<OperationView>, at: int)
    requires
        0 <= at < operations.len(),
        operations[at] is ReadOnlyBind || operations[at] is ReadWriteBind,
    ensures
        bound_paths(operations).contains(operations[at]),
    decreases operations.len(),
{
    let before = bound_paths(operations.drop_last());
    let all = bound_paths(operations);
    if at < operations.len() - 1 {
        lemma_binds_are_bound(operations.drop_last(), at);
        let i = choose|i: int| 0 <= i < before.len() && before[i] == operations[at];
        assert(all[i] == operations[at]);
    } else {
        assert(all[before.len() as int] == operations[at]);
    }
}

/// The plan of an accepted policy never mounts the host's root.
pub proof fn plans_never_mount_the_root(config: CommandSandboxPolicyConfig)
    requires
        policy_of(config) is Ok,
    ensures
        root_is_not_mounted(plan_operations(policy_of(config)->Ok_0)),
{
    let policy = policy_of(config)->Ok_0;
    let operations = plan_operations(policy);
    policies_are_layered(config);
    plans_bind_exactly_the_grants(policy);
    let root = encode_utf8("/"@);
    assert(components_of(root).len() == 0) by {
        reveal_strlit("/");
        assert("/"@ =~= seq!['/']);
        vstd::utf8::is_ascii_chars_encode_utf8("/"@);
        assert(root =~= seq![47u8]);
        assert(trimmed(root) == root);
        lemma_body_is_components(root);
    }
    assert forall|i: int| 0 <= i < operations.len() implies match #[trigger] operations[i] {
        OperationView::ReadOnlyBind { path } => !same_path(path, root),
        OperationView::ReadWriteBind { path } => !same_path(path, root),
        _ => true,
    } by {
        if operations[i] is ReadOnlyBind || operations[i] is ReadWriteBind {
            lemma_binds_are_bound(operations, i);
            let bound = bound_paths(operations);
            let j = choose|j: int| 0 <= j < bound.len() && bound[j] == operations[i];
            assert(bound[j] == bind_of(policy.grants[j]));
            lemma_body_is_components(policy.grants[j].path);
        }
    }
}

/// The places of the host that make up the runtime, where they are there.
pub fn runtime_root_candidates() -> (paths: Vec<HostPath>)
    ensures
        path_views(paths@) == seq![
            encode_utf8("/usr"@),
            encode_utf8("/bin"@),
            encode_utf8("/sbin"@),
            encode_utf8("/lib"@),
            encode_utf8("/lib64"@),
            encode_utf8("/etc/ld.so.cache"@),
            encode_utf8("/etc/ld.so.conf"@),
            encode_utf8("/etc/ld.so.conf.d"@),
            encode_utf8("/nix/store"@),
            encode_utf8("/run/current-system/sw"@),
        ],
{
    let mut paths: Vec<HostPath> = Vec::new();
    paths.push(HostPath::from_text("/usr"));
    paths.push(HostPath::from_text("/bin"));
    paths.push(HostPath::from_text("/sbin"));
    paths.push(HostPath::from_text("/lib"));
    paths.push(HostPath::from_text("/lib64"));
    paths.push(HostPath::from_text("/etc/ld.so.cache"));
    paths.push(HostPath::from_text("/etc/ld.so.conf"));
    paths.push(HostPath::from_text("/etc/ld.so.conf.d"));
    paths.push(HostPath::from_text("/nix/store"));
    paths.push(HostPath::from_text("/run/current-system/sw"));
    assert(path_views(paths@) =~= seq![
        encode_utf8("/usr"@),
        encode_utf8("/bin"@),
        encode_utf8("/sbin"@),
        encode_utf8("/lib"@),
        encode_utf8("/lib64"@),
        encode_utf8("/etc/ld.so.cache"@),
        encode_utf8("/etc/ld.so.conf"@),
        encode_utf8("/etc/ld.so.conf.d"@),
        encode_utf8("/nix/store"@),
        encode_utf8("/run/current-system/sw"@),
    ]);
    paths
}

/// The policy of a report is made of what was asked for and found: the runtime, toolchains and
/// pass-through roots are exposed read-only, the workspace for writing, and the Git metadata lies
/// read-only over it. The sandbox has a home and a temporary directory of its own.
pub proof fn diagnosed_policies_expose_what_was_found(
    report: SandboxDiagnosticReport,
    input: SandboxDiagnosticInput,
    facts: LinuxHostFacts,
    at: int,
)
    requires
        diagnoses(report, input, facts),
        report.policy is Some,
    ensures
        ({
            let policy = report.policy->0@;
            &&& policy.workspace == input.workspace.path@
            &&& policy.private_home == encode_utf8("/home/cane"@)
            &&& policy.private_temp == encode_utf8("/tmp"@)
            &&& policy.grants.contains(
                GrantView {
                    access: SandboxFilesystemAccess::ReadWrite,
                    path: input.workspace.path@,
                    purpose: SandboxPathPurpose::Workspace,
                },
            )
            &&& 0 <= at < facts.runtime_roots@.len() ==> is_exposed(
                policy.grants,
                facts.runtime_roots@[at].path@,
            )
            &&& 0 <= at < input.toolchain_roots@.len() ==> is_exposed(
                policy.grants,
                input.toolchain_roots@[at].path@,
            )
            &&& 0 <= at < input.pass_through_roots@.len() ==> is_exposed(
                policy.grants,
                input.pass_through_roots@[at].path@,
            )
        }),
{
    let config = choose|config: CommandSandboxPolicyConfig| #[trigger]
        is_diagnosed_config(config, input, facts) && is_diagnosis(
            report,
            input,
            facts,
            policy_of(config),
        );
    roots_are_exposed(config, at);
}

/// Wherever the Git metadata was found, the policy of the report exposes it read-only, behind the
/// workspace unless a read-only root before the workspace is the same path.
pub proof fn diagnosed_git_metadata_is_read_only(
    report: SandboxDiagnosticReport,
    input: SandboxDiagnosticInput,
    facts: LinuxHostFacts,
    at: int,
    workspace: int,
)
    requires
        diagnoses(report, input, facts),
        report.policy is Some,
        facts.git_metadata is Ok,
        0 <= at < facts.git_metadata->Ok_0@.len(),
        0 <= workspace < report.policy->0@.grants.len(),
        report.policy->0@.grants[workspace].purpose == SandboxPathPurpose::Workspace,
    ensures
        ({
            let grants = report.policy->0@.grants;
            let path = facts.git_metadata->Ok_0@[at].path@;
            ||| is_exposed(grants.take(workspace), path)
            ||| exists|i: int|
                workspace < i < grants.len() && (#[trigger] grants[i]) == (GrantView {
                    access: SandboxFilesystemAccess::ReadOnly,
                    path: grants[i].path,
                    purpose: SandboxPathPurpose::GitMetadata,
                }) && same_path(grants[i].path, path)
        }),
{
    let config = choose|config: CommandSandboxPolicyConfig| #[trigger]
        is_diagnosed_config(config, input, facts) && is_diagnosis(
            report,
            input,
            facts,
            policy_of(config),
        );
    git_metadata_lies_over_the_workspace(config, at, workspace);
}

/// Every inherited directory that resolves to a place in the workspace is in the `PATH` of the
/// report's policy.
pub proof fn diagnosed_paths_keep_workspace_entries(
    report: SandboxDiagnosticReport,
    input: SandboxDiagnosticInput,
    facts: LinuxHostFacts,
    at: int,
)
    requires
        diagnoses(report, input, facts),
        report.policy is Some,
        0 <= at < input.inherited_path@.len(),
        is_absolute_path(input.inherited_path@[at].path@),
        input.inherited_path@[at].is_directory,
        input.inherited_path@[at].canonical is Some,
        input.workspace.canonical is Some,
        beneath(input.inherited_path@[at].canonical->0@, input.workspace.canonical->0@),
    ensures
        holds_path(report.policy->0@.executable_path, input.inherited_path@[at].path@),
{
    let config = choose|config: CommandSandboxPolicyConfig| #[trigger]
        is_diagnosed_config(config, input, facts) && is_diagnosis(
            report,
            input,
            facts,
            policy_of(config),
        );
    workspace_entries_are_kept(config, at);
}

proof fn lemma_required_joined(first: Seq<FindingView>, second: Seq<FindingView>)
    ensures
        all_required_passed(first + second) <==> all_required_passed(first) && all_required_passed(
            second,
        ),
{
    let both = first + second;
    if all_required_passed(both) {
        assert forall|i: int| 0 <= i < first.len() implies (#[trigger] first[i]).importance
            == DiagnosticImportance::Optional || first[i].status == DiagnosticStatus::Passed by {
            assert(both[i] == first[i]);
        }
        assert forall|i: int| 0 <= i < second.len() implies (#[trigger] second[i]).importance
            == DiagnosticImportance::Optional || second[i].status == DiagnosticStatus::Passed by {
            assert(both[first.len() + i] == second[i]);
        }
    }
    if all_required_passed(first) && all_required_passed(second) {
        assert forall|i: int| 0 <= i < both.len() implies (#[trigger] both[i]).importance
            == DiagnosticImportance::Optional || both[i].status == DiagnosticStatus::Passed by {
            if i < first.len() {
                assert(both[i] == first[i]);
            } else {
                assert(both[i] == second[i - first.len()]);
            }
        }
    }
}

/// A probe succeeded.
pub open spec fn succeeded(probe: Result<ProbeOutput, String>) -> bool {
    probe is Ok && probe->Ok_0.status
}

proof fn lemma_launcher_passed(facts: LinuxHostFacts)
    ensures
        all_required_passed(launcher_findings(facts)) <==> {
            &&& facts.launcher is Ok
            &&& succeeded(facts.version_probe)
            &&& trimmed_text(readable(facts.version_probe->Ok_0.stdout@)).len() > 0
            &&& forall|i: int|
                0 <= i < facts.capability_probes@.len() ==> succeeded(
                    #[trigger] facts.capability_probes@[i],
                )
        },
{
    let findings = launcher_findings(facts);
    match facts.launcher {
        Err(_) => {
            assert(findings[0].status == DiagnosticStatus::Failed);
        },
        Ok(installation) => {
            let probes = facts.capability_probes@;
            let first = seq![
                required(
                    "Bubblewrap resolution"@,
                    DiagnosticStatus::Passed,
                    "resolved trusted launcher "@ + readable(installation@),
                ),
                version_outcome(facts.version_probe).0,
            ];
            let second = capability_findings(probes);
            lemma_required_joined(first, second);
            assert(first[1] == version_outcome(facts.version_probe).0);
            if all_required_passed(second) {
                assert forall|i: int| 0 <= i < probes.len() implies succeeded(
                    #[trigger] probes[i],
                ) by {
                    assert(second[i] == capability_finding(i, probes[i]));
                }
            }
            if forall|i: int| 0 <= i < probes.len() ==> succeeded(#[trigger] probes[i]) {
                assert forall|i: int| 0 <= i < second.len() implies (
                #[trigger] second[i]).importance == DiagnosticImportance::Optional
                    || second[i].status == DiagnosticStatus::Passed by {
                    assert(succeeded(probes[i]));
                }
            }
        },
    }
}

/// A host supports sandboxing exactly where everything that a sandbox needs was found: the shell
/// and `/bin/true`, the workspace as a directory, readable Git metadata, a policy that can be
/// made, a trusted launcher that says its version, and every capability that was probed. Docker
/// makes no difference.
#[verifier::rlimit(40)]
pub proof fn hosts_are_supported_where_all_is_found(
    report: SandboxDiagnosticReport,
    input: SandboxDiagnosticInput,
    facts: LinuxHostFacts,
)
    requires
        diagnoses(report, input, facts),
    ensures
        all_required_passed(finding_views(report.findings@)) <==> {
            &&& facts.has_bash
            &&& facts.has_true
            &&& facts.workspace is Ok && facts.workspace->Ok_0.is_directory
            &&& facts.git_metadata is Ok
            &&& report.policy is Some
            &&& facts.launcher is Ok
            &&& succeeded(facts.version_probe)
            &&& trimmed_text(readable(facts.version_probe->Ok_0.stdout@)).len() > 0
            &&& forall|i: int|
                0 <= i < facts.capability_probes@.len() ==> succeeded(
                    #[trigger] facts.capability_probes@[i],
                )
        },
{
    let config = choose|config: CommandSandboxPolicyConfig| #[trigger]
        is_diagnosed_config(config, input, facts) && is_diagnosis(
            report,
            input,
            facts,
            policy_of(config),
        );
    let policy = policy_of(config);
    let platform = seq![required("platform"@, DiagnosticStatus::Passed, "Linux selected"@)];
    let runtime = runtime_findings(facts.runtime_roots@);
    let host = seq![
        executable_finding("/bin/bash"@, facts.has_bash),
        executable_finding("/bin/true"@, facts.has_true),
        workspace_finding(facts.workspace),
        git_finding(facts.git_metadata),
        plan_finding(policy),
        docker_finding(input.docker_endpoint),
    ];
    let launcher = launcher_findings(facts);
    lemma_required_joined(platform + runtime + host, launcher);
    lemma_required_joined(platform + runtime, host);
    lemma_required_joined(platform, runtime);
    lemma_launcher_passed(facts);
    assert(all_required_passed(platform));
    assert(all_required_passed(runtime));
    if policy is Ok {
        plans_never_mount_the_root(config);
    }
    if all_required_passed(host) {
        assert(host[0].status == DiagnosticStatus::Passed);
        assert(host[1].status == DiagnosticStatus::Passed);
        assert(host[2].status == DiagnosticStatus::Passed);
        assert(host[3].status == DiagnosticStatus::Passed);
        assert(host[4].status == DiagnosticStatus::Passed);
    }
}

/// One thing that a report says.
pub open spec fn says(
    report: SandboxDiagnosticReport,
    at: int,
    name: Seq<char>,
    importance: DiagnosticImportance,
    status: DiagnosticStatus,
    detail: Seq<char>,
) -> bool {
    &&& 0 <= at < report.findings@.len()
    &&& report.findings@[at].name@ == name
    &&& report.findings@[at].importance == importance
    &&& report.findings@[at].status == status
    &&& report.findings@[at].detail@ == detail
}

/// A report says of each runtime root that it was found, and then, in this order, whether the
/// shell, `/bin/true`, the workspace, the Git metadata, a policy, a Docker endpoint and a launcher
/// were.
#[verifier::rlimit(40)]
pub proof fn reports_say_what_was_found(
    report: SandboxDiagnosticReport,
    input: SandboxDiagnosticInput,
    facts: LinuxHostFacts,
    at: int,
)
    requires
        diagnoses(report, input, facts),
    ensures
        ({
            let count = facts.runtime_roots@.len() as int;
            let mandatory = DiagnosticImportance::Mandatory;
            let passed = DiagnosticStatus::Passed;
            let failed = DiagnosticStatus::Failed;
            &&& report.platform@ == "linux"@
            &&& report.backend@ == "bubblewrap"@
            &&& says(report, 0, "platform"@, mandatory, passed, "Linux selected"@)
            &&& 0 <= at < count ==> says(
                report,
                1 + at,
                "runtime path "@ + readable(facts.runtime_roots@[at].path@),
                mandatory,
                passed,
                "available for read-only exposure"@,
            )
            &&& says(
                report,
                1 + count,
                "runtime executable /bin/bash"@,
                mandatory,
                if facts.has_bash {
                    passed
                } else {
                    failed
                },
                if facts.has_bash {
                    "required executable is available"@
                } else {
                    "required executable is missing"@
                },
            )
            &&& says(
                report,
                2 + count,
                "runtime executable /bin/true"@,
                mandatory,
                if facts.has_true {
                    passed
                } else {
                    failed
                },
                if facts.has_true {
                    "required executable is available"@
                } else {
                    "required executable is missing"@
                },
            )
            &&& match facts.workspace {
                Err(error) => says(report, 3 + count, "Workspace"@, mandatory, failed, error@),
                Ok(resolved) => if resolved.is_directory {
                    says(
                        report,
                        3 + count,
                        "Workspace"@,
                        mandatory,
                        passed,
                        "read/write root is representable at "@ + readable(resolved.path@),
                    )
                } else {
                    says(
                        report,
                        3 + count,
                        "Workspace"@,
                        mandatory,
                        failed,
                        readable(resolved.path@) + " is not a directory"@,
                    )
                },
            }
            &&& match facts.git_metadata {
                Err(error) => says(report, 4 + count, "Git metadata"@, mandatory, failed, error@),
                Ok(roots) => {
                    &&& roots@.len() == 0 ==> says(
                        report,
                        4 + count,
                        "Git metadata"@,
                        mandatory,
                        passed,
                        "workspace is not inside a Git repository"@,
                    )
                    &&& roots@.len() == 1 ==> says(
                        report,
                        4 + count,
                        "Git metadata"@,
                        mandatory,
                        passed,
                        "read-only metadata: "@ + readable(roots@[0].path@),
                    )
                },
            }
            &&& match input.docker_endpoint {
                None => says(
                    report,
                    6 + count,
                    "Docker endpoint"@,
                    DiagnosticImportance::Optional,
                    failed,
                    "no eligible local Unix socket was discovered"@,
                ),
                Some(endpoint) => match endpoint.is_socket {
                    Err(error) => says(
                        report,
                        6 + count,
                        "Docker endpoint"@,
                        DiagnosticImportance::Optional,
                        failed,
                        readable(endpoint.path@) + " is unavailable: "@ + error@,
                    ),
                    Ok(is_socket) => says(
                        report,
                        6 + count,
                        "Docker endpoint"@,
                        DiagnosticImportance::Optional,
                        if is_socket {
                            passed
                        } else {
                            failed
                        },
                        if is_socket {
                            "local Unix socket available at "@ + readable(endpoint.path@)
                        } else {
                            readable(endpoint.path@) + " is not a Unix socket"@
                        },
                    ),
                },
            }
        }),
{
    let config = choose|config: CommandSandboxPolicyConfig| #[trigger]
        is_diagnosed_config(config, input, facts) && is_diagnosis(
            report,
            input,
            facts,
            policy_of(config),
        );
    let count = facts.runtime_roots@.len() as int;
    let views = finding_views(report.findings@);
    let found = diagnosed_findings(input, facts, policy_of(config));
    assert(views == found);
    assert(views.len() == report.findings@.len());
    reveal_strlit("runtime executable ");
    reveal_strlit("/bin/bash");
    reveal_strlit("/bin/true");
    reveal_strlit("runtime executable /bin/bash");
    reveal_strlit("runtime executable /bin/true");
    assert("runtime executable "@ + "/bin/bash"@ =~= "runtime executable /bin/bash"@);
    assert("runtime executable "@ + "/bin/true"@ =~= "runtime executable /bin/true"@);
    assert(views[0] == report.findings@[0]@);
    if 0 <= at < count {
        assert(found[1 + at] == runtime_findings(facts.runtime_roots@)[at]);
        assert(views[1 + at] == report.findings@[1 + at]@);
    }
    assert(found[1 + count] == executable_finding("/bin/bash"@, facts.has_bash));
    assert(found[2 + count] == executable_finding("/bin/true"@, facts.has_true));
    assert(found[3 + count] == workspace_finding(facts.workspace));
    assert(found[4 + count] == git_finding(facts.git_metadata));
    assert(found[6 + count] == docker_finding(input.docker_endpoint));
    assert(views[1 + count] == report.findings@[1 + count]@);
    assert(views[2 + count] == report.findings@[2 + count]@);
    assert(views[3 + count] == report.findings@[3 + count]@);
    assert(views[4 + count] == report.findings@[4 + count]@);
    assert(views[6 + count] == report.findings@[6 + count]@);
    if facts.git_metadata is Ok && facts.git_metadata->Ok_0@.len() == 1 {
        let roots = facts.git_metadata->Ok_0@;
        let texts = displayed(observed_paths(roots));
        assert(texts =~= seq![readable(roots[0].path@)]);
        reveal_with_fuel(joined_texts, 3);
        assert(joined_texts(texts, ", "@) =~= readable(roots[0].path@));
    }
}

/// A report tells of the launcher behind the rest: where it is, what version it says it has, and
/// what came of each probe, under the name of what was probed.
#[verifier::rlimit(40)]
pub proof fn reports_tell_of_the_launcher(
    report: SandboxDiagnosticReport,
    input: SandboxDiagnosticInput,
    facts: LinuxHostFacts,
    at: int,
)
    requires
        diagnoses(report, input, facts),
        facts.launcher is Ok,
        facts.capability_probes@.len() == 9,
        0 <= at < 9,
    ensures
        ({
            let count = facts.runtime_roots@.len() as int;
            let mandatory = DiagnosticImportance::Mandatory;
            let passed = DiagnosticStatus::Passed;
            let failed = DiagnosticStatus::Failed;
            let probe = facts.capability_probes@[at];
            let probed = seq![
                "mount namespace"@,
                "user namespace"@,
                "PID namespace"@,
                "network namespace"@,
                "IPC namespace"@,
                "UTS namespace"@,
                "session isolation"@,
                "parent-death supervision"@,
                "combined production capabilities"@,
            ][at];
            &&& report.findings@.len() == 18 + count
            &&& report.bubblewrap_path is Some
            &&& report.bubblewrap_path->0@ == facts.launcher->Ok_0@
            &&& says(
                report,
                7 + count,
                "Bubblewrap resolution"@,
                mandatory,
                passed,
                "resolved trusted launcher "@ + readable(facts.launcher->Ok_0@),
            )
            &&& succeeded(facts.version_probe) ==> {
                let version = trimmed_text(readable(facts.version_probe->Ok_0.stdout@));
                if version.len() > 0 {
                    &&& says(report, 8 + count, "Bubblewrap version"@, mandatory, passed, version)
                    &&& report.bubblewrap_version is Some
                    &&& report.bubblewrap_version->0@ == version
                } else {
                    &&& report.bubblewrap_version is None
                    &&& says(
                        report,
                        8 + count,
                        "Bubblewrap version"@,
                        mandatory,
                        failed,
                        "version output was empty"@,
                    )
                }
            }
            &&& !succeeded(facts.version_probe) ==> report.bubblewrap_version is None
            &&& succeeded(probe) ==> says(
                report,
                9 + count + at,
                probed,
                mandatory,
                passed,
                "functional sandbox invocation succeeded"@,
            )
            &&& probe is Err ==> says(
                report,
                9 + count + at,
                probed,
                mandatory,
                failed,
                probe->Err_0@,
            )
        }),
{
    let config = choose|config: CommandSandboxPolicyConfig| #[trigger]
        is_diagnosed_config(config, input, facts) && is_diagnosis(
            report,
            input,
            facts,
            policy_of(config),
        );
    let count = facts.runtime_roots@.len() as int;
    let views = finding_views(report.findings@);
    let found = diagnosed_findings(input, facts, policy_of(config));
    let launcher = launcher_findings(facts);
    assert(views == found);
    assert(found[7 + count] == launcher[0]);
    assert(found[8 + count] == launcher[1]);
    assert(found[9 + count + at] == launcher[2 + at]);
    assert(launcher[2 + at] == capability_finding(at, facts.capability_probes@[at]));
    assert(views[7 + count] == report.findings@[7 + count]@);
    assert(views[8 + count] == report.findings@[8 + count]@);
    assert(views[9 + count + at] == report.findings@[9 + count + at]@);
}

proof fn lemma_root_arguments(roots: Seq<Seq<u8>>, at: int)
    requires
        0 <= at < roots.len(),
    ensures
        root_arguments(roots).len() == 3 * roots.len(),
        root_arguments(roots)[3 * at] == encode_utf8("--ro-bind"@),
        root_arguments(roots)[3 * at + 1] == roots[at],
        root_arguments(roots)[3 * at + 2] == roots[at],
    decreases roots.len(),
{
    let shorter = roots.drop_last();
    let before = root_arguments(shorter);
    let all = root_arguments(roots);
    let added = seq![encode_utf8("--ro-bind"@), roots.last(), roots.last()];
    assert(all == before + added);
    if at < shorter.len() {
        lemma_root_arguments(shorter, at);
        assert(shorter[at] == roots[at]);
    } else {
        if shorter.len() > 0 {
            lemma_root_arguments(shorter, 0);
        }
        assert(before.len() == 3 * at);
        assert(all[3 * at] == added[0]);
        assert(all[3 * at + 1] == added[1]);
        assert(all[3 * at + 2] == added[2]);
    }
}

/// Each probe sees the runtime roots alone, each bound read-only to itself, and has users and an
/// environment of its own.
pub proof fn probes_see_the_runtime(roots: Seq<Seq<u8>>, at: int, root: int)
    requires
        0 <= root < roots.len(),
    ensures
        ({
            let command = probe_command(roots, at);
            let start = command.len() - 8 - 3 * roots.len() + 3 * root;
            &&& command[0] == encode_utf8("--unshare-user"@)
            &&& command[1] == encode_utf8("--clearenv"@)
            &&& 2 <= start
            &&& command[start] == encode_utf8("--ro-bind"@)
            &&& command[start + 1] == roots[root]
            &&& command[start + 2] == roots[root]
        }),
{
    let command = probe_command(roots, at);
    let binds = root_arguments(roots);
    lemma_root_arguments(roots, root);
    let start = command.len() - 8 - 3 * roots.len() + 3 * root;
    assert(command[start] == binds[3 * root]);
    assert(command[start + 1] == binds[3 * root + 1]);
    assert(command[start + 2] == binds[3 * root + 2]);
}

/// Each probe runs `/bin/true`, and uses the capability that it is named after; the last one uses
/// them all.
#[verifier::rlimit(40)]
pub proof fn probes_use_their_capability(roots: Seq<Seq<u8>>, at: int)
    requires
        0 <= at < 9,
    ensures
        ({
            let command = probe_command(roots, at);
            let end = command.len();
            &&& end >= 10
            &&& command.skip(end - 8) == seq![
                encode_utf8("--proc"@),
                encode_utf8("/proc"@),
                encode_utf8("--dev"@),
                encode_utf8("/dev"@),
                encode_utf8("--chdir"@),
                encode_utf8("/"@),
                encode_utf8("--"@),
                encode_utf8("/bin/true"@),
            ]
            &&& at == 2 ==> command[2] == encode_utf8("--unshare-pid"@)
            &&& at == 3 ==> command[2] == encode_utf8("--unshare-net"@)
            &&& at == 4 ==> command[2] == encode_utf8("--unshare-ipc"@)
            &&& at == 5 ==> command[2] == encode_utf8("--unshare-uts"@)
            &&& at == 6 ==> command[2] == encode_utf8("--new-session"@)
            &&& at == 7 ==> command[2] == encode_utf8("--die-with-parent"@)
            &&& at == 8 ==> command.subrange(2, 8) == seq![
                encode_utf8("--unshare-pid"@),
                encode_utf8("--unshare-net"@),
                encode_utf8("--unshare-ipc"@),
                encode_utf8("--unshare-uts"@),
                encode_utf8("--new-session"@),
                encode_utf8("--die-with-parent"@),
            ]
        }),
{
    let command = probe_command(roots, at);
    let uses = capability_arguments(at);
    let end = command.len() as int;
    assert(command.skip(end - 8) =~= seq![
        encode_utf8("--proc"@),
        encode_utf8("/proc"@),
        encode_utf8("--dev"@),
        encode_utf8("/dev"@),
        encode_utf8("--chdir"@),
        encode_utf8("/"@),
        encode_utf8("--"@),
        encode_utf8("/bin/true"@),
    ]);
    if at >= 2 {
        assert(command[2] == uses[0]);
    }
    if at == 8 {
        assert(command.subrange(2, 8) =~= uses);
    }
}

/// A probe that fails is quoted by the beginning of what it said, without white space around it
/// and up to 400 characters; where it said nothing, that is what is told.
pub proof fn failed_probes_are_quoted(said: Seq<char>)
    ensures
        trimmed_text(said).len() == 0 ==> failure_text(said)
            == "probe exited unsuccessfully without output"@,
        0 < trimmed_text(said).len() <= 400 ==> failure_text(said) == trimmed_text(said),
        trimmed_text(said).len() > 400 ==> failure_text(said).len() == 400 && failure_text(
            said,
        ).is_prefix_of(trimmed_text(said)),
{
}

/// A failed probe is judged by what it complained of, and by what it wrote only where it
/// complained of nothing.
pub proof fn complaints_are_heard_first(output: ProbeOutput)
    ensures
        output.stderr@.len() > 0 ==> said_bytes(output) == output.stderr@,
        output.stderr@.len() == 0 ==> said_bytes(output) == output.stdout@,
{
}

/// The version is what the launcher wrote about it, without white space around it, and is missing
/// where that is nothing or where the launcher failed.
pub proof fn versions_are_what_was_written(probe: Result<ProbeOutput, String>)
    ensures
        ({
            let (finding, version) = version_outcome(probe);
            let written = trimmed_text(readable(probe->Ok_0.stdout@));
            &&& version is Some <==> probe is Ok && probe->Ok_0.status && written.len() > 0
            &&& version is Some ==> version->0 == written && finding.detail == written
            &&& finding.status == DiagnosticStatus::Passed <==> version is Some
            &&& finding.importance == DiagnosticImportance::Mandatory
            &&& finding.name == "Bubblewrap version"@
            &&& probe matches Err(error) ==> finding.detail == error@
        }),
{
}

/// Docker is never required. It is found where a socket was discovered at its place.
pub proof fn docker_is_optional(endpoint: Option<DiscoveredEndpoint>)
    ensures
        ({
            let finding = docker_finding(endpoint);
            &&& finding.importance == DiagnosticImportance::Optional
            &&& finding.name == "Docker endpoint"@
            &&& finding.status == DiagnosticStatus::Passed <==> endpoint is Some
                && endpoint->0.is_socket is Ok && endpoint->0.is_socket->Ok_0
            &&& finding.status == DiagnosticStatus::Passed ==> finding.detail
                == "local Unix socket available at "@ + readable(endpoint->0.path@)
            &&& endpoint is None ==> finding.detail
                == "no eligible local Unix socket was discovered"@
        }),
{
}

/// Git metadata that was found is named root by root.
pub proof fn git_metadata_is_named(git_metadata: Result<Vec<ObservedPath>, String>)
    ensures
        ({
            let finding = git_finding(git_metadata);
            &&& finding.importance == DiagnosticImportance::Mandatory
            &&& finding.status == DiagnosticStatus::Passed <==> git_metadata is Ok
            &&& git_metadata matches Err(error) ==> finding.detail == error@
            &&& git_metadata matches Ok(roots) ==> {
                &&& roots@.len() == 0 ==> finding.detail
                    == "workspace is not inside a Git repository"@
                &&& roots@.len() > 0 ==> finding.detail == "read-only metadata: "@ + joined_texts(
                    Seq::new(roots@.len(), |i: int| readable(roots@[i].path@)),
                    ", "@,
                )
            }
        }),
{
    if let Ok(roots) = git_metadata {
        assert(displayed(observed_paths(roots@)) =~= Seq::new(
            roots@.len(),
            |i: int| readable(roots@[i].path@),
        ));
    }
}

/// The plan is sound exactly where it binds the root nowhere.
pub proof fn plans_must_not_bind_the_root(policy: PolicyView, at: int)
    requires
        0 <= at < plan_operations(policy).len(),
        plan_operations(policy)[at] matches OperationView::ReadOnlyBind { path } ==> same_path(
            path,
            encode_utf8("/"@),
        ),
        plan_operations(policy)[at] matches OperationView::ReadWriteBind { path } ==> same_path(
            path,
            encode_utf8("/"@),
        ),
        plan_operations(policy)[at] is ReadOnlyBind || plan_operations(policy)[at] is ReadWriteBind,
    ensures
        plan_finding(Ok(policy)).status == DiagnosticStatus::Failed,
{
    let operation = plan_operations(policy)[at];
    assert(operation == plan_operations(policy)[at]);
}

} // verus!
