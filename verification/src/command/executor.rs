//! How a prepared command is started: in the sandbox, or on the host itself.
use crate::bytes::{byte_views, copy_bytes};
use crate::command::diagnostics::{all_required_passed, finding_views, SandboxDiagnosticReport};
use crate::command::docker::{
    executable_views, DockerEndpointView, DockerExecutable, DockerExecutableName,
    DockerExecutableView,
};
use crate::command::linux::diagnosis::{
    diagnose_linux_sandbox, diagnoses, LinuxHostFacts, SandboxDiagnosticInput,
    PROBE_CAPABILITY_COUNT,
};
use crate::command::linux::plan::{
    compile_linux_sandbox_plan, plan_of, push_path_argument, push_text_argument, LinuxSandboxPlan,
    PlanView,
};
use crate::command::policy::CommandSandboxPolicy;
use crate::command::request::{CommandRequest, RequestView};
use crate::command::supervise::CommandExecutionError;
use crate::entries::entries_map;
use crate::environment::{
    inserted, set_variables_are_found, variable_entries, Environment, EnvironmentVariable,
};
use crate::path::{beneath, is_absolute_path, joined_path, HostPath};
use crate::text::{holds, same_text, text_views};
use vstd::prelude::*;
use vstd::string::StringExecFns;
use vstd::utf8::encode_utf8;

verus! {

#[derive(Clone, Copy, Debug, PartialEq, Eq, Structural)]
pub enum CommandExecutionMode {
    Sandboxed,
    Unsafe,
}

#[derive(Clone, Debug, PartialEq, Eq)]
pub struct CommandExecutorDescriptor {
    pub backend: String,
    pub mode: CommandExecutionMode,
}

/// What a working directory resolves to on the host.
#[derive(Debug, PartialEq, Eq)]
pub struct ResolvedDirectory {
    pub is_directory: bool,
    pub path: HostPath,
}

/// A process to start: with no variables but these, and nothing to read.
#[derive(Debug, PartialEq, Eq)]
pub struct ProcessLaunch {
    pub arguments: Vec<Vec<u8>>,
    pub directory: HostPath,
    pub environment: Environment,
    pub program: HostPath,
}

pub struct LaunchView {
    pub arguments: Seq<Seq<u8>>,
    pub directory: Seq<u8>,
    pub environment: Seq<(Seq<char>, Seq<char>)>,
    pub program: Seq<u8>,
}

impl View for ProcessLaunch {
    type V = LaunchView;

    open spec fn view(&self) -> LaunchView {
        LaunchView {
            arguments: byte_views(self.arguments@),
            directory: self.directory@,
            environment: self.environment@,
            program: self.program@,
        }
    }
}

fn failure(message: &str) -> (error: CommandExecutionError)
    ensures
        error matches CommandExecutionError::Failed { message: words } && words@ == message@,
{
    CommandExecutionError::Failed { message: message.to_owned() }
}

/// A variable name must be nonempty and hold neither `=` nor NUL.
pub open spec fn is_variable_name(name: Seq<char>) -> bool {
    name.len() > 0 && !name.contains('=') && !name.contains('\0')
}

pub open spec fn holds_nul(text: Seq<char>) -> bool {
    text.contains('\0')
}

/// What is wrong with the first variable with which something is wrong.
pub open spec fn variables_fault(variables: Seq<(Seq<char>, Seq<char>)>) -> Option<Seq<char>>
    decreases variables.len(),
{
    if variables.len() == 0 {
        None
    } else {
        match variables_fault(variables.drop_last()) {
            Some(message) => Some(message),
            None => if !is_variable_name(variables.last().0) {
                Some(
                    "environment variable names must be nonempty and contain neither `=` nor NUL"@,
                )
            } else if holds_nul(variables.last().1) {
                Some("environment value must not contain NUL"@)
            } else {
                None
            },
        }
    }
}

/// What is wrong with a request, if anything is: it must be one that the host can start, name
/// Docker executables only with an endpoint, and run in a directory of the workspace.
pub open spec fn request_fault(
    request: RequestView,
    workspace: Seq<u8>,
    workdir: Result<ResolvedDirectory, String>,
) -> Option<Seq<char>> {
    if !is_absolute_path(encode_utf8(request.executable)) {
        Some("prepared executable must be an absolute path"@)
    } else if holds_nul(request.executable) {
        Some("executable must not contain NUL"@)
    } else if exists|i: int|
        0 <= i < request.arguments.len() && holds_nul(#[trigger] request.arguments[i]) {
        Some("argument must not contain NUL"@)
    } else {
        match variables_fault(request.environment) {
            Some(message) => Some(message),
            None => if request.docker_endpoint is None && request.docker_executables.len() > 0 {
                Some("Docker executables require an authorized Docker endpoint"@)
            } else {
                match workdir {
                    Err(error) => Some("could not resolve command workdir: "@ + error@),
                    Ok(resolved) => if resolved.is_directory && beneath(
                        resolved.path@,
                        workspace,
                    ) {
                        None
                    } else {
                        Some("prepared workdir must be a directory inside the workspace"@)
                    },
                }
            },
        }
    }
}

/// Whether `outcome` is free of the fault, or is the fault.
pub open spec fn request_checked(
    outcome: Result<(), CommandExecutionError>,
    fault: Option<Seq<char>>,
) -> bool {
    match fault {
        None => outcome is Ok,
        Some(words) => outcome matches Err(CommandExecutionError::Failed { message }) && message@
            == words,
    }
}

fn any_holds_nul(texts: &Vec<String>) -> (held: bool)
    ensures
        held <==> exists|i: int|
            0 <= i < texts@.len() && holds_nul(#[trigger] text_views(texts@)[i]),
{
    let ghost views = text_views(texts@);
    let mut index: usize = 0;
    while index < texts.len()
        invariant
            index <= texts@.len(),
            views == text_views(texts@),
            forall|i: int| 0 <= i < index ==> !holds_nul(#[trigger] views[i]),
        decreases texts.len() - index,
    {
        assert(views[index as int] == texts@[index as int]@);
        if holds(texts[index].as_str(), '\0') {
            return true;
        }
        index += 1;
    }
    false
}

proof fn lemma_first_variable_fault_stays(variables: Seq<(Seq<char>, Seq<char>)>, count: int)
    requires
        0 <= count <= variables.len(),
        variables_fault(variables.take(count)) is Some,
    ensures
        variables_fault(variables) == variables_fault(variables.take(count)),
    decreases variables.len(),
{
    if count == variables.len() {
        assert(variables.take(count) =~= variables);
    } else {
        assert(variables.drop_last().take(count) =~= variables.take(count));
        lemma_first_variable_fault_stays(variables.drop_last(), count);
    }
}

fn validate_variables(variables: &[EnvironmentVariable]) -> (outcome: Result<
    (),
    CommandExecutionError,
>)
    ensures
        request_checked(outcome, variables_fault(variable_entries(variables@))),
{
    let ghost entries = variable_entries(variables@);
    let mut index: usize = 0;
    assert(entries.take(0) =~= Seq::empty());
    while index < variables.len()
        invariant
            index <= variables@.len(),
            entries == variable_entries(variables@),
            variables_fault(entries.take(index as int)) is None,
        decreases variables.len() - index,
    {
        let variable = &variables[index];
        proof {
            let here = entries.take(index + 1);
            assert(here.drop_last() =~= entries.take(index as int));
            assert(here.last() == (variable.name@, variable.value@));
            if variables_fault(here) is Some {
                lemma_first_variable_fault_stays(entries, index + 1);
            }
        }
        let name = variable.name.as_str();
        if name.is_empty() || holds(name, '=') || holds(name, '\0') {
            return Err(
                failure(
                    "environment variable names must be nonempty and contain neither `=` nor NUL",
                ),
            );
        }
        if holds(variable.value.as_str(), '\0') {
            return Err(failure("environment value must not contain NUL"));
        }
        index += 1;
    }
    assert(entries.take(entries.len() as int) =~= entries);
    Ok(())
}

/// Checks a request before it is started. `workdir` is what its working directory resolves to.
pub fn validate_request(
    request: &CommandRequest,
    workspace: &HostPath,
    workdir: &Result<ResolvedDirectory, String>,
) -> (outcome: Result<(), CommandExecutionError>)
    ensures
        request_checked(outcome, request_fault(request@, workspace@, *workdir)),
{
    if !HostPath::from_text(request.executable.as_str()).is_absolute() {
        return Err(failure("prepared executable must be an absolute path"));
    }
    if holds(request.executable.as_str(), '\0') {
        return Err(failure("executable must not contain NUL"));
    }
    let ghost arguments = text_views(request.arguments@);
    if any_holds_nul(&request.arguments) {
        proof {
            let i = choose|i: int| 0 <= i < arguments.len() && holds_nul(#[trigger] arguments[i]);
            assert(holds_nul(request@.arguments[i]));
        }
        return Err(failure("argument must not contain NUL"));
    }
    match validate_variables(request.environment.variables()) {
        Err(error) => {
            return Err(error);
        },
        Ok(()) => {},
    }
    if request.docker_endpoint.is_none() && request.docker_executables.len() > 0 {
        return Err(failure("Docker executables require an authorized Docker endpoint"));
    }
    match workdir {
        Err(error) => Err(
            failure(
                "could not resolve command workdir: ".to_owned().concat(error.as_str()).as_str(),
            ),
        ),
        Ok(resolved) => if resolved.is_directory && resolved.path.starts_with(workspace) {
            Ok(())
        } else {
            Err(failure("prepared workdir must be a directory inside the workspace"))
        },
    }
}

pub open spec fn encoded(text: Seq<char>) -> Seq<u8> {
    encode_utf8(text)
}

/// The arguments that put the Docker socket into the sandbox.
pub open spec fn socket_arguments(endpoint: Option<DockerEndpointView>) -> Seq<Seq<u8>> {
    match endpoint {
        None => Seq::empty(),
        Some(endpoint) => seq![
            encoded("--bind"@),
            endpoint.path,
            encoded("/tmp/cane-docker.sock"@),
        ],
    }
}

/// The arguments that put each executable into a private directory, under its own name.
pub open spec fn executable_arguments(executables: Seq<DockerExecutableView>) -> Seq<Seq<u8>>
    decreases executables.len(),
{
    if executables.len() == 0 {
        Seq::empty()
    } else {
        executable_arguments(executables.drop_last()) + seq![
            encoded("--ro-bind"@),
            executables.last().path,
            joined_path(
                encoded("/tmp/cane-docker-bin"@),
                encoded(executables.last().name.spelled()),
            ),
        ]
    }
}

/// The first executable with this name.
pub open spec fn first_named(
    executables: Seq<DockerExecutableView>,
    name: DockerExecutableName,
    at: int,
) -> Option<DockerExecutableView>
    decreases executables.len() - at,
{
    if !(0 <= at < executables.len()) {
        None
    } else if executables[at].name == name {
        Some(executables[at])
    } else {
        first_named(executables, name, at + 1)
    }
}

/// The arguments that put the executables into the sandbox; Compose is also put where the Docker
/// client looks for plugins.
pub open spec fn docker_arguments(executables: Seq<DockerExecutableView>) -> Seq<Seq<u8>> {
    if executables.len() == 0 {
        Seq::empty()
    } else {
        seq![
            encoded("--dir"@),
            encoded("/tmp/cane-docker-bin"@),
            encoded("--dir"@),
            encoded("/tmp/cane-docker-config"@),
        ] + executable_arguments(executables) + match first_named(
            executables,
            DockerExecutableName::DockerCompose,
            0,
        ) {
            None => Seq::empty(),
            Some(compose) => seq![
                encoded("--dir"@),
                encoded("/tmp/cane-docker-config/cli-plugins"@),
                encoded("--ro-bind"@),
                compose.path,
                joined_path(
                    encoded("/tmp/cane-docker-config/cli-plugins"@),
                    encoded("docker-compose"@),
                ),
            ],
        }
    }
}

/// The arguments that set the variables.
pub open spec fn variable_arguments(variables: Seq<(Seq<char>, Seq<char>)>) -> Seq<Seq<u8>>
    decreases variables.len(),
{
    if variables.len() == 0 {
        Seq::empty()
    } else {
        variable_arguments(variables.drop_last()) + seq![
            encoded("--setenv"@),
            encoded(variables.last().0),
            encoded(variables.last().1),
        ]
    }
}

/// The `PATH` with the private Docker directory before what was there.
pub open spec fn docker_search_path(variables: Map<Seq<char>, Seq<char>>) -> Seq<char> {
    if variables.contains_key("PATH"@) {
        "/tmp/cane-docker-bin:"@ + variables["PATH"@]
    } else {
        "/tmp/cane-docker-bin"@
    }
}

/// The arguments that tell the command where Docker is.
pub open spec fn docker_variable_arguments(request: RequestView) -> Seq<Seq<u8>> {
    (if request.docker_endpoint is Some {
        seq![
            encoded("--setenv"@),
            encoded("DOCKER_HOST"@),
            encoded("unix:///tmp/cane-docker.sock"@),
        ]
    } else {
        Seq::empty()
    }) + (if request.docker_executables.len() > 0 {
        seq![
            encoded("--setenv"@),
            encoded("PATH"@),
            encoded(docker_search_path(entries_map(request.environment))),
            encoded("--setenv"@),
            encoded("DOCKER_CONFIG"@),
            encoded("/tmp/cane-docker-config"@),
        ]
    } else {
        Seq::empty()
    })
}

pub open spec fn encoded_texts(texts: Seq<Seq<char>>) -> Seq<Seq<u8>> {
    Seq::new(texts.len(), |i: int| encoded(texts[i]))
}

/// The launcher's arguments: the plan, then Docker where it is authorized, then where the command
/// runs and with what variables, and the command itself behind `--`.
pub open spec fn sandbox_arguments(plan: PlanView, request: RequestView) -> Seq<Seq<u8>> {
    plan.arguments + socket_arguments(request.docker_endpoint) + docker_arguments(
        request.docker_executables,
    ) + seq![encoded("--chdir"@), request.workdir] + variable_arguments(request.environment)
        + docker_variable_arguments(request) + seq![encoded("--"@), encoded(request.executable)]
        + encoded_texts(request.arguments)
}

fn push_executables(arguments: &mut Vec<Vec<u8>>, executables: &Vec<DockerExecutable>)
    ensures
        byte_views(final(arguments)@) == byte_views(old(arguments)@) + executable_arguments(
            executable_views(executables@),
        ),
{
    let ghost before = byte_views(arguments@);
    let ghost views = executable_views(executables@);
    let bin = HostPath::from_text("/tmp/cane-docker-bin");
    let mut index: usize = 0;
    proof {
        assert(views.take(0) =~= Seq::empty());
        assert(before + executable_arguments(views.take(0)) =~= before);
    }
    while index < executables.len()
        invariant
            index <= executables@.len(),
            views == executable_views(executables@),
            bin@ == encoded("/tmp/cane-docker-bin"@),
            byte_views(arguments@) == before + executable_arguments(views.take(index as int)),
        decreases executables.len() - index,
    {
        let executable = &executables[index];
        let target = bin.join(&HostPath::from_text(executable.name().as_str()));
        push_text_argument(arguments, "--ro-bind");
        push_path_argument(arguments, executable.path());
        push_path_argument(arguments, &target);
        proof {
            let here = views.take(index + 1);
            assert(here.drop_last() =~= views.take(index as int));
            assert(here.last() == executable@);
            assert(byte_views(arguments@) =~= before + executable_arguments(here));
        }
        index += 1;
    }
    assert(views.take(views.len() as int) =~= views);
}

fn find_first_named(executables: &Vec<DockerExecutable>, name: DockerExecutableName) -> (found:
    Option<HostPath>)
    ensures
        match first_named(executable_views(executables@), name, 0) {
            None => found is None,
            Some(view) => found is Some && found->0@ == view.path,
        },
{
    let ghost views = executable_views(executables@);
    let mut index: usize = 0;
    while index < executables.len()
        invariant
            index <= executables@.len(),
            views == executable_views(executables@),
            first_named(views, name, 0) == first_named(views, name, index as int),
        decreases executables.len() - index,
    {
        assert(views[index as int] == executables@[index as int]@);
        if executables[index].name() == name {
            return Some(executables[index].path().clone());
        }
        index += 1;
    }
    None
}

fn push_docker(arguments: &mut Vec<Vec<u8>>, executables: &Vec<DockerExecutable>)
    ensures
        byte_views(final(arguments)@) == byte_views(old(arguments)@) + docker_arguments(
            executable_views(executables@),
        ),
{
    let ghost before = byte_views(arguments@);
    if executables.len() == 0 {
        assert(before + docker_arguments(executable_views(executables@)) =~= before);
        return ;
    }
    push_text_argument(arguments, "--dir");
    push_text_argument(arguments, "/tmp/cane-docker-bin");
    push_text_argument(arguments, "--dir");
    push_text_argument(arguments, "/tmp/cane-docker-config");
    push_executables(arguments, executables);
    if let Some(compose) = find_first_named(executables, DockerExecutableName::DockerCompose) {
        let plugins = HostPath::from_text("/tmp/cane-docker-config/cli-plugins");
        let target = plugins.join(
            &HostPath::from_text(DockerExecutableName::DockerCompose.as_str()),
        );
        push_text_argument(arguments, "--dir");
        push_path_argument(arguments, &plugins);
        push_text_argument(arguments, "--ro-bind");
        push_path_argument(arguments, &compose);
        push_path_argument(arguments, &target);
    }
    assert(executable_views(executables@).len() > 0);
    assert(byte_views(arguments@) =~= before + docker_arguments(executable_views(executables@)));
}

fn push_variables(arguments: &mut Vec<Vec<u8>>, variables: &[EnvironmentVariable])
    ensures
        byte_views(final(arguments)@) == byte_views(old(arguments)@) + variable_arguments(
            variable_entries(variables@),
        ),
{
    let ghost before = byte_views(arguments@);
    let ghost entries = variable_entries(variables@);
    let mut index: usize = 0;
    proof {
        assert(entries.take(0) =~= Seq::empty());
        assert(before + variable_arguments(entries.take(0)) =~= before);
    }
    while index < variables.len()
        invariant
            index <= variables@.len(),
            entries == variable_entries(variables@),
            byte_views(arguments@) == before + variable_arguments(entries.take(index as int)),
        decreases variables.len() - index,
    {
        push_text_argument(arguments, "--setenv");
        push_text_argument(arguments, variables[index].name.as_str());
        push_text_argument(arguments, variables[index].value.as_str());
        proof {
            let here = entries.take(index + 1);
            assert(here.drop_last() =~= entries.take(index as int));
            assert(here.last() == (variables@[index as int].name@, variables@[index as int].value@));
            assert(byte_views(arguments@) =~= before + variable_arguments(here));
        }
        index += 1;
    }
    assert(entries.take(entries.len() as int) =~= entries);
}

fn push_texts(arguments: &mut Vec<Vec<u8>>, texts: &Vec<String>)
    ensures
        byte_views(final(arguments)@) == byte_views(old(arguments)@) + encoded_texts(
            text_views(texts@),
        ),
{
    let ghost before = byte_views(arguments@);
    let ghost all = encoded_texts(text_views(texts@));
    let mut index: usize = 0;
    assert(before + all.take(0) =~= before);
    while index < texts.len()
        invariant
            index <= texts@.len(),
            all == encoded_texts(text_views(texts@)),
            byte_views(arguments@) == before + all.take(index as int),
        decreases texts.len() - index,
    {
        push_text_argument(arguments, texts[index].as_str());
        assert(byte_views(arguments@) =~= before + all.take(index + 1));
        index += 1;
    }
    assert(all.take(all.len() as int) =~= all);
}

fn push_docker_variables(arguments: &mut Vec<Vec<u8>>, request: &CommandRequest)
    requires
        request.wf(),
    ensures
        byte_views(final(arguments)@) == byte_views(old(arguments)@) + docker_variable_arguments(
            request@,
        ),
{
    let ghost before = byte_views(arguments@);
    if request.docker_endpoint.is_some() {
        push_text_argument(arguments, "--setenv");
        push_text_argument(arguments, "DOCKER_HOST");
        push_text_argument(arguments, "unix:///tmp/cane-docker.sock");
    }
    if request.docker_executables.len() > 0 {
        let path = match request.environment.get("PATH") {
            None => "/tmp/cane-docker-bin".to_owned(),
            Some(path) => "/tmp/cane-docker-bin:".to_owned().concat(path),
        };
        push_text_argument(arguments, "--setenv");
        push_text_argument(arguments, "PATH");
        push_text_argument(arguments, path.as_str());
        push_text_argument(arguments, "--setenv");
        push_text_argument(arguments, "DOCKER_CONFIG");
        push_text_argument(arguments, "/tmp/cane-docker-config");
    }
    assert(byte_views(arguments@) =~= before + docker_variable_arguments(request@));
}

fn copy_arguments(arguments: &[Vec<u8>]) -> (copy: Vec<Vec<u8>>)
    ensures
        byte_views(copy@) == byte_views(arguments@),
{
    let mut copy: Vec<Vec<u8>> = Vec::new();
    let mut index: usize = 0;
    while index < arguments.len()
        invariant
            index <= arguments@.len(),
            copy@.len() == index,
            forall|i: int| 0 <= i < index ==> (#[trigger] copy@[i])@ == arguments@[i]@,
        decreases arguments.len() - index,
    {
        copy.push(copy_bytes(arguments[index].as_slice()));
        index += 1;
    }
    assert(byte_views(copy@) =~= byte_views(arguments@));
    copy
}

/// Runs commands in a Bubblewrap sandbox.
#[derive(Debug, PartialEq, Eq)]
pub struct BubblewrapExecutor {
    launcher: HostPath,
    plan: LinuxSandboxPlan,
    workspace: HostPath,
}

pub struct BubblewrapExecutorView {
    pub launcher: Seq<u8>,
    pub plan: PlanView,
    pub workspace: Seq<u8>,
}

impl View for BubblewrapExecutor {
    type V = BubblewrapExecutorView;

    closed spec fn view(&self) -> BubblewrapExecutorView {
        BubblewrapExecutorView {
            launcher: self.launcher@,
            plan: self.plan@,
            workspace: self.workspace@,
        }
    }
}

/// Whether a diagnosis allows the sandbox to be used.
pub open spec fn allows_sandbox(report: SandboxDiagnosticReport) -> bool {
    report.platform@ == "linux"@ && report.backend@ == "bubblewrap"@ && all_required_passed(
        finding_views(report.findings@),
    )
}

impl BubblewrapExecutor {
    /// The executor that a diagnosis allows: only where everything required was found, and with
    /// the launcher and the policy that were diagnosed.
    pub fn from_diagnostics(report: &SandboxDiagnosticReport) -> (outcome: Result<
        Self,
        CommandExecutionError,
    >)
        ensures
            if !allows_sandbox(*report) {
                outcome matches Err(CommandExecutionError::Failed { message }) && message@
                    == "Bubblewrap executor requires successful Linux sandbox diagnostics"@
            } else if report.bubblewrap_path is None {
                outcome matches Err(CommandExecutionError::Failed { message }) && message@
                    == "sandbox diagnostics did not resolve Bubblewrap"@
            } else if report.policy is None {
                outcome matches Err(CommandExecutionError::Failed { message }) && message@
                    == "sandbox diagnostics did not produce a command policy"@
            } else {
                outcome is Ok && outcome->Ok_0@ == (BubblewrapExecutorView {
                    launcher: report.bubblewrap_path->0@,
                    plan: plan_of(report.policy->0@),
                    workspace: report.policy->0@.workspace,
                })
            },
    {
        if !same_text(report.platform.as_str(), "linux") || !same_text(
            report.backend.as_str(),
            "bubblewrap",
        ) || !report.is_supported() {
            return Err(
                failure("Bubblewrap executor requires successful Linux sandbox diagnostics"),
            );
        }
        let launcher = match &report.bubblewrap_path {
            None => {
                return Err(failure("sandbox diagnostics did not resolve Bubblewrap"));
            },
            Some(launcher) => launcher.clone(),
        };
        match &report.policy {
            None => Err(failure("sandbox diagnostics did not produce a command policy")),
            Some(policy) => Ok(Self::with_launcher(launcher, policy)),
        }
    }

    /// The executor with this launcher and policy.
    pub fn with_launcher(launcher: HostPath, policy: &CommandSandboxPolicy) -> (executor: Self)
        ensures
            executor@ == (BubblewrapExecutorView {
                launcher: launcher@,
                plan: plan_of(policy@),
                workspace: policy@.workspace,
            }),
    {
        BubblewrapExecutor {
            launcher,
            plan: compile_linux_sandbox_plan(policy),
            workspace: policy.workspace().clone(),
        }
    }

    pub fn descriptor(&self) -> (descriptor: CommandExecutorDescriptor)
        ensures
            descriptor.backend@ == "bubblewrap"@,
            descriptor.mode == CommandExecutionMode::Sandboxed,
    {
        CommandExecutorDescriptor {
            backend: "bubblewrap".to_owned(),
            mode: CommandExecutionMode::Sandboxed,
        }
    }

    /// The process that runs a command in the sandbox.
    pub fn prepare_process(
        &self,
        request: CommandRequest,
        workdir: &Result<ResolvedDirectory, String>,
    ) -> (outcome: Result<ProcessLaunch, CommandExecutionError>)
        requires
            request.wf(),
        ensures
            match request_fault(request@, self@.workspace, *workdir) {
                Some(words) => outcome matches Err(CommandExecutionError::Failed { message })
                    && message@ == words,
                None => outcome is Ok && outcome->Ok_0@ == (LaunchView {
                    arguments: sandbox_arguments(self@.plan, request@),
                    directory: encoded("/"@),
                    environment: Seq::empty(),
                    program: self@.launcher,
                }),
            },
    {
        match validate_request(&request, &self.workspace, workdir) {
            Err(error) => {
                return Err(error);
            },
            Ok(()) => {},
        }
        let mut arguments = copy_arguments(self.plan.arguments());
        let ghost planned = byte_views(arguments@);
        if let Some(endpoint) = &request.docker_endpoint {
            push_text_argument(&mut arguments, "--bind");
            push_path_argument(&mut arguments, endpoint.path());
            push_text_argument(&mut arguments, "/tmp/cane-docker.sock");
        }
        assert(byte_views(arguments@) =~= planned + socket_arguments(request@.docker_endpoint));
        push_docker(&mut arguments, &request.docker_executables);
        push_text_argument(&mut arguments, "--chdir");
        push_path_argument(&mut arguments, &request.workdir);
        push_variables(&mut arguments, request.environment.variables());
        push_docker_variables(&mut arguments, &request);
        push_text_argument(&mut arguments, "--");
        push_text_argument(&mut arguments, request.executable.as_str());
        push_texts(&mut arguments, &request.arguments);
        assert(byte_views(arguments@) =~= sandbox_arguments(self@.plan, request@));
        Ok(
            ProcessLaunch {
                arguments,
                directory: HostPath::from_text("/"),
                environment: Environment::new(),
                program: self.launcher.clone(),
            },
        )
    }
}

/// Whether a diagnosis yields an executor.
pub open spec fn yields_executor(report: SandboxDiagnosticReport) -> bool {
    allows_sandbox(report) && report.bubblewrap_path is Some && report.policy is Some
}

/// The executor that a diagnosis yields.
pub open spec fn diagnosed_executor(report: SandboxDiagnosticReport) -> BubblewrapExecutorView {
    BubblewrapExecutorView {
        launcher: report.bubblewrap_path->0@,
        plan: plan_of(report.policy->0@),
        workspace: report.policy->0@.workspace,
    }
}

/// Diagnoses the host and gives the executor that the diagnosis yields, with the report; where it
/// yields none, the report alone.
pub fn establish_bubblewrap_executor(
    input: SandboxDiagnosticInput,
    facts: LinuxHostFacts,
) -> (outcome: Result<(BubblewrapExecutor, SandboxDiagnosticReport), SandboxDiagnosticReport>)
    requires
        facts.launcher is Ok ==> facts.capability_probes@.len() == PROBE_CAPABILITY_COUNT,
    ensures
        match outcome {
            Ok((executor, report)) => diagnoses(report, input, facts) && yields_executor(report)
                && executor@ == diagnosed_executor(report),
            Err(report) => diagnoses(report, input, facts) && !yields_executor(report),
        },
{
    let report = diagnose_linux_sandbox(input, facts);
    match BubblewrapExecutor::from_diagnostics(&report) {
        Ok(executor) => Ok((executor, report)),
        Err(_) => Err(report),
    }
}

/// Runs commands on the host itself.
#[derive(Debug, PartialEq, Eq)]
pub struct UnsafeExecutor {
    workspace: HostPath,
}

impl View for UnsafeExecutor {
    type V = Seq<u8>;

    closed spec fn view(&self) -> Seq<u8> {
        self.workspace@
    }
}

/// The variables of a command on the host: where Docker is authorized, they name its endpoint.
pub open spec fn host_variables(request: RequestView) -> Seq<(Seq<char>, Seq<char>)> {
    match request.docker_endpoint {
        None => request.environment,
        Some(endpoint) => inserted(request.environment, "DOCKER_HOST"@, endpoint.resource),
    }
}

impl UnsafeExecutor {
    pub fn new(workspace: HostPath) -> (executor: Self)
        ensures
            executor@ == workspace@,
    {
        UnsafeExecutor { workspace }
    }

    pub fn descriptor(&self) -> (descriptor: CommandExecutorDescriptor)
        ensures
            descriptor.backend@ == "host"@,
            descriptor.mode == CommandExecutionMode::Unsafe,
    {
        CommandExecutorDescriptor {
            backend: "host".to_owned(),
            mode: CommandExecutionMode::Unsafe,
        }
    }

    /// The process that runs a command on the host.
    pub fn prepare_process(
        &self,
        request: CommandRequest,
        workdir: &Result<ResolvedDirectory, String>,
    ) -> (outcome: Result<ProcessLaunch, CommandExecutionError>)
        requires
            request.wf(),
        ensures
            match request_fault(request@, self@, *workdir) {
                Some(words) => outcome matches Err(CommandExecutionError::Failed { message })
                    && message@ == words,
                None => outcome is Ok && outcome->Ok_0@ == (LaunchView {
                    arguments: encoded_texts(request@.arguments),
                    directory: request@.workdir,
                    environment: host_variables(request@),
                    program: encoded(request@.executable),
                }),
            },
    {
        match validate_request(&request, &self.workspace, workdir) {
            Err(error) => {
                return Err(error);
            },
            Ok(()) => {},
        }
        let mut environment = request.environment.copy();
        if let Some(endpoint) = &request.docker_endpoint {
            environment.insert("DOCKER_HOST", endpoint.resource());
        }
        let mut arguments: Vec<Vec<u8>> = Vec::new();
        let ghost none = byte_views(arguments@);
        push_texts(&mut arguments, &request.arguments);
        proof {
            assert(none =~= Seq::empty());
            assert(byte_views(arguments@) =~= encoded_texts(request@.arguments));
        }
        Ok(
            ProcessLaunch {
                arguments,
                directory: request.workdir,
                environment,
                program: HostPath::from_text(request.executable.as_str()),
            },
        )
    }
}

/// A request that names Docker executables without an endpoint is refused, whoever runs it.
pub proof fn docker_needs_an_endpoint(
    request: RequestView,
    workspace: Seq<u8>,
    workdir: Result<ResolvedDirectory, String>,
)
    requires
        request.docker_endpoint is None,
        request.docker_executables.len() > 0,
    ensures
        request_fault(request, workspace, workdir) is Some,
{
}

/// Without Docker authorized, the sandbox gets the plan, the directory, the variables and the
/// command, and nothing of Docker.
pub proof fn sandbox_without_docker(plan: PlanView, request: RequestView)
    requires
        request.docker_endpoint is None,
        request.docker_executables.len() == 0,
    ensures
        sandbox_arguments(plan, request) == plan.arguments + seq![
            encoded("--chdir"@),
            request.workdir,
        ] + variable_arguments(request.environment) + seq![
            encoded("--"@),
            encoded(request.executable),
        ] + encoded_texts(request.arguments),
{
    assert(sandbox_arguments(plan, request) =~= plan.arguments + seq![
        encoded("--chdir"@),
        request.workdir,
    ] + variable_arguments(request.environment) + seq![
        encoded("--"@),
        encoded(request.executable),
    ] + encoded_texts(request.arguments));
}

/// Whoever runs it, a command is only started in a directory that resolves to a place in the
/// workspace.
pub proof fn commands_run_in_the_workspace(
    request: RequestView,
    workspace: Seq<u8>,
    workdir: Result<ResolvedDirectory, String>,
)
    requires
        request_fault(request, workspace, workdir) is None,
    ensures
        workdir is Ok,
        workdir->Ok_0.is_directory,
        beneath(workdir->Ok_0.path@, workspace),
{
}

/// Whether these words stand in a row among the arguments, from `at` on.
pub open spec fn stand_at(arguments: Seq<Seq<u8>>, at: int, words: Seq<Seq<u8>>) -> bool {
    0 <= at && at + words.len() <= arguments.len() && forall|i: int|
        0 <= i < words.len() ==> arguments[at + i] == #[trigger] words[i]
}

/// Whether these words stand in a row between the plan and the command itself.
pub open spec fn stand_among(
    plan: PlanView,
    request: RequestView,
    words: Seq<Seq<u8>>,
) -> bool {
    let arguments = sandbox_arguments(plan, request);
    exists|at: int|
        plan.arguments.len() <= at && at + words.len() <= arguments.len()
            - request.arguments.len() - 2 && #[trigger] stand_at(arguments, at, words)
}

proof fn lemma_variables_stand(variables: Seq<(Seq<char>, Seq<char>)>, index: int)
    requires
        0 <= index < variables.len(),
    ensures
        variable_arguments(variables).len() == 3 * variables.len(),
        stand_at(
            variable_arguments(variables),
            3 * index,
            seq![
                encode_utf8("--setenv"@),
                encode_utf8(variables[index].0),
                encode_utf8(variables[index].1),
            ],
        ),
    decreases variables.len(),
{
    let before = variables.drop_last();
    lemma_variables_length(before);
    if index < before.len() {
        lemma_variables_stand(before, index);
        let words = seq![
            encode_utf8("--setenv"@),
            encode_utf8(variables[index].0),
            encode_utf8(variables[index].1),
        ];
        assert(before[index] == variables[index]);
        assert forall|i: int| 0 <= i < 3 implies variable_arguments(variables)[3 * index + i]
            == #[trigger] words[i] by {
            assert(variable_arguments(before)[3 * index + i] == words[i]);
        }
    }
}

proof fn lemma_variables_length(variables: Seq<(Seq<char>, Seq<char>)>)
    ensures
        variable_arguments(variables).len() == 3 * variables.len(),
    decreases variables.len(),
{
    if variables.len() > 0 {
        lemma_variables_length(variables.drop_last());
    }
}

proof fn lemma_executables_length(executables: Seq<DockerExecutableView>)
    ensures
        executable_arguments(executables).len() == 3 * executables.len(),
    decreases executables.len(),
{
    if executables.len() > 0 {
        lemma_executables_length(executables.drop_last());
    }
}

proof fn lemma_executables_stand(executables: Seq<DockerExecutableView>, index: int)
    requires
        0 <= index < executables.len(),
    ensures
        stand_at(
            executable_arguments(executables),
            3 * index,
            seq![
                encode_utf8("--ro-bind"@),
                executables[index].path,
                joined_path(
                    encode_utf8("/tmp/cane-docker-bin"@),
                    encode_utf8(executables[index].name.spelled()),
                ),
            ],
        ),
    decreases executables.len(),
{
    let before = executables.drop_last();
    lemma_executables_length(before);
    if index < before.len() {
        lemma_executables_stand(before, index);
        let words = seq![
            encode_utf8("--ro-bind"@),
            executables[index].path,
            joined_path(
                encode_utf8("/tmp/cane-docker-bin"@),
                encode_utf8(executables[index].name.spelled()),
            ),
        ];
        assert(before[index] == executables[index]);
        assert forall|i: int| 0 <= i < 3 implies executable_arguments(executables)[3 * index + i]
            == #[trigger] words[i] by {
            assert(executable_arguments(before)[3 * index + i] == words[i]);
        }
    }
}

/// What stands in the middle of a text of arguments stands in the whole.
proof fn lemma_stands_within(
    before: Seq<Seq<u8>>,
    middle: Seq<Seq<u8>>,
    after: Seq<Seq<u8>>,
    at: int,
    words: Seq<Seq<u8>>,
)
    requires
        stand_at(middle, at, words),
    ensures
        stand_at(before + middle + after, before.len() + at, words),
{
    let whole = before + middle + after;
    assert forall|i: int| 0 <= i < words.len() implies whole[before.len() + at + i]
        == #[trigger] words[i] by {
        assert(middle[at + i] == words[i]);
    }
}

/// The command itself, with its arguments in order, is the last thing that the launcher is told,
/// and what the policy came to is the first.
pub proof fn sandboxed_commands_come_last(plan: PlanView, request: RequestView)
    ensures
        ({
            let arguments = sandbox_arguments(plan, request);
            let start = arguments.len() - request.arguments.len() - 2;
            &&& plan.arguments.len() <= start
            &&& stand_at(arguments, 0, plan.arguments)
            &&& arguments[start] == encode_utf8("--"@)
            &&& arguments[start + 1] == encode_utf8(request.executable)
            &&& forall|i: int|
                0 <= i < request.arguments.len() ==> arguments[start + 2 + i] == encode_utf8(
                    #[trigger] request.arguments[i],
                )
        }),
{
    let arguments = sandbox_arguments(plan, request);
    let start = arguments.len() - request.arguments.len() - 2;
    assert forall|i: int| 0 <= i < request.arguments.len() implies arguments[start + 2 + i]
        == encode_utf8(#[trigger] request.arguments[i]) by {
        assert(encoded_texts(request.arguments)[i] == encode_utf8(request.arguments[i]));
    }
}

/// What the launcher is told before the variables, the variables, and what comes behind them.
proof fn lemma_parts(plan: PlanView, request: RequestView) -> (parts: (
    Seq<Seq<u8>>,
    Seq<Seq<u8>>,
))
    ensures
        sandbox_arguments(plan, request) == parts.0 + variable_arguments(request.environment)
            + parts.1,
        parts.0 == plan.arguments + socket_arguments(request.docker_endpoint) + docker_arguments(
            request.docker_executables,
        ) + seq![encode_utf8("--chdir"@), request.workdir],
        parts.1 == docker_variable_arguments(request) + (seq![
            encode_utf8("--"@),
            encode_utf8(request.executable),
        ] + encoded_texts(request.arguments)),
{
    let before = plan.arguments + socket_arguments(request.docker_endpoint) + docker_arguments(
        request.docker_executables,
    ) + seq![encode_utf8("--chdir"@), request.workdir];
    let after = docker_variable_arguments(request) + (seq![
        encode_utf8("--"@),
        encode_utf8(request.executable),
    ] + encoded_texts(request.arguments));
    assert(sandbox_arguments(plan, request) =~= before + variable_arguments(request.environment)
        + after);
    (before, after)
}

/// The command finds every variable of the request with its value.
pub proof fn sandboxed_commands_find_their_variables(
    plan: PlanView,
    request: RequestView,
    index: int,
)
    requires
        0 <= index < request.environment.len(),
    ensures
        ({
            let arguments = sandbox_arguments(plan, request);
            stand_among(
                plan,
                request,
                seq![
                    encode_utf8("--setenv"@),
                    encode_utf8(request.environment[index].0),
                    encode_utf8(request.environment[index].1),
                ],
            )
        }),
{
    let parts = lemma_parts(plan, request);
    lemma_variables_stand(request.environment, index);
    lemma_stands_within(
        parts.0,
        variable_arguments(request.environment),
        parts.1,
        3 * index,
        seq![
            encode_utf8("--setenv"@),
            encode_utf8(request.environment[index].0),
            encode_utf8(request.environment[index].1),
        ],
    );
}

/// The command is started in its directory.
pub proof fn sandboxed_commands_start_in_their_directory(plan: PlanView, request: RequestView)
    ensures
        ({
            let arguments = sandbox_arguments(plan, request);
            stand_among(
                plan,
                request,
                seq![encode_utf8("--chdir"@), request.workdir],
            )
        }),
{
    let parts = lemma_parts(plan, request);
    let words = seq![encode_utf8("--chdir"@), request.workdir];
    let first = plan.arguments + socket_arguments(request.docker_endpoint) + docker_arguments(
        request.docker_executables,
    );
    let rest = variable_arguments(request.environment) + parts.1;
    assert(sandbox_arguments(plan, request) =~= first + words + rest);
    assert(stand_at(words, 0, words));
    lemma_stands_within(first, words, rest, 0, words);
}

/// Where an endpoint is authorized, its socket is put at a fixed place that can be written to,
/// and the command is told of that place and not of the socket's own.
pub proof fn authorized_sockets_are_reachable(plan: PlanView, request: RequestView)
    requires
        request.docker_endpoint is Some,
    ensures
        ({
            let arguments = sandbox_arguments(plan, request);
            &&& stand_at(
                arguments,
                plan.arguments.len() as int,
                seq![
                    encode_utf8("--bind"@),
                    request.docker_endpoint->0.path,
                    encode_utf8("/tmp/cane-docker.sock"@),
                ],
            )
            &&& stand_among(
                plan,
                request,
                seq![
                    encode_utf8("--setenv"@),
                    encode_utf8("DOCKER_HOST"@),
                    encode_utf8("unix:///tmp/cane-docker.sock"@),
                ],
            )
        }),
{
    let parts = lemma_parts(plan, request);
    let arguments = sandbox_arguments(plan, request);
    let socket = seq![
        encode_utf8("--bind"@),
        request.docker_endpoint->0.path,
        encode_utf8("/tmp/cane-docker.sock"@),
    ];
    let words = seq![
        encode_utf8("--setenv"@),
        encode_utf8("DOCKER_HOST"@),
        encode_utf8("unix:///tmp/cane-docker.sock"@),
    ];
    let behind = docker_arguments(request.docker_executables) + seq![
        encode_utf8("--chdir"@),
        request.workdir,
    ] + variable_arguments(request.environment) + parts.1;
    assert(arguments =~= plan.arguments + socket + behind);
    assert(stand_at(socket, 0, socket));
    lemma_stands_within(plan.arguments, socket, behind, 0, socket);
    let first = parts.0 + variable_arguments(request.environment);
    assert(stand_at(docker_variable_arguments(request), 0, words));
    let last = seq![encode_utf8("--"@), encode_utf8(request.executable)] + encoded_texts(
        request.arguments,
    );
    assert(arguments =~= first + docker_variable_arguments(request) + last);
    lemma_stands_within(first, docker_variable_arguments(request), last, 0, words);
}

/// Every authorized executable is put, for reading only, into one directory under the name by
/// which it is called.
pub proof fn authorized_executables_are_reachable(
    plan: PlanView,
    request: RequestView,
    index: int,
)
    requires
        0 <= index < request.docker_executables.len(),
    ensures
        ({
            let arguments = sandbox_arguments(plan, request);
            let executable = request.docker_executables[index];
            stand_among(
                plan,
                request,
                seq![
                    encode_utf8("--ro-bind"@),
                    executable.path,
                    joined_path(
                        encode_utf8("/tmp/cane-docker-bin"@),
                        encode_utf8(
                            if executable.name == DockerExecutableName::Docker {
                                "docker"@
                            } else {
                                "docker-compose"@
                            },
                        ),
                    ),
                ],
            )
        }),
{
    let parts = lemma_parts(plan, request);
    let executable = request.docker_executables[index];
    let words = seq![
        encode_utf8("--ro-bind"@),
        executable.path,
        joined_path(
            encode_utf8("/tmp/cane-docker-bin"@),
            encode_utf8(
                if executable.name == DockerExecutableName::Docker {
                    "docker"@
                } else {
                    "docker-compose"@
                },
            ),
        ),
    ];
    lemma_executables_stand(request.docker_executables, index);
    lemma_executables_length(request.docker_executables);
    let first = plan.arguments + socket_arguments(request.docker_endpoint) + docker_arguments(
        request.docker_executables,
    ).take(4);
    let middle = executable_arguments(request.docker_executables);
    let rest = docker_arguments(request.docker_executables).skip(4 + middle.len() as int) + seq![
        encode_utf8("--chdir"@),
        request.workdir,
    ] + variable_arguments(request.environment) + parts.1;
    assert(docker_arguments(request.docker_executables) =~= docker_arguments(
        request.docker_executables,
    ).take(4) + middle + docker_arguments(request.docker_executables).skip(
        4 + middle.len() as int,
    ));
    assert(sandbox_arguments(plan, request) =~= first + middle + rest);
    lemma_stands_within(first, middle, rest, 3 * index, words);
}

/// Where executables are authorized, their directory is made before they are put there, and comes
/// first on the `PATH` of the command, whose own directories stay behind it.
pub proof fn authorized_executables_are_found(plan: PlanView, request: RequestView)
    requires
        request.docker_executables.len() > 0,
    ensures
        ({
            let arguments = sandbox_arguments(plan, request);
            let variables = entries_map(request.environment);
            let path = if variables.contains_key("PATH"@) {
                "/tmp/cane-docker-bin:"@ + variables["PATH"@]
            } else {
                "/tmp/cane-docker-bin"@
            };
            let end = arguments.len() - request.arguments.len() - 2;
            &&& stand_at(
                arguments,
                plan.arguments.len() + (if request.docker_endpoint is Some {
                    3int
                } else {
                    0int
                }),
                seq![
                    encode_utf8("--dir"@),
                    encode_utf8("/tmp/cane-docker-bin"@),
                    encode_utf8("--dir"@),
                    encode_utf8("/tmp/cane-docker-config"@),
                ],
            )
            &&& stand_at(
                arguments,
                end - 6,
                seq![
                    encode_utf8("--setenv"@),
                    encode_utf8("PATH"@),
                    encode_utf8(path),
                    encode_utf8("--setenv"@),
                    encode_utf8("DOCKER_CONFIG"@),
                    encode_utf8("/tmp/cane-docker-config"@),
                ],
            )
        }),
{
    lemma_variables_length(request.environment);
    lemma_executables_length(request.docker_executables);
    let parts = lemma_parts(plan, request);
    assert(parts.1.len() == docker_variable_arguments(request).len() + 2 + request.arguments.len());
}

proof fn lemma_first_named(
    executables: Seq<DockerExecutableView>,
    name: DockerExecutableName,
    at: int,
    index: int,
)
    requires
        0 <= at <= index < executables.len(),
        executables[index].name == name,
        forall|i: int| at <= i < index ==> (#[trigger] executables[i]).name != name,
    ensures
        first_named(executables, name, at) == Some(executables[index]),
    decreases index - at,
{
    if at < index {
        assert(executables[at].name != name);
        lemma_first_named(executables, name, at + 1, index);
    }
}

/// Compose, where it is authorized, is also put where the Docker client looks for its plugins.
pub proof fn authorized_compose_is_a_plugin(plan: PlanView, request: RequestView, index: int)
    requires
        0 <= index < request.docker_executables.len(),
        request.docker_executables[index].name == DockerExecutableName::DockerCompose,
        forall|i: int|
            0 <= i < index ==> (#[trigger] request.docker_executables[i]).name
                == DockerExecutableName::Docker,
    ensures
        ({
            let arguments = sandbox_arguments(plan, request);
            stand_among(
                plan,
                request,
                seq![
                    encode_utf8("--dir"@),
                    encode_utf8("/tmp/cane-docker-config/cli-plugins"@),
                    encode_utf8("--ro-bind"@),
                    request.docker_executables[index].path,
                    joined_path(
                        encode_utf8("/tmp/cane-docker-config/cli-plugins"@),
                        encode_utf8("docker-compose"@),
                    ),
                ],
            )
        }),
{
    let executables = request.docker_executables;
    lemma_first_named(executables, DockerExecutableName::DockerCompose, 0, index);
    let parts = lemma_parts(plan, request);
    let words = seq![
        encode_utf8("--dir"@),
        encode_utf8("/tmp/cane-docker-config/cli-plugins"@),
        encode_utf8("--ro-bind"@),
        executables[index].path,
        joined_path(
            encode_utf8("/tmp/cane-docker-config/cli-plugins"@),
            encode_utf8("docker-compose"@),
        ),
    ];
    let start = docker_arguments(executables).len() - 5;
    let first = plan.arguments + socket_arguments(request.docker_endpoint) + docker_arguments(
        executables,
    ).take(start);
    let rest = seq![encode_utf8("--chdir"@), request.workdir] + variable_arguments(
        request.environment,
    ) + parts.1;
    assert(docker_arguments(executables) =~= docker_arguments(executables).take(start) + words);
    assert(sandbox_arguments(plan, request) =~= first + words + rest);
    assert(stand_at(words, 0, words));
    lemma_stands_within(first, words, rest, 0, words);
}

proof fn lemma_sound_variables(variables: Seq<(Seq<char>, Seq<char>)>)
    ensures
        variables_fault(variables) is None <==> forall|i: int|
            0 <= i < variables.len() ==> {
                &&& (#[trigger] variables[i]).0.len() > 0
                &&& !variables[i].0.contains('=')
                &&& !variables[i].0.contains('\0')
                &&& !variables[i].1.contains('\0')
            },
    decreases variables.len(),
{
    if variables.len() > 0 {
        let before = variables.drop_last();
        lemma_sound_variables(before);
        assert(variables[variables.len() - 1] == variables.last());
        if variables_fault(before) is None {
            assert forall|i: int| 0 <= i < before.len() implies {
                &&& (#[trigger] variables[i]).0.len() > 0
                &&& !variables[i].0.contains('=')
                &&& !variables[i].0.contains('\0')
                &&& !variables[i].1.contains('\0')
            } by {
                assert(before[i] == variables[i]);
            }
        } else {
            let i = choose|i: int|
                0 <= i < before.len() && !((#[trigger] before[i]).0.len() > 0
                    && !before[i].0.contains('=') && !before[i].0.contains('\0')
                    && !before[i].1.contains('\0'));
            assert(variables[i] == before[i]);
        }
    }
}

/// A request is started exactly where the host can start it: by an absolute path, with no NUL in
/// anything that is handed over, with variables that have names, with Docker only through an
/// endpoint, and in a directory of the workspace.
pub proof fn sound_requests_are_started(
    request: &CommandRequest,
    workspace: &HostPath,
    workdir: &Result<ResolvedDirectory, String>,
    outcome: Result<(), CommandExecutionError>,
)
    requires
        call_ensures(validate_request, (request, workspace, workdir), outcome),
    ensures
        outcome is Ok <==> {
            &&& is_absolute_path(encode_utf8(request@.executable))
            &&& !request@.executable.contains('\0')
            &&& forall|i: int|
                0 <= i < request@.arguments.len() ==> !(#[trigger] request@.arguments[i]).contains(
                    '\0',
                )
            &&& forall|i: int|
                0 <= i < request@.environment.len() ==> {
                    &&& (#[trigger] request@.environment[i]).0.len() > 0
                    &&& !request@.environment[i].0.contains('=')
                    &&& !request@.environment[i].0.contains('\0')
                    &&& !request@.environment[i].1.contains('\0')
                }
            &&& request@.docker_endpoint is Some || request@.docker_executables.len() == 0
            &&& workdir is Ok
            &&& workdir->Ok_0.is_directory
            &&& beneath(workdir->Ok_0.path@, workspace@)
        },
{
    lemma_sound_variables(request@.environment);
    if exists|i: int|
        0 <= i < request@.arguments.len() && holds_nul(#[trigger] request@.arguments[i]) {
        let i = choose|i: int|
            0 <= i < request@.arguments.len() && holds_nul(#[trigger] request@.arguments[i]);
        assert(request@.arguments[i].contains('\0'));
    } else {
        assert forall|i: int| 0 <= i < request@.arguments.len() implies !(
        #[trigger] request@.arguments[i]).contains('\0') by {
            assert(!holds_nul(request@.arguments[i]));
        }
    }
}

/// A sandboxed command is started by the launcher, which itself finds no variable and stands at
/// the root; a command on the host is started as it is, in its own directory.
pub proof fn launches_start_the_command(
    sandboxed: &BubblewrapExecutor,
    plain: &UnsafeExecutor,
    request: CommandRequest,
    workdir: &Result<ResolvedDirectory, String>,
    inside: Result<ProcessLaunch, CommandExecutionError>,
    outside: Result<ProcessLaunch, CommandExecutionError>,
)
    requires
        request.wf(),
        call_ensures(BubblewrapExecutor::prepare_process, (sandboxed, request, workdir), inside),
        call_ensures(UnsafeExecutor::prepare_process, (plain, request, workdir), outside),
    ensures
        inside matches Ok(launch) ==> {
            &&& launch.program@ == sandboxed@.launcher
            &&& launch.directory@ == encode_utf8("/"@)
            &&& launch.environment@.len() == 0
            &&& launch@.arguments == sandbox_arguments(sandboxed@.plan, request@)
        },
        outside matches Ok(launch) ==> {
            &&& launch.program@ == encode_utf8(request@.executable)
            &&& launch.directory@ == request@.workdir
            &&& launch@.arguments.len() == request@.arguments.len()
            &&& forall|i: int|
                0 <= i < request@.arguments.len() ==> #[trigger] launch@.arguments[i]
                    == encode_utf8(request@.arguments[i])
            &&& request@.docker_endpoint is None ==> launch.environment@ == request@.environment
            &&& request@.docker_endpoint matches Some(endpoint) ==> entries_map(
                launch.environment@,
            ) == entries_map(request@.environment).insert("DOCKER_HOST"@, endpoint.resource)
        },
        sandboxed@.workspace == plain@ ==> (inside is Ok <==> outside is Ok),
{
    if request@.docker_endpoint is Some {
        set_variables_are_found(
            request@.environment,
            "DOCKER_HOST"@,
            request@.docker_endpoint->0.resource,
        );
        assert(entries_map(host_variables(request@)) =~= entries_map(request@.environment).insert(
            "DOCKER_HOST"@,
            request@.docker_endpoint->0.resource,
        ));
    }
}

/// A sandbox is set up exactly where a Linux diagnosis with Bubblewrap found everything that is
/// required, and named the launcher and the policy; it runs with these.
pub proof fn sandboxes_need_a_diagnosis(
    report: &SandboxDiagnosticReport,
    outcome: Result<BubblewrapExecutor, CommandExecutionError>,
)
    requires
        call_ensures(BubblewrapExecutor::from_diagnostics, (report,), outcome),
    ensures
        outcome is Ok <==> {
            &&& report.platform@ == "linux"@
            &&& report.backend@ == "bubblewrap"@
            &&& all_required_passed(finding_views(report.findings@))
            &&& report.bubblewrap_path is Some
            &&& report.policy is Some
        },
        outcome matches Ok(executor) ==> executor@.launcher == report.bubblewrap_path->0@
            && executor@.workspace == report.policy->0@.workspace && executor@.plan == plan_of(
            report.policy->0@,
        ),
{
}

} // verus!
