//! Preparing a shell command: its environment, its time limit and where it runs.
use crate::command::classify::{classify_command, is_simple, CommandClassification};
use crate::command::docker::{
    executable_views, DockerEndpoint, DockerEndpointView, DockerExecutable, DockerExecutableView,
    DockerIntegration,
};
use crate::entries::entries_map;
use crate::environment::Environment;
use crate::path::{is_absolute_path, HostPath};
use crate::text::{decimal, holds, join, joined_texts, push_decimal, text_views, trim, trimmed_text};
use vstd::prelude::*;
use vstd::string::StringExecFns;
use vstd::utf8::encode_utf8;

verus! {

pub const DEFAULT_TIMEOUT_SECONDS: u64 = 600;

pub const MAX_TIMEOUT_SECONDS: u64 = 1800;

pub const MIN_TIMEOUT_SECONDS: u64 = 1;

/// Why a shell command cannot be prepared.
#[derive(Debug, PartialEq, Eq)]
pub enum ShellPreparationError {
    Environment { detail: String },
    Input { detail: String },
}

impl ShellPreparationError {
    /// The error in words.
    pub fn describe(&self) -> (words: String)
        ensures
            words@ == match self {
                ShellPreparationError::Environment { detail } => "invalid command environment: "@
                    + detail@,
                ShellPreparationError::Input { detail } => "invalid shell input: "@ + detail@,
            },
    {
        match self {
            ShellPreparationError::Environment { detail } =>
                "invalid command environment: ".to_owned().concat(detail.as_str()),
            ShellPreparationError::Input { detail } => "invalid shell input: ".to_owned().concat(
                detail.as_str(),
            ),
        }
    }
}

/// What commands find in their environment.
#[derive(Clone, Debug, PartialEq, Eq)]
pub struct CommandEnvironmentConfig {
    home: String,
    path: Vec<String>,
    temp_directory: String,
}

pub struct EnvironmentConfigView {
    pub home: Seq<char>,
    pub path: Seq<Seq<char>>,
    pub temp_directory: Seq<char>,
}

impl View for CommandEnvironmentConfig {
    type V = EnvironmentConfigView;

    closed spec fn view(&self) -> EnvironmentConfigView {
        EnvironmentConfigView {
            home: self.home@,
            path: text_views(self.path@),
            temp_directory: self.temp_directory@,
        }
    }
}

/// What is wrong with the value of a variable: it must not be empty or hold a NUL.
pub open spec fn value_fault(name: Seq<char>, value: Seq<char>) -> Option<Seq<char>> {
    if value.len() == 0 {
        Some(name + " must not be empty"@)
    } else if value.contains('\0') {
        Some(name + " must not contain a NUL byte"@)
    } else {
        None
    }
}

/// What is wrong with a directory of the `PATH`.
pub open spec fn path_entry_fault(entry: Seq<char>) -> Option<Seq<char>> {
    match value_fault("PATH entry"@, entry) {
        Some(detail) => Some(detail),
        None => if entry.contains(':') {
            Some("PATH entry `"@ + entry + "` must not contain `:`"@)
        } else {
            None
        },
    }
}

/// What is wrong with the first directory of the `PATH` with which something is wrong.
pub open spec fn path_entries_fault(entries: Seq<Seq<char>>) -> Option<Seq<char>>
    decreases entries.len(),
{
    if entries.len() == 0 {
        None
    } else {
        match path_entries_fault(entries.drop_last()) {
            Some(detail) => Some(detail),
            None => path_entry_fault(entries.last()),
        }
    }
}

/// The first thing that is wrong with an environment.
pub open spec fn environment_fault(config: EnvironmentConfigView) -> Option<Seq<char>> {
    match value_fault("home"@, config.home) {
        Some(detail) => Some(detail),
        None => match value_fault("temporary directory"@, config.temp_directory) {
            Some(detail) => Some(detail),
            None => if config.path.len() == 0 {
                Some("PATH must contain at least one directory"@)
            } else {
                path_entries_fault(config.path)
            },
        },
    }
}

/// The variables of an environment.
pub open spec fn base_variables(config: EnvironmentConfigView) -> Map<Seq<char>, Seq<char>> {
    Map::empty().insert("GIT_OPTIONAL_LOCKS"@, "0"@).insert("HOME"@, config.home).insert(
        "LANG"@,
        "C.UTF-8"@,
    ).insert("LC_ALL"@, "C.UTF-8"@).insert("NO_COLOR"@, "1"@).insert(
        "PATH"@,
        joined_texts(config.path, ":"@),
    ).insert("SHELL"@, "/bin/bash"@).insert("TERM"@, "dumb"@).insert(
        "TMPDIR"@,
        config.temp_directory,
    )
}

/// Whether `outcome` is free of the fault, or is the fault.
pub open spec fn environment_checked(
    outcome: Result<(), ShellPreparationError>,
    fault: Option<Seq<char>>,
) -> bool {
    match fault {
        None => outcome is Ok,
        Some(words) => outcome matches Err(ShellPreparationError::Environment { detail })
            && detail@ == words,
    }
}

fn validate_environment_value(name: &str, value: &str) -> (outcome: Result<
    (),
    ShellPreparationError,
>)
    ensures
        environment_checked(outcome, value_fault(name@, value@)),
{
    if value.is_empty() {
        return Err(
            ShellPreparationError::Environment {
                detail: name.to_owned().concat(" must not be empty"),
            },
        );
    }
    if holds(value, '\0') {
        return Err(
            ShellPreparationError::Environment {
                detail: name.to_owned().concat(" must not contain a NUL byte"),
            },
        );
    }
    Ok(())
}

fn validate_path_entry(entry: &str) -> (outcome: Result<(), ShellPreparationError>)
    ensures
        environment_checked(outcome, path_entry_fault(entry@)),
{
    match validate_environment_value("PATH entry", entry) {
        Err(error) => {
            return Err(error);
        },
        Ok(()) => {},
    }
    if holds(entry, ':') {
        return Err(
            ShellPreparationError::Environment {
                detail: "PATH entry `".to_owned().concat(entry).concat("` must not contain `:`"),
            },
        );
    }
    Ok(())
}

proof fn lemma_first_entry_fault_stays(entries: Seq<Seq<char>>, count: int)
    requires
        0 <= count <= entries.len(),
        path_entries_fault(entries.take(count)) is Some,
    ensures
        path_entries_fault(entries) == path_entries_fault(entries.take(count)),
    decreases entries.len(),
{
    if count == entries.len() {
        assert(entries.take(count) =~= entries);
    } else {
        assert(entries.drop_last().take(count) =~= entries.take(count));
        lemma_first_entry_fault_stays(entries.drop_last(), count);
    }
}

impl CommandEnvironmentConfig {
    /// Accepts an environment in which nothing is wrong.
    pub fn new(home: &str, path: Vec<String>, temp_directory: &str) -> (outcome: Result<
        Self,
        ShellPreparationError,
    >)
        ensures
            ({
                let view = EnvironmentConfigView {
                    home: home@,
                    path: text_views(path@),
                    temp_directory: temp_directory@,
                };
                match environment_fault(view) {
                    None => outcome is Ok && outcome->Ok_0@ == view,
                    Some(words) => outcome matches Err(
                        ShellPreparationError::Environment { detail },
                    ) && detail@ == words,
                }
            }),
    {
        let config = CommandEnvironmentConfig {
            home: home.to_owned(),
            path,
            temp_directory: temp_directory.to_owned(),
        };
        match config.validate() {
            Err(error) => Err(error),
            Ok(()) => Ok(config),
        }
    }

    fn validate(&self) -> (outcome: Result<(), ShellPreparationError>)
        ensures
            environment_checked(outcome, environment_fault(self@)),
    {
        match validate_environment_value("home", self.home.as_str()) {
            Err(error) => {
                return Err(error);
            },
            Ok(()) => {},
        }
        match validate_environment_value("temporary directory", self.temp_directory.as_str()) {
            Err(error) => {
                return Err(error);
            },
            Ok(()) => {},
        }
        if self.path.len() == 0 {
            return Err(
                ShellPreparationError::Environment {
                    detail: "PATH must contain at least one directory".to_owned(),
                },
            );
        }
        let ghost entries = text_views(self.path@);
        let mut index: usize = 0;
        assert(entries.take(0) =~= Seq::empty());
        while index < self.path.len()
            invariant
                index <= self.path@.len(),
                entries == text_views(self.path@),
                path_entries_fault(entries.take(index as int)) is None,
                value_fault("home"@, self@.home) is None,
                value_fault("temporary directory"@, self@.temp_directory) is None,
                self.path@.len() > 0,
            decreases self.path.len() - index,
        {
            proof {
                let here = entries.take(index + 1);
                assert(here.drop_last() =~= entries.take(index as int));
                assert(here.last() == self.path@[index as int]@);
                if path_entries_fault(here) is Some {
                    lemma_first_entry_fault_stays(entries, index + 1);
                }
            }
            match validate_path_entry(self.path[index].as_str()) {
                Err(error) => {
                    return Err(error);
                },
                Ok(()) => {},
            }
            index += 1;
        }
        assert(entries.take(entries.len() as int) =~= entries);
        Ok(())
    }

    /// The variables that every command finds.
    pub fn environment(&self) -> (environment: Environment)
        ensures
            environment.wf(),
            entries_map(environment@) == base_variables(self@),
    {
        let mut environment = Environment::new();
        environment.insert("GIT_OPTIONAL_LOCKS", "0");
        environment.insert("HOME", self.home.as_str());
        environment.insert("LANG", "C.UTF-8");
        environment.insert("LC_ALL", "C.UTF-8");
        environment.insert("NO_COLOR", "1");
        environment.insert("PATH", join(&self.path, ":").as_str());
        environment.insert("SHELL", "/bin/bash");
        environment.insert("TERM", "dumb");
        environment.insert("TMPDIR", self.temp_directory.as_str());
        environment
    }
}

/// A command that is ready to be run.
#[derive(Clone, Debug, PartialEq, Eq)]
pub struct CommandRequest {
    pub arguments: Vec<String>,
    pub docker_endpoint: Option<DockerEndpoint>,
    pub docker_executables: Vec<DockerExecutable>,
    pub environment: Environment,
    pub executable: String,
    pub workdir: HostPath,
}

pub struct RequestView {
    pub arguments: Seq<Seq<char>>,
    pub docker_endpoint: Option<DockerEndpointView>,
    pub docker_executables: Seq<DockerExecutableView>,
    pub environment: Seq<(Seq<char>, Seq<char>)>,
    pub executable: Seq<char>,
    pub workdir: Seq<u8>,
}

pub open spec fn endpoint_view(endpoint: Option<DockerEndpoint>) -> Option<DockerEndpointView> {
    match endpoint {
        None => None,
        Some(endpoint) => Some(endpoint@),
    }
}

impl View for CommandRequest {
    type V = RequestView;

    open spec fn view(&self) -> RequestView {
        RequestView {
            arguments: text_views(self.arguments@),
            docker_endpoint: endpoint_view(self.docker_endpoint),
            docker_executables: executable_views(self.docker_executables@),
            environment: self.environment@,
            executable: self.executable@,
            workdir: self.workdir@,
        }
    }
}

impl CommandRequest {
    pub open spec fn wf(self) -> bool {
        self.environment.wf()
    }
}

/// A shell command, what kind it is, and how it will be run.
#[derive(Clone, Debug, PartialEq, Eq)]
pub struct PreparedShellCommand {
    classification: CommandClassification,
    command: String,
    request: CommandRequest,
    timeout: u64,
}

impl PreparedShellCommand {
    pub closed spec fn spec_classification(self) -> CommandClassification {
        self.classification
    }

    pub closed spec fn spec_command(self) -> Seq<char> {
        self.command@
    }

    pub closed spec fn spec_request(self) -> CommandRequest {
        self.request
    }

    pub closed spec fn spec_timeout(self) -> u64 {
        self.timeout
    }

    /// Lets the command talk to Docker: it sees the endpoint and the executables of the
    /// integration, and nothing else of it changes.
    pub fn authorize_docker(&mut self, integration: &DockerIntegration)
        ensures
            final(self).spec_classification() == old(self).spec_classification(),
            final(self).spec_command() == old(self).spec_command(),
            final(self).spec_timeout() == old(self).spec_timeout(),
            final(self).spec_request()@ == (RequestView {
                docker_endpoint: Some(integration@.endpoint),
                docker_executables: integration@.executables,
                ..old(self).spec_request()@
            }),
            old(self).spec_request().wf() ==> final(self).spec_request().wf(),
    {
        self.request.docker_endpoint = Some(integration.endpoint().clone());
        self.request.docker_executables = clone_executables(integration.executables());
    }

    pub fn classification(&self) -> (classification: &CommandClassification)
        ensures
            *classification == self.spec_classification(),
    {
        &self.classification
    }

    pub fn command(&self) -> (command: &str)
        ensures
            command@ == self.spec_command(),
    {
        self.command.as_str()
    }

    pub fn into_request(self) -> (request: CommandRequest)
        ensures
            request == self.spec_request(),
    {
        self.request
    }

    pub fn request(&self) -> (request: &CommandRequest)
        ensures
            *request == self.spec_request(),
    {
        &self.request
    }

    /// How many seconds the command may take.
    pub fn timeout(&self) -> (seconds: u64)
        ensures
            seconds == self.spec_timeout(),
    {
        self.timeout
    }
}

fn clone_executables(executables: &[DockerExecutable]) -> (copy: Vec<DockerExecutable>)
    ensures
        executable_views(copy@) == executable_views(executables@),
{
    let mut copy: Vec<DockerExecutable> = Vec::new();
    let mut index: usize = 0;
    while index < executables.len()
        invariant
            index <= executables@.len(),
            copy@.len() == index,
            forall|i: int| 0 <= i < index ==> (#[trigger] copy@[i])@ == executables@[i]@,
        decreases executables.len() - index,
    {
        copy.push(executables[index].clone());
        index += 1;
    }
    assert(executable_views(copy@) =~= executable_views(executables@));
    copy
}

/// What the model asks a shell to do.
#[derive(Debug, PartialEq, Eq)]
pub struct ShellInput {
    pub command: String,
    pub timeout_seconds: Option<u64>,
    pub workdir: Option<String>,
}

/// What a working directory resolves to within the workspace.
#[derive(Debug, PartialEq, Eq)]
pub struct WorkdirResolution {
    pub is_directory: bool,
    pub path: Result<HostPath, String>,
}

pub open spec fn chosen_timeout(timeout_seconds: Option<u64>) -> u64 {
    match timeout_seconds {
        Some(seconds) => seconds,
        None => DEFAULT_TIMEOUT_SECONDS,
    }
}

/// Where a command runs: the workspace itself, or a directory in it.
pub open spec fn chosen_workdir(
    workdir: Option<String>,
    root: Seq<u8>,
    resolution: WorkdirResolution,
) -> Result<Seq<u8>, Seq<char>> {
    match workdir {
        None => Ok(root),
        Some(workdir) => if is_absolute_path(encode_utf8(workdir@)) {
            Err("workdir must be relative to the workspace"@)
        } else {
            match resolution.path {
                Err(detail) => Err("invalid workdir: "@ + detail@),
                Ok(path) => if resolution.is_directory {
                    Ok(path@)
                } else {
                    Err("workdir `"@ + workdir@ + "` is not a directory"@)
                },
            }
        },
    }
}

/// What is wrong with what the model asks for, if anything is.
pub open spec fn input_fault(
    input: ShellInput,
    root: Seq<u8>,
    resolution: WorkdirResolution,
) -> Option<Seq<char>> {
    if trimmed_text(input.command@).len() == 0 {
        Some("command must not be empty"@)
    } else if !(MIN_TIMEOUT_SECONDS <= chosen_timeout(input.timeout_seconds)
        <= MAX_TIMEOUT_SECONDS) {
        Some(
            "timeout_seconds must be between "@ + decimal(MIN_TIMEOUT_SECONDS as nat) + " and "@
                + decimal(MAX_TIMEOUT_SECONDS as nat),
        )
    } else {
        match chosen_workdir(input.workdir, root, resolution) {
            Err(detail) => Some(detail),
            Ok(_) => None,
        }
    }
}

fn resolve_workdir(
    workdir: &Option<String>,
    root: &HostPath,
    resolution: WorkdirResolution,
) -> (outcome: Result<HostPath, ShellPreparationError>)
    ensures
        match chosen_workdir(*workdir, root@, resolution) {
            Ok(path) => outcome is Ok && outcome->Ok_0@ == path,
            Err(words) => outcome matches Err(ShellPreparationError::Input { detail }) && detail@
                == words,
        },
{
    let workdir = match workdir {
        None => {
            return Ok(root.clone());
        },
        Some(workdir) => workdir,
    };
    if HostPath::from_text(workdir.as_str()).is_absolute() {
        return Err(
            ShellPreparationError::Input {
                detail: "workdir must be relative to the workspace".to_owned(),
            },
        );
    }
    match resolution.path {
        Err(detail) => Err(
            ShellPreparationError::Input {
                detail: "invalid workdir: ".to_owned().concat(detail.as_str()),
            },
        ),
        Ok(path) => if resolution.is_directory {
            Ok(path)
        } else {
            Err(
                ShellPreparationError::Input {
                    detail: "workdir `".to_owned().concat(workdir.as_str()).concat(
                        "` is not a directory",
                    ),
                },
            )
        },
    }
}

/// The arguments with which the shell is given a command, without reading any startup file.
pub open spec fn shell_arguments(command: Seq<char>) -> Seq<Seq<char>> {
    seq!["--noprofile"@, "--norc"@, "-c"@, command]
}

/// Prepares a shell command: nonempty, within the time limits, and in a directory of the
/// workspace. `resolution` is what the asked-for directory resolves to.
pub fn prepare_shell_command(
    environment: &CommandEnvironmentConfig,
    input: ShellInput,
    root: &HostPath,
    resolution: WorkdirResolution,
) -> (outcome: Result<PreparedShellCommand, ShellPreparationError>)
    ensures
        match input_fault(input, root@, resolution) {
            Some(words) => outcome matches Err(ShellPreparationError::Input { detail }) && detail@
                == words,
            None => outcome is Ok && {
                let prepared = outcome->Ok_0;
                let request = prepared.spec_request();
                &&& prepared.spec_command() == input.command@
                &&& prepared.spec_timeout() == chosen_timeout(input.timeout_seconds)
                &&& prepared.spec_classification().wf()
                &&& match prepared.spec_classification() {
                    CommandClassification::Simple(simple) => is_simple(
                        input.command@,
                        text_views(simple.words@),
                        simple.executable_index as int,
                    ),
                    CommandClassification::Complex => forall|words: Seq<Seq<char>>, at: int|
                        !is_simple(input.command@, words, at),
                }
                &&& request.wf()
                &&& request@.arguments == shell_arguments(input.command@)
                &&& request@.docker_endpoint is None
                &&& request@.docker_executables.len() == 0
                &&& entries_map(request@.environment) == base_variables(environment@)
                &&& request@.executable == "/bin/bash"@
                &&& Ok::<Seq<u8>, Seq<char>>(request@.workdir) == chosen_workdir(
                    input.workdir,
                    root@,
                    resolution,
                )
            },
        },
{
    if trim(input.command.as_str()).as_str().is_empty() {
        return Err(
            ShellPreparationError::Input { detail: "command must not be empty".to_owned() },
        );
    }
    let timeout_seconds = match input.timeout_seconds {
        Some(seconds) => seconds,
        None => DEFAULT_TIMEOUT_SECONDS,
    };
    if timeout_seconds < MIN_TIMEOUT_SECONDS || timeout_seconds > MAX_TIMEOUT_SECONDS {
        let mut detail = "timeout_seconds must be between ".to_owned();
        push_decimal(&mut detail, MIN_TIMEOUT_SECONDS);
        detail.append(" and ");
        push_decimal(&mut detail, MAX_TIMEOUT_SECONDS);
        return Err(ShellPreparationError::Input { detail });
    }
    let workdir = match resolve_workdir(&input.workdir, root, resolution) {
        Err(error) => {
            return Err(error);
        },
        Ok(workdir) => workdir,
    };
    let command = input.command;
    let classification = classify_command(command.as_str());
    let mut arguments: Vec<String> = Vec::new();
    arguments.push("--noprofile".to_owned());
    arguments.push("--norc".to_owned());
    arguments.push("-c".to_owned());
    arguments.push(command.clone());
    assert(text_views(arguments@) =~= shell_arguments(command@));
    let request = CommandRequest {
        arguments,
        docker_endpoint: None,
        docker_executables: Vec::new(),
        environment: environment.environment(),
        executable: "/bin/bash".to_owned(),
        workdir,
    };
    Ok(PreparedShellCommand { classification, command, request, timeout: timeout_seconds })
}

/// A command is prepared exactly where it holds more than white space, has from one second to
/// half an hour, and is to run in the workspace or in a directory that it names relative to it.
/// It is handed to Bash as it stands, with no startup file, ten minutes where it names no time,
/// and no Docker.
pub proof fn commands_are_handed_to_bash(
    environment: &CommandEnvironmentConfig,
    input: ShellInput,
    root: &HostPath,
    resolution: WorkdirResolution,
    outcome: Result<PreparedShellCommand, ShellPreparationError>,
)
    requires
        call_ensures(
            prepare_shell_command,
            (environment, input, root, resolution),
            outcome,
        ),
    ensures
        outcome is Ok <==> {
            &&& trimmed_text(input.command@).len() > 0
            &&& input.timeout_seconds matches Some(seconds) ==> 1 <= seconds <= 1800
            &&& input.workdir matches Some(workdir) ==> !is_absolute_path(encode_utf8(workdir@))
                && resolution.path is Ok && resolution.is_directory
        },
        outcome matches Ok(prepared) ==> {
            let request = prepared.spec_request()@;
            &&& prepared.spec_command() == input.command@
            &&& prepared.spec_timeout() == match input.timeout_seconds {
                Some(seconds) => seconds,
                None => 600u64,
            }
            &&& request.executable == "/bin/bash"@
            &&& request.arguments.len() == 4
            &&& request.arguments[0] == "--noprofile"@
            &&& request.arguments[1] == "--norc"@
            &&& request.arguments[2] == "-c"@
            &&& request.arguments[3] == input.command@
            &&& request.docker_endpoint is None
            &&& request.docker_executables.len() == 0
            &&& input.workdir is None ==> request.workdir == root@
            &&& input.workdir is Some ==> request.workdir == resolution.path->Ok_0@
        },
{
}

/// A refused command is told what is wrong: that it is empty before anything else, then its time,
/// then its directory.
pub proof fn refused_commands_are_told_why(
    environment: &CommandEnvironmentConfig,
    input: ShellInput,
    root: &HostPath,
    resolution: WorkdirResolution,
    outcome: Result<PreparedShellCommand, ShellPreparationError>,
)
    requires
        call_ensures(
            prepare_shell_command,
            (environment, input, root, resolution),
            outcome,
        ),
        outcome is Err,
    ensures
        outcome matches Err(ShellPreparationError::Input { detail }) && {
            let blank = trimmed_text(input.command@).len() == 0;
            let untimely = input.timeout_seconds matches Some(seconds) && !(1 <= seconds <= 1800);
            &&& blank ==> detail@ == "command must not be empty"@
            &&& !blank && untimely ==> detail@ == "timeout_seconds must be between "@ + decimal(1)
                + " and "@ + decimal(1800)
            &&& !blank && !untimely ==> {
                let workdir = input.workdir->0@;
                &&& is_absolute_path(encode_utf8(workdir)) ==> detail@
                    == "workdir must be relative to the workspace"@
                &&& !is_absolute_path(encode_utf8(workdir)) && resolution.path is Err ==> detail@
                    == "invalid workdir: "@ + resolution.path->Err_0@
                &&& !is_absolute_path(encode_utf8(workdir)) && resolution.path is Ok ==> detail@
                    == "workdir `"@ + workdir + "` is not a directory"@
            }
        },
{
}

proof fn lemma_names_differ()
    ensures
        "GIT_OPTIONAL_LOCKS"@.len() == 18,
        "HOME"@.len() == 4,
        "LANG"@.len() == 4,
        "LC_ALL"@.len() == 6,
        "NO_COLOR"@.len() == 8,
        "PATH"@.len() == 4,
        "SHELL"@.len() == 5,
        "TERM"@.len() == 4,
        "TMPDIR"@.len() == 6,
        "HOME"@[0] == 'H',
        "LANG"@[0] == 'L',
        "LC_ALL"@[0] == 'L',
        "PATH"@[0] == 'P',
        "TERM"@[0] == 'T',
        "TMPDIR"@[0] == 'T',
{
    reveal_strlit("GIT_OPTIONAL_LOCKS");
    reveal_strlit("HOME");
    reveal_strlit("LANG");
    reveal_strlit("LC_ALL");
    reveal_strlit("NO_COLOR");
    reveal_strlit("PATH");
    reveal_strlit("SHELL");
    reveal_strlit("TERM");
    reveal_strlit("TMPDIR");
}

/// A prepared command finds its home, its temporary directory and the directories of its `PATH`
/// as they were configured, an ordinary locale, a terminal that can do nothing, and no variable
/// besides.
pub proof fn commands_find_their_environment(
    environment: &CommandEnvironmentConfig,
    input: ShellInput,
    root: &HostPath,
    resolution: WorkdirResolution,
    outcome: Result<PreparedShellCommand, ShellPreparationError>,
)
    requires
        call_ensures(
            prepare_shell_command,
            (environment, input, root, resolution),
            outcome,
        ),
        outcome is Ok,
    ensures
        ({
            let variables = entries_map(outcome->Ok_0.spec_request()@.environment);
            &&& variables.dom() == set![
                "GIT_OPTIONAL_LOCKS"@,
                "HOME"@,
                "LANG"@,
                "LC_ALL"@,
                "NO_COLOR"@,
                "PATH"@,
                "SHELL"@,
                "TERM"@,
                "TMPDIR"@,
            ]
            &&& variables["GIT_OPTIONAL_LOCKS"@] == "0"@
            &&& variables["HOME"@] == environment@.home
            &&& variables["LANG"@] == "C.UTF-8"@
            &&& variables["LC_ALL"@] == "C.UTF-8"@
            &&& variables["NO_COLOR"@] == "1"@
            &&& variables["PATH"@] == joined_texts(environment@.path, ":"@)
            &&& variables["SHELL"@] == "/bin/bash"@
            &&& variables["TERM"@] == "dumb"@
            &&& variables["TMPDIR"@] == environment@.temp_directory
        }),
{
    lemma_names_differ();
    let variables = entries_map(outcome->Ok_0.spec_request()@.environment);
    assert(variables == base_variables(environment@));
    assert(variables.dom() =~= set![
        "GIT_OPTIONAL_LOCKS"@,
        "HOME"@,
        "LANG"@,
        "LC_ALL"@,
        "NO_COLOR"@,
        "PATH"@,
        "SHELL"@,
        "TERM"@,
        "TMPDIR"@,
    ]);
}

/// Whether something can stand in an environment: it is there, and holds no NUL.
pub open spec fn is_usable(value: Seq<char>) -> bool {
    value.len() > 0 && forall|i: int| 0 <= i < value.len() ==> #[trigger] value[i] != '\0'
}

proof fn lemma_usable(name: Seq<char>, value: Seq<char>)
    ensures
        value_fault(name, value) is None <==> is_usable(value),
{
    if value.contains('\0') {
        let i = choose|i: int| 0 <= i < value.len() && value[i] == '\0';
        assert(value[i] == '\0');
    }
}

proof fn lemma_usable_entries(entries: Seq<Seq<char>>)
    ensures
        path_entries_fault(entries) is None <==> forall|i: int|
            0 <= i < entries.len() ==> is_usable(#[trigger] entries[i]) && !entries[i].contains(':'),
    decreases entries.len(),
{
    if entries.len() > 0 {
        let before = entries.drop_last();
        lemma_usable_entries(before);
        lemma_usable("PATH entry"@, entries.last());
        if path_entries_fault(entries) is None {
            assert forall|i: int| 0 <= i < entries.len() implies is_usable(#[trigger] entries[i])
                && !entries[i].contains(':') by {
                if i < before.len() {
                    assert(before[i] == entries[i]);
                }
            }
        } else {
            if path_entries_fault(before) is Some {
                let i = choose|i: int|
                    0 <= i < before.len() && !(is_usable(#[trigger] before[i]) && !before[i].contains(
                        ':',
                    ));
                assert(entries[i] == before[i]);
            } else {
                assert(entries[entries.len() - 1] == entries.last());
            }
        }
    }
}

/// An environment is accepted exactly where its home, its temporary directory and at least one
/// directory of the `PATH` are there, none holds a NUL, and no directory holds the colon that
/// parts the `PATH`. What is accepted is kept as it is.
pub proof fn usable_environments_are_accepted(
    home: &str,
    path: Vec<String>,
    temp_directory: &str,
    outcome: Result<CommandEnvironmentConfig, ShellPreparationError>,
)
    requires
        call_ensures(CommandEnvironmentConfig::new, (home, path, temp_directory), outcome),
    ensures
        outcome is Ok <==> {
            &&& is_usable(home@)
            &&& is_usable(temp_directory@)
            &&& path@.len() > 0
            &&& forall|i: int|
                0 <= i < path@.len() ==> is_usable((#[trigger] path@[i])@) && !path@[i]@.contains(
                    ':',
                )
        },
        outcome matches Ok(config) ==> config@.home == home@ && config@.temp_directory
            == temp_directory@ && config@.path == text_views(path@),
{
    lemma_usable("home"@, home@);
    lemma_usable("temporary directory"@, temp_directory@);
    let entries = text_views(path@);
    lemma_usable_entries(entries);
    if outcome is Ok {
        assert forall|i: int| 0 <= i < path@.len() implies is_usable((#[trigger] path@[i])@)
            && !path@[i]@.contains(':') by {
            assert(entries[i] == path@[i]@);
        }
    } else if is_usable(home@) && is_usable(temp_directory@) && path@.len() > 0 {
        let i = choose|i: int|
            0 <= i < entries.len() && !(is_usable(#[trigger] entries[i]) && !entries[i].contains(
                ':',
            ));
        assert(entries[i] == path@[i]@);
    }
}

} // verus!
