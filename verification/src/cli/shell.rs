//! How the shell of a session is set up.
use crate::cli::options::CliShellMode;
use crate::command::diagnostics::{report_lines, SandboxDiagnosticReport};
use crate::command::executor::{
    diagnosed_executor, establish_bubblewrap_executor, yields_executor, BubblewrapExecutor,
    UnsafeExecutor,
};
use crate::command::linux::diagnosis::{
    diagnoses, optional_text, LinuxHostFacts, SandboxDiagnosticInput, PROBE_CAPABILITY_COUNT,
};
use crate::command::policy::CommandSandboxPolicy;
use crate::command::request::{environment_fault, CommandEnvironmentConfig, EnvironmentConfigView};
use crate::path::{path_views, HostPath};
use crate::text::{readable, text_views};
use vstd::prelude::*;
use vstd::string::StringExecFns;
use vstd::utf8::{decode_utf8, encode_utf8, encode_utf8_decode_utf8, valid_utf8};

verus! {

/// What is said of a path that is not text.
pub open spec fn not_text(name: Seq<char>, path: Seq<u8>) -> Seq<char> {
    name + " is not valid UTF-8: '"@ + readable(path) + "'"@
}

pub fn utf8_path(path: &HostPath, name: &str) -> (text: Result<String, String>)
    ensures
        match text {
            Ok(text) => valid_utf8(path@) && text@ == decode_utf8(path@),
            Err(words) => !valid_utf8(path@) && words@ == not_text(name@, path@),
        },
{
    match path.to_text() {
        Some(text) => Ok(text),
        None => Err(
            name.to_owned().concat(" is not valid UTF-8: '").concat(
                path.display().as_str(),
            ).concat("'"),
        ),
    }
}

/// The first entry of a search path that is not text.
pub open spec fn entry_not_text(entries: Seq<Seq<u8>>) -> Option<Seq<u8>>
    decreases entries.len(),
{
    if entries.len() == 0 {
        None
    } else {
        match entry_not_text(entries.drop_last()) {
            Some(entry) => Some(entry),
            None => if valid_utf8(entries.last()) {
                None
            } else {
                Some(entries.last())
            },
        }
    }
}

pub open spec fn decoded_entries(entries: Seq<Seq<u8>>) -> Seq<Seq<char>> {
    entries.map_values(|entry: Seq<u8>| decode_utf8(entry))
}

/// The environment of commands, from paths that have to be text.
pub open spec fn environment_of(
    home: Seq<u8>,
    path: Seq<Seq<u8>>,
    temp_directory: Seq<u8>,
) -> Result<EnvironmentConfigView, Seq<char>> {
    if !valid_utf8(home) {
        Err(not_text("command HOME"@, home))
    } else if !valid_utf8(temp_directory) {
        Err(not_text("command TMPDIR"@, temp_directory))
    } else {
        match entry_not_text(path) {
            Some(entry) => Err(not_text("command PATH entry"@, entry)),
            None => {
                let config = EnvironmentConfigView {
                    home: decode_utf8(home),
                    path: decoded_entries(path),
                    temp_directory: decode_utf8(temp_directory),
                };
                match environment_fault(config) {
                    Some(detail) => Err("invalid command environment: "@ + detail),
                    None => Ok(config),
                }
            },
        }
    }
}

proof fn lemma_first_not_text_stays(entries: Seq<Seq<u8>>, count: int)
    requires
        0 <= count <= entries.len(),
        entry_not_text(entries.take(count)) is Some,
    ensures
        entry_not_text(entries) == entry_not_text(entries.take(count)),
    decreases entries.len(),
{
    if count == entries.len() {
        assert(entries.take(count) =~= entries);
    } else {
        assert(entries.drop_last().take(count) =~= entries.take(count));
        lemma_first_not_text_stays(entries.drop_last(), count);
    }
}

pub fn command_environment(
    home: &HostPath,
    path: &[HostPath],
    temp_directory: &HostPath,
) -> (outcome: Result<CommandEnvironmentConfig, String>)
    ensures
        match environment_of(home@, path_views(path@), temp_directory@) {
            Ok(config) => outcome is Ok && outcome->Ok_0@ == config,
            Err(words) => outcome is Err && outcome->Err_0@ == words,
        },
{
    let home_text = match utf8_path(home, "command HOME") {
        Err(words) => {
            return Err(words);
        },
        Ok(text) => text,
    };
    let temp_text = match utf8_path(temp_directory, "command TMPDIR") {
        Err(words) => {
            return Err(words);
        },
        Ok(text) => text,
    };
    let ghost entries = path_views(path@);
    let mut texts: Vec<String> = Vec::new();
    let mut index: usize = 0;
    assert(entries.take(0) =~= Seq::empty());
    assert(text_views(texts@) =~= decoded_entries(entries.take(0)));
    while index < path.len()
        invariant
            index <= path@.len(),
            entries == path_views(path@),
            entry_not_text(entries.take(index as int)) is None,
            text_views(texts@) == decoded_entries(entries.take(index as int)),
            valid_utf8(home@),
            valid_utf8(temp_directory@),
        decreases path@.len() - index,
    {
        let ghost here = entries.take(index + 1);
        assert(here.drop_last() =~= entries.take(index as int));
        assert(here.last() == path@[index as int]@);
        match utf8_path(&path[index], "command PATH entry") {
            Err(words) => {
                proof {
                    lemma_first_not_text_stays(entries, index + 1);
                }
                return Err(words);
            },
            Ok(text) => {
                let ghost before = text_views(texts@);
                texts.push(text);
                assert(text_views(texts@) =~= before.push(text@));
                assert(decoded_entries(here) =~= before.push(decode_utf8(here.last())));
            },
        }
        index += 1;
    }
    assert(entries.take(index as int) =~= entries);
    match CommandEnvironmentConfig::new(home_text.as_str(), texts, temp_text.as_str()) {
        Err(error) => Err(error.describe()),
        Ok(config) => Ok(config),
    }
}

/// What it takes to set the shell up in each mode.
pub enum ShellSetup {
    Disabled,
    Sandboxed { facts: LinuxHostFacts, input: SandboxDiagnosticInput },
    Unsafe { visible_path: Vec<HostPath>, workspace: HostPath },
    /// Any mode, on a platform other than Linux.
    Elsewhere { mode: CliShellMode },
}

/// The shell of a session.
pub enum ShellConfiguration {
    Disabled,
    Sandboxed {
        environment: CommandEnvironmentConfig,
        executor: BubblewrapExecutor,
        policy: CommandSandboxPolicy,
        version: Option<String>,
    },
    Unsafe { environment: CommandEnvironmentConfig, executor: UnsafeExecutor },
}

/// What is said when the sandbox cannot be used: the report, and what may be done about it.
pub open spec fn closed_text(report: SandboxDiagnosticReport) -> Seq<char> {
    "sandboxed shell startup failed closed:\n"@ + report_lines(report)
        + "\nRun `cane --doctor` for the same capability report, use `--no-shell` to start without command execution, or explicitly accept host access with `--unsafe-shell`."@
}

/// Whether `outcome` is what a diagnosis comes to: a sandboxed shell where it yields an executor,
/// and else the reason why there is none.
pub open spec fn sandboxed_outcome(
    report: SandboxDiagnosticReport,
    outcome: Result<ShellConfiguration, String>,
) -> bool {
    if !yields_executor(report) {
        outcome is Err && outcome->Err_0@ == closed_text(report)
    } else {
        let policy = report.policy->0@;
        match environment_of(policy.private_home, policy.executable_path, policy.private_temp) {
            Err(words) => outcome is Err && outcome->Err_0@ == words,
            Ok(config) => match outcome {
                Ok(ShellConfiguration::Sandboxed { environment, executor, policy, version }) => {
                    &&& environment@ == config
                    &&& executor@ == diagnosed_executor(report)
                    &&& policy@ == report.policy->0@
                    &&& optional_text(version) == optional_text(report.bubblewrap_version)
                },
                _ => false,
            },
        }
    }
}

/// The report that comes with an executor or in its place.
pub open spec fn reported(
    established: Result<(BubblewrapExecutor, SandboxDiagnosticReport), SandboxDiagnosticReport>,
) -> SandboxDiagnosticReport {
    match established {
        Ok((_, report)) => report,
        Err(report) => report,
    }
}

fn configure_sandboxed(established: Result<
    (BubblewrapExecutor, SandboxDiagnosticReport),
    SandboxDiagnosticReport,
>) -> (outcome: Result<ShellConfiguration, String>)
    requires
        match established {
            Ok((executor, report)) => yields_executor(report) && executor@ == diagnosed_executor(
                report,
            ),
            Err(report) => !yields_executor(report),
        },
    ensures
        sandboxed_outcome(reported(established), outcome),
{
    match established {
        Err(report) => Err(
            "sandboxed shell startup failed closed:\n".to_owned().concat(
                report.render().as_str(),
            ).concat(
                "\nRun `cane --doctor` for the same capability report, use `--no-shell` to start without command execution, or explicitly accept host access with `--unsafe-shell`.",
            ),
        ),
        Ok((executor, report)) => match report.policy {
            None => Err(
                "successful sandbox diagnostics did not produce a command policy".to_owned(),
            ),
            Some(policy) => match command_environment(
                policy.private_home(),
                policy.executable_path(),
                policy.private_temp(),
            ) {
                Err(words) => Err(words),
                Ok(environment) => Ok(
                    ShellConfiguration::Sandboxed {
                        environment,
                        executor,
                        policy,
                        version: report.bubblewrap_version,
                    },
                ),
            },
        },
    }
}

/// Sets the shell up. A sandbox that cannot be used is an error, and no other mode takes its
/// place.
pub fn configure_shell(setup: ShellSetup) -> (outcome: Result<ShellConfiguration, String>)
    requires
        match setup {
            ShellSetup::Sandboxed { facts, .. } => facts.launcher is Ok
                ==> facts.capability_probes@.len() == PROBE_CAPABILITY_COUNT,
            _ => true,
        },
    ensures
        match setup {
            ShellSetup::Disabled => outcome is Ok && outcome->Ok_0 is Disabled,
            ShellSetup::Sandboxed { facts, input } => exists|report: SandboxDiagnosticReport|
                #[trigger] diagnoses(report, input, facts) && sandboxed_outcome(report, outcome),
            ShellSetup::Unsafe { visible_path, workspace } => match environment_of(
                encode_utf8("/tmp"@),
                path_views(visible_path@),
                encode_utf8("/tmp"@),
            ) {
                Err(words) => outcome is Err && outcome->Err_0@ == words,
                Ok(config) => match outcome {
                    Ok(ShellConfiguration::Unsafe { environment, executor }) => environment@
                        == config && executor@ == workspace@,
                    _ => false,
                },
            },
            ShellSetup::Elsewhere { mode } => if mode == CliShellMode::Disabled {
                outcome is Ok && outcome->Ok_0 is Disabled
            } else {
                outcome is Err && outcome->Err_0@
                    == "shell execution is currently supported only on Linux; use `--no-shell`"@
            },
        },
{
    match setup {
        ShellSetup::Disabled => Ok(ShellConfiguration::Disabled),
        ShellSetup::Sandboxed { facts, input } => {
            let established = establish_bubblewrap_executor(input, facts);
            let ghost report = reported(established);
            let outcome = configure_sandboxed(established);
            proof {
                assert(diagnoses(report, input, facts) && sandboxed_outcome(report, outcome));
            }
            outcome
        },
        ShellSetup::Unsafe { visible_path, workspace } => {
            let temporary = HostPath::from_text("/tmp");
            match command_environment(&temporary, visible_path.as_slice(), &temporary) {
                Err(words) => Err(words),
                Ok(environment) => Ok(
                    ShellConfiguration::Unsafe {
                        environment,
                        executor: UnsafeExecutor::new(workspace),
                    },
                ),
            }
        },
        ShellSetup::Elsewhere { mode } => if mode == CliShellMode::Disabled {
            Ok(ShellConfiguration::Disabled)
        } else {
            Err(
                "shell execution is currently supported only on Linux; use `--no-shell`".to_owned(),
            )
        },
    }
}

/// A sandbox that is asked for and cannot be used is never traded for another mode: what comes
/// out is a sandboxed shell or an error.
pub proof fn sandboxes_fail_closed(
    report: SandboxDiagnosticReport,
    outcome: Result<ShellConfiguration, String>,
)
    requires
        sandboxed_outcome(report, outcome),
    ensures
        outcome is Err || outcome->Ok_0 is Sandboxed,
        !yields_executor(report) ==> outcome is Err,
{
}

proof fn lemma_entries_not_text(entries: Seq<Seq<u8>>)
    ensures
        entry_not_text(entries) is None <==> forall|i: int|
            0 <= i < entries.len() ==> valid_utf8(#[trigger] entries[i]),
    decreases entries.len(),
{
    if entries.len() > 0 {
        let before = entries.drop_last();
        lemma_entries_not_text(before);
        assert(entries[entries.len() - 1] == entries.last());
        if entry_not_text(before) is None {
            assert forall|i: int| 0 <= i < before.len() implies valid_utf8(
                #[trigger] entries[i],
            ) by {
                assert(before[i] == entries[i]);
            }
        } else {
            let i = choose|i: int| 0 <= i < before.len() && !valid_utf8(#[trigger] before[i]);
            assert(entries[i] == before[i]);
        }
    }
}

/// Commands find the home, the temporary directory and every directory of the search path that
/// they are given, in order, where all of them are text; where one is not, there is no
/// environment.
pub proof fn environments_keep_their_paths(
    home: Seq<u8>,
    path: Seq<Seq<u8>>,
    temp_directory: Seq<u8>,
)
    ensures
        environment_of(home, path, temp_directory) matches Ok(config) ==> {
            &&& valid_utf8(home) && config.home == decode_utf8(home)
            &&& valid_utf8(temp_directory) && config.temp_directory == decode_utf8(temp_directory)
            &&& config.path.len() == path.len()
            &&& forall|i: int|
                0 <= i < path.len() ==> valid_utf8(path[i]) && #[trigger] config.path[i]
                    == decode_utf8(path[i])
            &&& environment_fault(config) is None
        },
        environment_of(home, path, temp_directory) is Err ==> {
            ||| !valid_utf8(home)
            ||| !valid_utf8(temp_directory)
            ||| exists|i: int| 0 <= i < path.len() && !valid_utf8(#[trigger] path[i])
            ||| environment_fault(
                (EnvironmentConfigView {
                    home: decode_utf8(home),
                    path: Seq::new(path.len(), |i: int| decode_utf8(path[i])),
                    temp_directory: decode_utf8(temp_directory),
                }),
            ) is Some
        },
{
    lemma_entries_not_text(path);
    assert(decoded_entries(path) =~= Seq::new(path.len(), |i: int| decode_utf8(path[i])));
}

/// A shell is set up in the mode that was asked for or not at all: none where none was asked for,
/// and on a platform other than Linux only that.
pub proof fn shells_are_what_was_asked_for(
    setup: ShellSetup,
    outcome: Result<ShellConfiguration, String>,
)
    requires
        call_ensures(configure_shell, (setup,), outcome),
    ensures
        setup is Disabled ==> outcome is Ok && outcome->Ok_0 is Disabled,
        setup is Sandboxed && outcome is Ok ==> outcome->Ok_0 is Sandboxed,
        setup is Unsafe && outcome is Ok ==> outcome->Ok_0 is Unsafe,
        setup matches ShellSetup::Elsewhere { mode } ==> (outcome is Ok <==> mode
            == CliShellMode::Disabled) && (outcome is Ok ==> outcome->Ok_0 is Disabled),
{
}

/// A shell on the host runs in the workspace, with the search path that it is given, and with
/// `/tmp` for its home and its temporary directory.
pub proof fn host_shells_stay_out_of_the_home(
    visible_path: Vec<HostPath>,
    workspace: HostPath,
    outcome: Result<ShellConfiguration, String>,
)
    requires
        call_ensures(
            configure_shell,
            (ShellSetup::Unsafe { visible_path, workspace },),
            outcome,
        ),
    ensures
        outcome matches Ok(ShellConfiguration::Unsafe { environment, executor }) ==> {
            &&& executor@ == workspace@
            &&& environment@.home == "/tmp"@
            &&& environment@.temp_directory == "/tmp"@
            &&& environment@.path.len() == visible_path@.len()
            &&& forall|i: int|
                0 <= i < visible_path@.len() ==> #[trigger] environment@.path[i] == decode_utf8(
                    visible_path@[i]@,
                )
        },
{
    encode_utf8_decode_utf8("/tmp"@);
    environments_keep_their_paths(
        encode_utf8("/tmp"@),
        path_views(visible_path@),
        encode_utf8("/tmp"@),
    );
}

/// A sandbox that cannot be used is refused with the report of the diagnosis, and with what can be
/// done instead.
pub proof fn unusable_sandboxes_are_explained(
    report: SandboxDiagnosticReport,
    outcome: Result<ShellConfiguration, String>,
)
    requires
        sandboxed_outcome(report, outcome),
        !yields_executor(report),
    ensures
        outcome is Err,
        outcome->Err_0@ == "sandboxed shell startup failed closed:\n"@ + report_lines(report)
            + "\nRun `cane --doctor` for the same capability report, use `--no-shell` to start without command execution, or explicitly accept host access with `--unsafe-shell`."@,
{
}

/// A sandboxed shell runs by the policy, the launcher and the version that were diagnosed, and its
/// commands find the policy's private home, private temporary directory and search path.
pub proof fn sandboxed_shells_follow_the_diagnosis(
    report: SandboxDiagnosticReport,
    outcome: Result<ShellConfiguration, String>,
)
    requires
        sandboxed_outcome(report, outcome),
        outcome is Ok,
    ensures
        outcome matches Ok(ShellConfiguration::Sandboxed { environment, executor, policy, version })
            && {
            &&& report.policy is Some && report.bubblewrap_path is Some
            &&& policy@ == report.policy->0@
            &&& executor@.launcher == report.bubblewrap_path->0@
            &&& executor@.workspace == policy@.workspace
            &&& version is Some <==> report.bubblewrap_version is Some
            &&& version is Some ==> version->0@ == report.bubblewrap_version->0@
            &&& environment@.home == decode_utf8(policy@.private_home)
            &&& environment@.temp_directory == decode_utf8(policy@.private_temp)
            &&& environment@.path.len() == policy@.executable_path.len()
            &&& forall|i: int|
                0 <= i < policy@.executable_path.len() ==> #[trigger] environment@.path[i]
                    == decode_utf8(policy@.executable_path[i])
        },
{
    let policy = report.policy->0@;
    environments_keep_their_paths(
        policy.private_home,
        policy.executable_path,
        policy.private_temp,
    );
}

} // verus!
