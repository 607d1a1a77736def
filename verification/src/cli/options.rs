//! The switches of the command line, and the directories that the environment names.
use crate::bytes::{byte_views, same_bytes, split_on};
use crate::journal::schema::ShellMode;
use crate::path::{beneath, is_absolute_path, joined_path, path_views, same_path, HostPath};
use crate::text::strip_prefix;
use vstd::prelude::*;
use vstd::utf8::{
    decode_utf8, encode_utf8, encode_utf8_decode_utf8, encode_utf8_valid_utf8, valid_utf8,
};

verus! {

/// What the command line asks for.
#[derive(Clone, Copy, Debug, PartialEq, Eq, Structural)]
pub enum CliCommand {
    Chat { shell_mode: CliShellMode },
    Doctor,
}

#[derive(Clone, Copy, Debug, PartialEq, Eq, Structural)]
pub enum CliShellMode {
    Disabled,
    Sandboxed,
    Unsafe,
}

/// The bytes of a switch.
pub open spec fn switch(name: Seq<char>) -> Seq<u8> {
    encode_utf8(name)
}

/// What a list of arguments asks for: at most one switch is taken.
pub open spec fn command_of(arguments: Seq<Seq<u8>>) -> Result<CliCommand, Seq<char>> {
    let no_shell = switch("--no-shell"@);
    let unsafe_shell = switch("--unsafe-shell"@);
    if arguments.len() == 0 {
        Ok(CliCommand::Chat { shell_mode: CliShellMode::Sandboxed })
    } else if arguments.len() == 1 && arguments[0] == no_shell {
        Ok(CliCommand::Chat { shell_mode: CliShellMode::Disabled })
    } else if arguments.len() == 1 && arguments[0] == unsafe_shell {
        Ok(CliCommand::Chat { shell_mode: CliShellMode::Unsafe })
    } else if arguments.len() == 1 && arguments[0] == switch("--doctor"@) {
        Ok(CliCommand::Doctor)
    } else if arguments.len() == 2 && (arguments[0] == no_shell && arguments[1] == unsafe_shell
        || arguments[0] == unsafe_shell && arguments[1] == no_shell) {
        Err("--no-shell and --unsafe-shell are mutually exclusive"@)
    } else {
        Err("usage: cane [--no-shell | --unsafe-shell | --doctor]"@)
    }
}

fn is_switch(argument: &Vec<u8>, name: &str) -> (same: bool)
    ensures
        same == (argument@ == switch(name@)),
{
    same_bytes(argument.as_slice(), name.as_bytes())
}

pub fn parse_cli_command(arguments: &Vec<Vec<u8>>) -> (parsed: Result<CliCommand, String>)
    ensures
        match command_of(byte_views(arguments@)) {
            Ok(command) => parsed is Ok && parsed->Ok_0 == command,
            Err(words) => parsed is Err && parsed->Err_0@ == words,
        },
{
    if arguments.len() == 0 {
        return Ok(CliCommand::Chat { shell_mode: CliShellMode::Sandboxed });
    }
    if arguments.len() == 1 {
        if is_switch(&arguments[0], "--no-shell") {
            return Ok(CliCommand::Chat { shell_mode: CliShellMode::Disabled });
        }
        if is_switch(&arguments[0], "--unsafe-shell") {
            return Ok(CliCommand::Chat { shell_mode: CliShellMode::Unsafe });
        }
        if is_switch(&arguments[0], "--doctor") {
            return Ok(CliCommand::Doctor);
        }
    }
    if arguments.len() == 2 {
        let off_first = is_switch(&arguments[0], "--no-shell") && is_switch(
            &arguments[1],
            "--unsafe-shell",
        );
        let off_last = is_switch(&arguments[0], "--unsafe-shell") && is_switch(
            &arguments[1],
            "--no-shell",
        );
        if off_first || off_last {
            return Err("--no-shell and --unsafe-shell are mutually exclusive".to_owned());
        }
    }
    Err("usage: cane [--no-shell | --unsafe-shell | --doctor]".to_owned())
}

pub open spec fn path_view(path: Option<HostPath>) -> Option<Seq<u8>> {
    match path {
        None => None,
        Some(path) => Some(path@),
    }
}

/// A variable that is set to nothing counts as not set.
pub open spec fn set_path(value: Option<Seq<u8>>) -> Option<Seq<u8>> {
    match value {
        None => None,
        Some(path) => if path.len() == 0 {
            None
        } else {
            Some(path)
        },
    }
}

pub fn non_empty_path(value: Option<HostPath>) -> (path: Option<HostPath>)
    ensures
        path_view(path) == set_path(path_view(value)),
{
    match value {
        None => None,
        Some(path) => if path.as_bytes().len() == 0 {
            None
        } else {
            Some(path)
        },
    }
}

/// Where the configuration and the sessions lie: where the environment says, or else beneath the
/// home directory.
pub open spec fn cane_home_of(cane_home: Option<Seq<u8>>, user_home: Option<Seq<u8>>) -> Option<
    Seq<u8>,
> {
    match set_path(cane_home) {
        Some(path) => Some(path),
        None => match set_path(user_home) {
            Some(home) => Some(joined_path(home, encode_utf8(".cane"@))),
            None => None,
        },
    }
}

pub fn resolve_cane_home(cane_home: Option<HostPath>, user_home: Option<HostPath>) -> (home: Option<
    HostPath,
>)
    ensures
        path_view(home) == cane_home_of(path_view(cane_home), path_view(user_home)),
{
    match non_empty_path(cane_home) {
        Some(path) => Some(path),
        None => match non_empty_path(user_home) {
            Some(home) => Some(home.join(&HostPath::from_text(".cane"))),
            None => None,
        },
    }
}

/// The directories of a search path, between its colons.
pub fn split_search_path(search_path: &[u8]) -> (entries: Vec<HostPath>)
    ensures
        path_views(entries@) == split_on(search_path@, 58),
{
    let mut entries: Vec<HostPath> = Vec::new();
    let mut entry: Vec<u8> = Vec::new();
    let mut index: usize = 0;
    let length = search_path.len();
    assert(path_views(entries@).push(entry@) =~= split_on(search_path@.take(0), 58));
    while index < length
        invariant
            length == search_path@.len(),
            index <= length,
            path_views(entries@).push(entry@) == split_on(search_path@.take(index as int), 58),
        decreases length - index,
    {
        let byte = search_path[index];
        let ghost here = search_path@.take(index + 1);
        let ghost before = path_views(entries@).push(entry@);
        proof {
            assert(here.drop_last() =~= search_path@.take(index as int));
            assert(here.last() == byte);
            assert(before.drop_last() =~= path_views(entries@));
        }
        if byte == 58 {
            entries.push(HostPath::from_bytes(entry));
            entry = Vec::new();
            assert(path_views(entries@) =~= before);
            assert(path_views(entries@).push(entry@) =~= before.push(Seq::empty()));
        } else {
            entry.push(byte);
        }
        index += 1;
    }
    assert(search_path@.take(length as int) =~= search_path@);
    let ghost before = path_views(entries@).push(entry@);
    entries.push(HostPath::from_bytes(entry));
    assert(path_views(entries@) =~= before);
    entries
}

/// Where a user keeps executables of their own.
pub open spec fn user_roots(home: Seq<u8>) -> Seq<Seq<u8>> {
    seq![
        joined_path(joined_path(home, encode_utf8(".local"@)), encode_utf8("bin"@)),
        joined_path(home, encode_utf8("bin"@)),
    ]
}

pub fn user_root_candidates(home: &HostPath) -> (roots: Vec<HostPath>)
    ensures
        path_views(roots@) == user_roots(home@),
{
    let local = home.join(&HostPath::from_text(".local")).join(&HostPath::from_text("bin"));
    let own = home.join(&HostPath::from_text("bin"));
    let roots = vec![local, own];
    assert(path_views(roots@) =~= user_roots(home@));
    roots
}

/// A path, and whether a directory was found there.
#[derive(Debug, PartialEq, Eq)]
pub struct ObservedDirectory {
    pub is_directory: bool,
    pub path: HostPath,
}

/// The paths at which a directory was found.
pub open spec fn found_directories(observed: Seq<ObservedDirectory>) -> Seq<Seq<u8>>
    decreases observed.len(),
{
    if observed.len() == 0 {
        Seq::empty()
    } else {
        let before = found_directories(observed.drop_last());
        if observed.last().is_directory {
            before.push(observed.last().path@)
        } else {
            before
        }
    }
}

/// The directories among the candidates for a user's own executables.
pub fn user_executable_roots(candidates: &Vec<ObservedDirectory>) -> (roots: Vec<HostPath>)
    ensures
        path_views(roots@) == found_directories(candidates@),
{
    let mut roots: Vec<HostPath> = Vec::new();
    let mut index: usize = 0;
    assert(path_views(roots@) =~= found_directories(candidates@.take(0)));
    while index < candidates.len()
        invariant
            index <= candidates@.len(),
            path_views(roots@) == found_directories(candidates@.take(index as int)),
        decreases candidates@.len() - index,
    {
        let ghost before = path_views(roots@);
        assert(candidates@.take(index + 1).drop_last() =~= candidates@.take(index as int));
        if candidates[index].is_directory {
            roots.push(candidates[index].path.clone());
            assert(path_views(roots@) =~= before.push(candidates@[index as int].path@));
        }
        index += 1;
    }
    assert(candidates@.take(index as int) =~= candidates@);
    roots
}

/// The endpoint that a text names, where it names an absolute path on this host.
pub open spec fn named_endpoint(docker_host: Option<Seq<u8>>) -> Option<Seq<u8>> {
    match docker_host {
        None => None,
        Some(value) => if !valid_utf8(value) {
            None
        } else {
            let text = decode_utf8(value);
            let prefix = "unix://"@;
            if prefix.is_prefix_of(text) && is_absolute_path(
                encode_utf8(text.skip(prefix.len() as int)),
            ) {
                Some(encode_utf8(text.skip(prefix.len() as int)))
            } else {
                None
            }
        },
    }
}

/// The socket that a user's own daemon would have.
pub open spec fn user_socket_of(runtime_directory: Option<Seq<u8>>) -> Option<Seq<u8>> {
    match set_path(runtime_directory) {
        None => None,
        Some(directory) => Some(joined_path(directory, encode_utf8("docker.sock"@))),
    }
}

pub fn user_docker_socket(runtime_directory: Option<HostPath>) -> (socket: Option<HostPath>)
    ensures
        path_view(socket) == user_socket_of(path_view(runtime_directory)),
{
    match non_empty_path(runtime_directory) {
        None => None,
        Some(directory) => Some(directory.join(&HostPath::from_text("docker.sock"))),
    }
}

/// The Docker endpoint to use: the one that the environment names, or else the system's socket or
/// the user's, whichever exists.
pub open spec fn endpoint_of(
    docker_host: Option<Seq<u8>>,
    runtime_directory: Option<Seq<u8>>,
    system_socket_exists: bool,
    user_socket_exists: bool,
) -> Option<Seq<u8>> {
    match named_endpoint(docker_host) {
        Some(path) => Some(path),
        None => if system_socket_exists {
            Some(encode_utf8("/var/run/docker.sock"@))
        } else if user_socket_exists {
            user_socket_of(runtime_directory)
        } else {
            None
        },
    }
}

pub fn discover_docker_endpoint(
    docker_host: Option<HostPath>,
    runtime_directory: Option<HostPath>,
    system_socket_exists: bool,
    user_socket_exists: bool,
) -> (endpoint: Option<HostPath>)
    ensures
        path_view(endpoint) == endpoint_of(
            path_view(docker_host),
            path_view(runtime_directory),
            system_socket_exists,
            user_socket_exists,
        ),
{
    if let Some(value) = docker_host {
        if let Some(text) = value.to_text() {
            if let Some(rest) = strip_prefix(text.as_str(), "unix://") {
                let path = HostPath::from_text(rest.as_str());
                if path.is_absolute() {
                    return Some(path);
                }
            }
        }
    }
    if system_socket_exists {
        return Some(HostPath::from_text("/var/run/docker.sock"));
    }
    if user_socket_exists {
        user_docker_socket(runtime_directory)
    } else {
        None
    }
}

/// The directories from which a command on the host may take its executables.
pub open spec fn allowed_roots_of(home: Option<Seq<u8>>) -> Seq<Seq<u8>> {
    let system = seq![
        encode_utf8("/usr/local/sbin"@),
        encode_utf8("/usr/local/bin"@),
        encode_utf8("/usr/sbin"@),
        encode_utf8("/usr/bin"@),
        encode_utf8("/sbin"@),
        encode_utf8("/bin"@),
        encode_utf8("/run/current-system/sw/bin"@),
        encode_utf8("/nix/store"@),
    ];
    match set_path(home) {
        None => system,
        Some(home) => system + user_roots(home),
    }
}

pub fn allowed_roots(home: Option<HostPath>) -> (roots: Vec<HostPath>)
    ensures
        path_views(roots@) == allowed_roots_of(path_view(home)),
{
    let ghost given = path_view(home);
    let mut roots = vec![
        HostPath::from_text("/usr/local/sbin"),
        HostPath::from_text("/usr/local/bin"),
        HostPath::from_text("/usr/sbin"),
        HostPath::from_text("/usr/bin"),
        HostPath::from_text("/sbin"),
        HostPath::from_text("/bin"),
        HostPath::from_text("/run/current-system/sw/bin"),
        HostPath::from_text("/nix/store"),
    ];
    let ghost system = path_views(roots@);
    if let Some(home) = non_empty_path(home) {
        let mut own = user_root_candidates(&home);
        let ghost added = path_views(own@);
        roots.append(&mut own);
        assert(path_views(roots@) =~= system + added);
    }
    assert(path_views(roots@) =~= allowed_roots_of(given));
    roots
}

/// Whether a path lies in one of the roots.
pub open spec fn lies_in(path: Seq<u8>, roots: Seq<Seq<u8>>) -> bool {
    exists|i: int| 0 <= i < roots.len() && beneath(path, #[trigger] roots[i])
}

fn is_allowed(path: &HostPath, roots: &Vec<ObservedDirectory>) -> (allowed: bool)
    ensures
        allowed == lies_in(path@, directory_paths(roots@)),
{
    let mut index: usize = 0;
    while index < roots.len()
        invariant
            index <= roots@.len(),
            forall|i: int|
                0 <= i < index ==> !beneath(path@, #[trigger] directory_paths(roots@)[i]),
        decreases roots@.len() - index,
    {
        assert(directory_paths(roots@)[index as int] == roots@[index as int].path@);
        if path.starts_with(&roots[index].path) {
            return true;
        }
        index += 1;
    }
    false
}

pub open spec fn directory_paths(directories: Seq<ObservedDirectory>) -> Seq<Seq<u8>> {
    Seq::new(directories.len(), |i: int| directories[i].path@)
}

/// The entries of the inherited search path that are directories in an allowed root.
pub open spec fn inherited_visible(
    inherited: Seq<ObservedDirectory>,
    allowed: Seq<Seq<u8>>,
) -> Seq<Seq<u8>>
    decreases inherited.len(),
{
    if inherited.len() == 0 {
        Seq::empty()
    } else {
        let before = inherited_visible(inherited.drop_last(), allowed);
        let entry = inherited.last();
        if is_absolute_path(entry.path@) && entry.is_directory && lies_in(entry.path@, allowed) {
            before.push(entry.path@)
        } else {
            before
        }
    }
}

/// The allowed roots that are there, but for the store, which is no search path of its own.
pub open spec fn roots_visible(allowed: Seq<ObservedDirectory>) -> Seq<Seq<u8>>
    decreases allowed.len(),
{
    if allowed.len() == 0 {
        Seq::empty()
    } else {
        let before = roots_visible(allowed.drop_last());
        let root = allowed.last();
        if root.is_directory && !same_path(root.path@, encode_utf8("/nix/store"@)) {
            before.push(root.path@)
        } else {
            before
        }
    }
}

/// The search path of a command on the host: what is left of the inherited one, or the allowed
/// roots where nothing is left.
pub open spec fn visible_path_of(
    inherited: Seq<ObservedDirectory>,
    allowed: Seq<ObservedDirectory>,
) -> Seq<Seq<u8>> {
    let kept = inherited_visible(inherited, directory_paths(allowed));
    if kept.len() == 0 {
        roots_visible(allowed)
    } else {
        kept
    }
}

pub fn unsafe_visible_path(
    inherited: &Vec<ObservedDirectory>,
    allowed: &Vec<ObservedDirectory>,
) -> (visible: Vec<HostPath>)
    ensures
        path_views(visible@) == visible_path_of(inherited@, allowed@),
{
    let mut visible: Vec<HostPath> = Vec::new();
    let mut index: usize = 0;
    assert(path_views(visible@) =~= inherited_visible(
        inherited@.take(0),
        directory_paths(allowed@),
    ));
    while index < inherited.len()
        invariant
            index <= inherited@.len(),
            path_views(visible@) == inherited_visible(
                inherited@.take(index as int),
                directory_paths(allowed@),
            ),
        decreases inherited@.len() - index,
    {
        let ghost before = path_views(visible@);
        let entry = &inherited[index];
        assert(inherited@.take(index + 1).drop_last() =~= inherited@.take(index as int));
        if entry.path.is_absolute() && entry.is_directory && is_allowed(&entry.path, allowed) {
            visible.push(entry.path.clone());
            assert(path_views(visible@) =~= before.push(entry.path@));
        }
        index += 1;
    }
    assert(inherited@.take(index as int) =~= inherited@);
    if visible.len() > 0 {
        assert(path_views(visible@).len() > 0);
        return visible;
    }
    let store = HostPath::from_text("/nix/store");
    let mut at: usize = 0;
    assert(path_views(visible@) =~= roots_visible(allowed@.take(0)));
    while at < allowed.len()
        invariant
            at <= allowed@.len(),
            store@ == encode_utf8("/nix/store"@),
            path_views(visible@) == roots_visible(allowed@.take(at as int)),
        decreases allowed@.len() - at,
    {
        let ghost before = path_views(visible@);
        let root = &allowed[at];
        assert(allowed@.take(at + 1).drop_last() =~= allowed@.take(at as int));
        if root.is_directory && !root.path.same(&store) {
            visible.push(root.path.clone());
            assert(path_views(visible@) =~= before.push(root.path@));
        }
        at += 1;
    }
    assert(allowed@.take(at as int) =~= allowed@);
    visible
}

/// What the model is told of the shell.
pub fn resolved_instructions(mode: ShellMode) -> (instructions: String)
    ensures
        instructions@ == match mode {
            ShellMode::Disabled =>
                "No shell tool is available. Use the native workspace tools for file operations."@,
            ShellMode::Sandboxed => "A shell tool is available on Linux. It runs the exact command with `/bin/bash --noprofile --norc -c` in a fresh process. Its default working directory is the workspace root; `workdir` must be relative to that workspace, and `cd` does not persist between calls. Every command requires one-time user approval. `timeout_seconds` defaults to 600 and must be between 1 and 1800. Commands receive a clean constructed environment, private home and temporary directories, read/write workspace access, read-only Git metadata and execution dependencies, no external network or host-local service access, and complete process-tree cleanup. Git metadata mutation must fail. Docker daemon access is not available."@,
            ShellMode::Unsafe => "An unsafe shell tool is available on Linux. It runs the exact command with `/bin/bash --noprofile --norc -c` in a fresh host process. Its default working directory is the workspace root; `workdir` must be relative to that workspace, and `cd` does not persist between calls. Every command requires one-time user approval. `timeout_seconds` defaults to 600 and must be between 1 and 1800. The child receives a clean constructed environment and process-group supervision, but filesystem, credential-store, host IPC, localhost, and external network access are not sandboxed. Docker daemon access is not automatically provided."@,
        },
{
    let text = match mode {
        ShellMode::Disabled =>
            "No shell tool is available. Use the native workspace tools for file operations.",
        ShellMode::Sandboxed => "A shell tool is available on Linux. It runs the exact command with `/bin/bash --noprofile --norc -c` in a fresh process. Its default working directory is the workspace root; `workdir` must be relative to that workspace, and `cd` does not persist between calls. Every command requires one-time user approval. `timeout_seconds` defaults to 600 and must be between 1 and 1800. Commands receive a clean constructed environment, private home and temporary directories, read/write workspace access, read-only Git metadata and execution dependencies, no external network or host-local service access, and complete process-tree cleanup. Git metadata mutation must fail. Docker daemon access is not available.",
        ShellMode::Unsafe => "An unsafe shell tool is available on Linux. It runs the exact command with `/bin/bash --noprofile --norc -c` in a fresh host process. Its default working directory is the workspace root; `workdir` must be relative to that workspace, and `cd` does not persist between calls. Every command requires one-time user approval. `timeout_seconds` defaults to 600 and must be between 1 and 1800. The child receives a clean constructed environment and process-group supervision, but filesystem, credential-store, host IPC, localhost, and external network access are not sandboxed. Docker daemon access is not automatically provided.",
    };
    text.to_owned()
}

/// What the user is told when commands run on the host.
pub fn unsafe_shell_warning() -> (warning: &'static str)
    ensures
        warning@ == "WARNING: --unsafe-shell runs model-requested commands as unsandboxed host processes.\nCommands may read host files and credential stores, access host IPC and networks, and inspect Cane or other same-user processes. One-time command approval still applies."@,
{
    "WARNING: --unsafe-shell runs model-requested commands as unsandboxed host processes.\nCommands may read host files and credential stores, access host IPC and networks, and inspect Cane or other same-user processes. One-time command approval still applies."
}

/// Nothing outside the allowed roots is ever on the search path of a command on the host.
pub proof fn visible_paths_are_allowed(
    inherited: Seq<ObservedDirectory>,
    allowed: Seq<ObservedDirectory>,
)
    ensures
        forall|i: int|
            0 <= i < visible_path_of(inherited, allowed).len() ==> lies_in(
                #[trigger] visible_path_of(inherited, allowed)[i],
                directory_paths(allowed),
            ),
{
    lemma_inherited_allowed(inherited, directory_paths(allowed));
    assert forall|i: int| 0 <= i < allowed.len() implies directory_paths(allowed).contains(
        (#[trigger] allowed[i]).path@,
    ) by {
        assert(directory_paths(allowed)[i] == allowed[i].path@);
    }
    lemma_roots_allowed(allowed, directory_paths(allowed));
}

proof fn lemma_inherited_allowed(inherited: Seq<ObservedDirectory>, allowed: Seq<Seq<u8>>)
    ensures
        forall|i: int|
            0 <= i < inherited_visible(inherited, allowed).len() ==> lies_in(
                #[trigger] inherited_visible(inherited, allowed)[i],
                allowed,
            ),
    decreases inherited.len(),
{
    if inherited.len() > 0 {
        let before = inherited_visible(inherited.drop_last(), allowed);
        lemma_inherited_allowed(inherited.drop_last(), allowed);
        let all = inherited_visible(inherited, allowed);
        assert forall|i: int| 0 <= i < all.len() implies lies_in(#[trigger] all[i], allowed) by {
            if i < before.len() {
                assert(all[i] == before[i]);
            }
        }
    }
}

proof fn lemma_roots_allowed(roots: Seq<ObservedDirectory>, allowed: Seq<Seq<u8>>)
    requires
        forall|i: int|
            0 <= i < roots.len() ==> allowed.contains((#[trigger] roots[i]).path@),
    ensures
        forall|i: int|
            0 <= i < roots_visible(roots).len() ==> lies_in(
                #[trigger] roots_visible(roots)[i],
                allowed,
            ),
    decreases roots.len(),
{
    if roots.len() > 0 {
        let before = roots.drop_last();
        assert forall|i: int| 0 <= i < before.len() implies allowed.contains(
            (#[trigger] before[i]).path@,
        ) by {
            assert(before[i] == roots[i]);
        }
        lemma_roots_allowed(before, allowed);
        let last = roots[roots.len() - 1].path@;
        assert(allowed.contains(last));
        let at = choose|at: int| 0 <= at < allowed.len() && allowed[at] == last;
        assert(beneath(last, allowed[at]));
        let kept = roots_visible(before);
        let all = roots_visible(roots);
        assert forall|i: int| 0 <= i < all.len() implies lies_in(#[trigger] all[i], allowed) by {
            if i < kept.len() {
                assert(all[i] == kept[i]);
            }
        }
    }
}

/// The program chats in a sandbox where it is told nothing, without a shell or on the host itself
/// where one switch says so, and reports on the sandbox where another does.
pub proof fn switches_choose_the_command(argument: Seq<u8>)
    ensures
        command_of(Seq::<Seq<u8>>::empty()) == Ok::<CliCommand, Seq<char>>(
            CliCommand::Chat { shell_mode: CliShellMode::Sandboxed },
        ),
        command_of(seq![argument]) == Ok::<CliCommand, Seq<char>>(
            CliCommand::Chat { shell_mode: CliShellMode::Disabled },
        ) <==> argument == encode_utf8("--no-shell"@),
        command_of(seq![argument]) == Ok::<CliCommand, Seq<char>>(
            CliCommand::Chat { shell_mode: CliShellMode::Unsafe },
        ) <==> argument == encode_utf8("--unsafe-shell"@),
        command_of(seq![argument]) == Ok::<CliCommand, Seq<char>>(CliCommand::Doctor)
            <==> argument == encode_utf8("--doctor"@),
        command_of(seq![argument]) is Err <==> argument != encode_utf8("--no-shell"@) && argument
            != encode_utf8("--unsafe-shell"@) && argument != encode_utf8("--doctor"@),
{
    let one = seq![argument];
    assert(one.len() == 1 && one[0] == argument);
    lemma_switches_differ();
}

proof fn lemma_switches_differ()
    ensures
        encode_utf8("--no-shell"@) != encode_utf8("--unsafe-shell"@),
        encode_utf8("--no-shell"@) != encode_utf8("--doctor"@),
        encode_utf8("--unsafe-shell"@) != encode_utf8("--doctor"@),
{
    reveal_strlit("--no-shell");
    reveal_strlit("--unsafe-shell");
    reveal_strlit("--doctor");
    encode_utf8_decode_utf8("--no-shell"@);
    encode_utf8_decode_utf8("--unsafe-shell"@);
    encode_utf8_decode_utf8("--doctor"@);
    assert("--no-shell"@.len() == 10 && "--unsafe-shell"@.len() == 14 && "--doctor"@.len() == 8);
}

/// Two or more arguments are refused, and the two modes of the shell are said to exclude each
/// other.
pub proof fn further_arguments_are_refused(arguments: Seq<Seq<u8>>)
    requires
        arguments.len() >= 2,
    ensures
        command_of(arguments) is Err,
        command_of(arguments)->Err_0 == "--no-shell and --unsafe-shell are mutually exclusive"@
            || command_of(arguments)->Err_0
            == "usage: cane [--no-shell | --unsafe-shell | --doctor]"@,
        arguments.len() == 2 && arguments.contains(encode_utf8("--no-shell"@))
            && arguments.contains(encode_utf8("--unsafe-shell"@)) ==> command_of(arguments)->Err_0
            == "--no-shell and --unsafe-shell are mutually exclusive"@,
{
    lemma_switches_differ();
    if arguments.len() == 2 && arguments.contains(encode_utf8("--no-shell"@))
        && arguments.contains(encode_utf8("--unsafe-shell"@)) {
        let first = choose|i: int|
            0 <= i < arguments.len() && arguments[i] == encode_utf8("--no-shell"@);
        let second = choose|i: int|
            0 <= i < arguments.len() && arguments[i] == encode_utf8("--unsafe-shell"@);
        assert(first == 0 || first == 1);
        assert(second == 0 || second == 1);
    }
}

/// The program keeps its files where it is told, and else in `.cane` in the user's home; what is
/// set to nothing counts as not set.
pub proof fn files_are_kept_at_home(cane_home: Seq<u8>, user_home: Seq<u8>)
    ensures
        cane_home.len() > 0 ==> cane_home_of(Some(cane_home), None) == Some(cane_home)
            && cane_home_of(Some(cane_home), Some(user_home)) == Some(cane_home),
        cane_home.len() == 0 ==> cane_home_of(Some(cane_home), Some(user_home)) == cane_home_of(
            None,
            Some(user_home),
        ),
        user_home.len() > 0 ==> cane_home_of(None, Some(user_home)) == Some(
            joined_path(user_home, encode_utf8(".cane"@)),
        ),
        user_home.len() == 0 ==> cane_home_of(None, Some(user_home)) is None,
        cane_home_of(None, None) is None,
{
}

/// An endpoint that the environment names by an absolute path behind `unix://` is taken, whatever
/// sockets there are.
pub proof fn named_endpoints_come_first(
    path: Seq<char>,
    runtime_directory: Option<Seq<u8>>,
    system_socket_exists: bool,
    user_socket_exists: bool,
)
    requires
        is_absolute_path(encode_utf8(path)),
    ensures
        endpoint_of(
            Some(encode_utf8("unix://"@ + path)),
            runtime_directory,
            system_socket_exists,
            user_socket_exists,
        ) == Some(encode_utf8(path)),
{
    let prefix = "unix://"@;
    encode_utf8_valid_utf8(prefix + path);
    encode_utf8_decode_utf8(prefix + path);
    assert(prefix =~= (prefix + path).subrange(0, prefix.len() as int));
    assert((prefix + path).skip(prefix.len() as int) =~= path);
}

/// Where the environment names no endpoint, the system's socket is taken where it is there, else
/// the user's, and else none.
pub proof fn sockets_are_taken_in_order(
    runtime_directory: Seq<u8>,
    system_socket_exists: bool,
    user_socket_exists: bool,
)
    requires
        runtime_directory.len() > 0,
    ensures
        endpoint_of(None, Some(runtime_directory), system_socket_exists, user_socket_exists)
            == if system_socket_exists {
            Some(encode_utf8("/var/run/docker.sock"@))
        } else if user_socket_exists {
            Some(joined_path(runtime_directory, encode_utf8("docker.sock"@)))
        } else {
            None
        },
        endpoint_of(None, None, false, user_socket_exists) is None,
{
}

/// Whether a directory of the inherited search path may be seen by a command.
pub open spec fn may_be_seen(
    entry: ObservedDirectory,
    allowed: Seq<ObservedDirectory>,
) -> bool {
    &&& entry.is_directory
    &&& is_absolute_path(entry.path@)
    &&& exists|i: int| 0 <= i < allowed.len() && beneath(entry.path@, (#[trigger] allowed[i]).path@)
}

proof fn lemma_may_be_seen(entry: ObservedDirectory, allowed: Seq<ObservedDirectory>)
    ensures
        may_be_seen(entry, allowed) <==> is_absolute_path(entry.path@) && entry.is_directory
            && lies_in(entry.path@, directory_paths(allowed)),
{
    let roots = directory_paths(allowed);
    if lies_in(entry.path@, roots) {
        let i = choose|i: int| 0 <= i < roots.len() && beneath(entry.path@, #[trigger] roots[i]);
        assert(beneath(entry.path@, allowed[i].path@));
    }
    if exists|i: int| 0 <= i < allowed.len() && beneath(entry.path@, (#[trigger] allowed[i]).path@) {
        let i = choose|i: int|
            0 <= i < allowed.len() && beneath(entry.path@, (#[trigger] allowed[i]).path@);
        assert(beneath(entry.path@, roots[i]));
    }
}

/// An inherited directory that comes to the end of the search path is kept, behind those before
/// it, exactly where it is an absolute path to a directory in an allowed root.
pub proof fn inherited_directories_are_kept(
    inherited: Seq<ObservedDirectory>,
    entry: ObservedDirectory,
    allowed: Seq<ObservedDirectory>,
)
    ensures
        ({
            let roots = directory_paths(allowed);
            let before = inherited_visible(inherited, roots);
            let after = inherited_visible(inherited.push(entry), roots);
            &&& may_be_seen(entry, allowed) ==> after == before.push(entry.path@)
            &&& !may_be_seen(entry, allowed) ==> after == before
        }),
        inherited_visible(Seq::<ObservedDirectory>::empty(), directory_paths(allowed)).len() == 0,
{
    lemma_may_be_seen(entry, allowed);
    assert(inherited.push(entry).drop_last() =~= inherited);
}

proof fn lemma_seen_is_kept(
    inherited: Seq<ObservedDirectory>,
    allowed: Seq<ObservedDirectory>,
    at: int,
)
    requires
        0 <= at < inherited.len(),
        may_be_seen(inherited[at], allowed),
    ensures
        inherited_visible(inherited, directory_paths(allowed)).contains(inherited[at].path@),
    decreases inherited.len(),
{
    let roots = directory_paths(allowed);
    let kept = inherited_visible(inherited, roots);
    let before = inherited_visible(inherited.drop_last(), roots);
    lemma_may_be_seen(inherited[at], allowed);
    if at < inherited.len() - 1 {
        assert(inherited.drop_last()[at] == inherited[at]);
        lemma_seen_is_kept(inherited.drop_last(), allowed, at);
        let i = choose|i: int| 0 <= i < before.len() && before[i] == inherited[at].path@;
        assert(kept[i] == before[i]);
    } else {
        assert(kept[kept.len() - 1] == inherited[at].path@);
    }
}

/// Every inherited directory that may be seen stands on the search path. Where there is none, the
/// allowed roots stand there in its place.
pub proof fn seen_directories_stay_on_the_path(
    inherited: Seq<ObservedDirectory>,
    allowed: Seq<ObservedDirectory>,
    at: int,
)
    ensures
        0 <= at < inherited.len() && may_be_seen(inherited[at], allowed) ==> visible_path_of(
            inherited,
            allowed,
        ).contains(inherited[at].path@),
        (forall|i: int|
            0 <= i < inherited.len() ==> !may_be_seen(#[trigger] inherited[i], allowed))
            && 0 <= at < allowed.len() && allowed[at].is_directory && !same_path(
            allowed[at].path@,
            encode_utf8("/nix/store"@),
        ) ==> visible_path_of(inherited, allowed).contains(allowed[at].path@),
{
    if 0 <= at < inherited.len() && may_be_seen(inherited[at], allowed) {
        lemma_seen_is_kept(inherited, allowed, at);
    }
    if forall|i: int|
        0 <= i < inherited.len() ==> !may_be_seen(#[trigger] inherited[i], allowed) {
        lemma_none_seen(inherited, allowed);
        if 0 <= at < allowed.len() && allowed[at].is_directory && !same_path(
            allowed[at].path@,
            encode_utf8("/nix/store"@),
        ) {
            lemma_root_is_kept(allowed, at);
        }
    }
}

proof fn lemma_none_seen(inherited: Seq<ObservedDirectory>, allowed: Seq<ObservedDirectory>)
    requires
        forall|i: int|
            0 <= i < inherited.len() ==> !may_be_seen(#[trigger] inherited[i], allowed),
    ensures
        inherited_visible(inherited, directory_paths(allowed)).len() == 0,
    decreases inherited.len(),
{
    if inherited.len() > 0 {
        let before = inherited.drop_last();
        assert forall|i: int| 0 <= i < before.len() implies !may_be_seen(
            #[trigger] before[i],
            allowed,
        ) by {
            assert(before[i] == inherited[i]);
        }
        lemma_none_seen(before, allowed);
        assert(!may_be_seen(inherited[inherited.len() - 1], allowed));
        lemma_may_be_seen(inherited.last(), allowed);
    }
}

proof fn lemma_root_is_kept(allowed: Seq<ObservedDirectory>, at: int)
    requires
        0 <= at < allowed.len(),
        allowed[at].is_directory,
        !same_path(allowed[at].path@, encode_utf8("/nix/store"@)),
    ensures
        roots_visible(allowed).contains(allowed[at].path@),
    decreases allowed.len(),
{
    let kept = roots_visible(allowed);
    let before = roots_visible(allowed.drop_last());
    if at < allowed.len() - 1 {
        assert(allowed.drop_last()[at] == allowed[at]);
        lemma_root_is_kept(allowed.drop_last(), at);
        let i = choose|i: int| 0 <= i < before.len() && before[i] == allowed[at].path@;
        assert(kept[i] == before[i]);
    } else {
        assert(kept[kept.len() - 1] == allowed[at].path@);
    }
}

/// Of the candidates for a user's own executables, those that are directories are taken, in
/// order.
pub proof fn found_directories_are_taken(
    observed: Seq<ObservedDirectory>,
    directory: ObservedDirectory,
)
    ensures
        found_directories(Seq::<ObservedDirectory>::empty()).len() == 0,
        directory.is_directory ==> found_directories(observed.push(directory))
            == found_directories(observed).push(directory.path@),
        !directory.is_directory ==> found_directories(observed.push(directory))
            == found_directories(observed),
{
    assert(observed.push(directory).drop_last() =~= observed);
}

/// A user's own executables are looked for in `.local/bin` and in `bin` in their home, and the
/// system's in its own directories.
pub proof fn executables_are_looked_for(home: Seq<u8>)
    requires
        home.len() > 0,
    ensures
        user_roots(home).len() == 2,
        user_roots(home)[0] == joined_path(
            joined_path(home, encode_utf8(".local"@)),
            encode_utf8("bin"@),
        ),
        user_roots(home)[1] == joined_path(home, encode_utf8("bin"@)),
        allowed_roots_of(Some(home)) == allowed_roots_of(None) + user_roots(home),
        allowed_roots_of(None) == seq![
            encode_utf8("/usr/local/sbin"@),
            encode_utf8("/usr/local/bin"@),
            encode_utf8("/usr/sbin"@),
            encode_utf8("/usr/bin"@),
            encode_utf8("/sbin"@),
            encode_utf8("/bin"@),
            encode_utf8("/run/current-system/sw/bin"@),
            encode_utf8("/nix/store"@),
        ],
{
}

} // verus!
