//! What a sandboxed command may see of the host.
use crate::path::{
    beneath, components_of, has_body, is_absolute_path, lemma_body_is_components, path_views,
    same_path, HostPath,
};
use crate::text::readable;
use vstd::prelude::*;
use vstd::string::StringExecFns;
use vstd::utf8::encode_utf8;

verus! {

#[derive(Clone, Copy, Debug, PartialEq, Eq, Structural)]
pub enum SandboxFilesystemAccess {
    ReadOnly,
    ReadWrite,
}

impl SandboxFilesystemAccess {
    pub open spec fn spelled(self) -> Seq<char> {
        match self {
            SandboxFilesystemAccess::ReadOnly => "ReadOnly"@,
            SandboxFilesystemAccess::ReadWrite => "ReadWrite"@,
        }
    }

    pub fn name(&self) -> (name: &'static str)
        ensures
            name@ == self.spelled(),
    {
        match self {
            SandboxFilesystemAccess::ReadOnly => "ReadOnly",
            SandboxFilesystemAccess::ReadWrite => "ReadWrite",
        }
    }
}

/// Why a path is exposed.
#[derive(Clone, Copy, Debug, PartialEq, Eq, Structural)]
pub enum SandboxPathPurpose {
    GitMetadata,
    PassThrough,
    Runtime,
    Toolchain,
    Workspace,
}

impl SandboxPathPurpose {
    pub open spec fn spelled(self) -> Seq<char> {
        match self {
            SandboxPathPurpose::GitMetadata => "GitMetadata"@,
            SandboxPathPurpose::PassThrough => "PassThrough"@,
            SandboxPathPurpose::Runtime => "Runtime"@,
            SandboxPathPurpose::Toolchain => "Toolchain"@,
            SandboxPathPurpose::Workspace => "Workspace"@,
        }
    }

    pub fn name(&self) -> (name: &'static str)
        ensures
            name@ == self.spelled(),
    {
        match self {
            SandboxPathPurpose::GitMetadata => "GitMetadata",
            SandboxPathPurpose::PassThrough => "PassThrough",
            SandboxPathPurpose::Runtime => "Runtime",
            SandboxPathPurpose::Toolchain => "Toolchain",
            SandboxPathPurpose::Workspace => "Workspace",
        }
    }
}

/// A path that is exposed to commands.
#[derive(Clone, Debug, PartialEq, Eq)]
pub struct SandboxPathGrant {
    pub access: SandboxFilesystemAccess,
    pub path: HostPath,
    pub purpose: SandboxPathPurpose,
}

pub struct GrantView {
    pub access: SandboxFilesystemAccess,
    pub path: Seq<u8>,
    pub purpose: SandboxPathPurpose,
}

impl View for SandboxPathGrant {
    type V = GrantView;

    open spec fn view(&self) -> GrantView {
        GrantView { access: self.access, path: self.path@, purpose: self.purpose }
    }
}

pub open spec fn grant_views(grants: Seq<SandboxPathGrant>) -> Seq<GrantView> {
    Seq::new(grants.len(), |i: int| grants[i]@)
}

/// A path, and what the host's filesystem says of it.
#[derive(Clone, Debug, PartialEq, Eq)]
pub struct ObservedPath {
    /// What the path resolves to, where it resolves.
    pub canonical: Option<HostPath>,
    pub is_directory: bool,
    pub is_symlink: bool,
    pub path: HostPath,
    /// Why the path cannot be inspected, where it cannot.
    pub unavailable: Option<String>,
}

/// The roots that commands may see, the `PATH` that they inherit, and their private directories.
#[derive(Clone, Debug, PartialEq, Eq)]
pub struct CommandSandboxPolicyConfig {
    pub git_metadata_roots: Vec<ObservedPath>,
    pub inherited_path: Vec<ObservedPath>,
    pub pass_through_roots: Vec<ObservedPath>,
    pub private_home: HostPath,
    pub private_temp: HostPath,
    pub runtime_roots: Vec<ObservedPath>,
    pub toolchain_roots: Vec<ObservedPath>,
    pub workspace: ObservedPath,
}

#[derive(Debug, PartialEq, Eq)]
pub enum CommandSandboxPolicyError {
    RelativePath { name: &'static str, path: HostPath },
    RootExposure { name: &'static str, path: HostPath },
    UnavailablePath { detail: String, name: &'static str, path: HostPath },
    SharedPrivateDirectory,
    PrivateDirectoryShadowed {
        grant: HostPath,
        private_directory: HostPath,
        purpose: SandboxPathPurpose,
    },
}

pub enum PolicyErrorView {
    RelativePath { name: Seq<char>, path: Seq<u8> },
    RootExposure { name: Seq<char>, path: Seq<u8> },
    UnavailablePath { detail: Seq<char>, name: Seq<char>, path: Seq<u8> },
    SharedPrivateDirectory,
    PrivateDirectoryShadowed {
        grant: Seq<u8>,
        private_directory: Seq<u8>,
        purpose: SandboxPathPurpose,
    },
}

impl View for CommandSandboxPolicyError {
    type V = PolicyErrorView;

    open spec fn view(&self) -> PolicyErrorView {
        match self {
            CommandSandboxPolicyError::RelativePath { name, path } =>
                PolicyErrorView::RelativePath { name: name@, path: path@ },
            CommandSandboxPolicyError::RootExposure { name, path } =>
                PolicyErrorView::RootExposure { name: name@, path: path@ },
            CommandSandboxPolicyError::UnavailablePath { detail, name, path } =>
                PolicyErrorView::UnavailablePath { detail: detail@, name: name@, path: path@ },
            CommandSandboxPolicyError::SharedPrivateDirectory =>
                PolicyErrorView::SharedPrivateDirectory,
            CommandSandboxPolicyError::PrivateDirectoryShadowed {
                grant,
                private_directory,
                purpose,
            } => PolicyErrorView::PrivateDirectoryShadowed {
                grant: grant@,
                private_directory: private_directory@,
                purpose: *purpose,
            },
        }
    }
}

impl PolicyErrorView {
    /// The error in words.
    pub open spec fn words(self) -> Seq<char> {
        match self {
            PolicyErrorView::RelativePath { name, path } => name + " path `"@ + readable(path)
                + "` must be absolute"@,
            PolicyErrorView::RootExposure { name, path } => name + " path `"@ + readable(path)
                + "` must not expose the host root"@,
            PolicyErrorView::UnavailablePath { detail, name, path } => name + " path `"@
                + readable(path) + "` is not available: "@ + detail,
            PolicyErrorView::SharedPrivateDirectory =>
                "private home and temporary directories must be distinct"@,
            PolicyErrorView::PrivateDirectoryShadowed { grant, private_directory, purpose } =>
                purpose.spelled() + " grant `"@ + readable(grant)
                    + "` would hide private sandbox directory `"@ + readable(private_directory)
                    + "`"@,
        }
    }
}

impl CommandSandboxPolicyError {
    /// The error in words.
    pub fn describe(&self) -> (words: String)
        ensures
            words@ == self@.words(),
    {
        match self {
            CommandSandboxPolicyError::RelativePath { name, path } => (*name).to_owned().concat(
                " path `",
            ).concat(path.display().as_str()).concat("` must be absolute"),
            CommandSandboxPolicyError::RootExposure { name, path } => (*name).to_owned().concat(
                " path `",
            ).concat(path.display().as_str()).concat("` must not expose the host root"),
            CommandSandboxPolicyError::UnavailablePath { detail, name, path } =>
                (*name).to_owned().concat(" path `").concat(path.display().as_str()).concat(
                "` is not available: ",
            ).concat(detail.as_str()),
            CommandSandboxPolicyError::SharedPrivateDirectory =>
                "private home and temporary directories must be distinct".to_owned(),
            CommandSandboxPolicyError::PrivateDirectoryShadowed {
                grant,
                private_directory,
                purpose,
            } => purpose.name().to_owned().concat(" grant `").concat(
                grant.display().as_str(),
            ).concat("` would hide private sandbox directory `").concat(
                private_directory.display().as_str(),
            ).concat("`"),
        }
    }
}

/// What commands may see.
#[derive(Clone, Debug, PartialEq, Eq)]
pub struct CommandSandboxPolicy {
    executable_path: Vec<HostPath>,
    excluded_path_entries: Vec<HostPath>,
    grants: Vec<SandboxPathGrant>,
    private_home: HostPath,
    private_temp: HostPath,
    workspace: HostPath,
}

pub struct PolicyView {
    pub executable_path: Seq<Seq<u8>>,
    pub excluded_path_entries: Seq<Seq<u8>>,
    pub grants: Seq<GrantView>,
    pub private_home: Seq<u8>,
    pub private_temp: Seq<u8>,
    pub workspace: Seq<u8>,
}

impl View for CommandSandboxPolicy {
    type V = PolicyView;

    closed spec fn view(&self) -> PolicyView {
        PolicyView {
            executable_path: path_views(self.executable_path@),
            excluded_path_entries: path_views(self.excluded_path_entries@),
            grants: grant_views(self.grants@),
            private_home: self.private_home@,
            private_temp: self.private_temp@,
            workspace: self.workspace@,
        }
    }
}

impl CommandSandboxPolicy {
    pub fn executable_path(&self) -> (paths: &[HostPath])
        ensures
            path_views(paths@) == self@.executable_path,
    {
        self.executable_path.as_slice()
    }

    pub fn excluded_path_entries(&self) -> (paths: &[HostPath])
        ensures
            path_views(paths@) == self@.excluded_path_entries,
    {
        self.excluded_path_entries.as_slice()
    }

    pub fn grants(&self) -> (grants: &[SandboxPathGrant])
        ensures
            grant_views(grants@) == self@.grants,
    {
        self.grants.as_slice()
    }

    pub fn private_home(&self) -> (path: &HostPath)
        ensures
            path@ == self@.private_home,
    {
        &self.private_home
    }

    pub fn private_temp(&self) -> (path: &HostPath)
        ensures
            path@ == self@.private_temp,
    {
        &self.private_temp
    }

    pub fn workspace(&self) -> (path: &HostPath)
        ensures
            path@ == self@.workspace,
    {
        &self.workspace
    }
}

/// What is wrong with a path as such: it must be absolute and must not be the root.
pub open spec fn path_fault(name: Seq<char>, path: Seq<u8>) -> Option<PolicyErrorView> {
    if !is_absolute_path(path) {
        Some(PolicyErrorView::RelativePath { name, path })
    } else if !has_body(path) {
        Some(PolicyErrorView::RootExposure { name, path })
    } else {
        None
    }
}

/// What is wrong with a path that must be there.
pub open spec fn available_fault(name: Seq<char>, observed: ObservedPath) -> Option<
    PolicyErrorView,
> {
    match path_fault(name, observed.path@) {
        Some(error) => Some(error),
        None => match observed.unavailable {
            Some(detail) => Some(
                PolicyErrorView::UnavailablePath { detail: detail@, name, path: observed.path@ },
            ),
            None => None,
        },
    }
}

/// What is wrong with a path that must be a directory.
pub open spec fn directory_fault(name: Seq<char>, observed: ObservedPath) -> Option<
    PolicyErrorView,
> {
    match available_fault(name, observed) {
        Some(error) => Some(error),
        None => if observed.is_directory {
            None
        } else {
            Some(
                PolicyErrorView::UnavailablePath {
                    detail: "expected a directory"@,
                    name,
                    path: observed.path@,
                },
            )
        },
    }
}

/// What is wrong with a path that is to be exposed.
pub open spec fn grant_fault(
    name: Seq<char>,
    observed: ObservedPath,
    allow_symlink: bool,
) -> Option<PolicyErrorView> {
    match available_fault(name, observed) {
        Some(error) => Some(error),
        None => if !allow_symlink && observed.is_symlink {
            Some(
                PolicyErrorView::UnavailablePath {
                    detail: "symbolic-link grants are not permitted"@,
                    name,
                    path: observed.path@,
                },
            )
        } else {
            None
        },
    }
}

/// A grant, and what its path resolves to.
pub struct RootView {
    pub canonical: Option<Seq<u8>>,
    pub grant: GrantView,
}

pub open spec fn canonical_view(canonical: Option<HostPath>) -> Option<Seq<u8>> {
    match canonical {
        None => None,
        Some(path) => Some(path@),
    }
}

/// Whether a path is granted already, beside the workspace.
pub open spec fn is_granted(roots: Seq<RootView>, path: Seq<u8>) -> bool {
    exists|i: int|
        0 <= i < roots.len() && #[trigger] roots[i].grant.purpose != SandboxPathPurpose::Workspace
            && same_path(roots[i].grant.path, path)
}

/// The roots with these paths granted as well, each once.
pub open spec fn with_grants(
    roots: Seq<RootView>,
    paths: Seq<ObservedPath>,
    purpose: SandboxPathPurpose,
    name: Seq<char>,
    allow_symlink: bool,
) -> Result<Seq<RootView>, PolicyErrorView>
    decreases paths.len(),
{
    if paths.len() == 0 {
        Ok(roots)
    } else {
        match with_grants(roots, paths.drop_last(), purpose, name, allow_symlink) {
            Err(error) => Err(error),
            Ok(before) => match grant_fault(name, paths.last(), allow_symlink) {
                Some(error) => Err(error),
                None => if is_granted(before, paths.last().path@) {
                    Ok(before)
                } else {
                    Ok(
                        before.push(
                            RootView {
                                canonical: canonical_view(paths.last().canonical),
                                grant: GrantView {
                                    access: SandboxFilesystemAccess::ReadOnly,
                                    path: paths.last().path@,
                                    purpose,
                                },
                            },
                        ),
                    )
                },
            },
        }
    }
}

/// The first root that would hide one of the private directories.
pub open spec fn shadow_fault(roots: Seq<RootView>, home: Seq<u8>, temp: Seq<u8>) -> Option<
    PolicyErrorView,
>
    decreases roots.len(),
{
    if roots.len() == 0 {
        None
    } else {
        match shadow_fault(roots.drop_last(), home, temp) {
            Some(error) => Some(error),
            None => {
                let grant = roots.last().grant;
                if beneath(home, grant.path) {
                    Some(
                        PolicyErrorView::PrivateDirectoryShadowed {
                            grant: grant.path,
                            private_directory: home,
                            purpose: grant.purpose,
                        },
                    )
                } else if beneath(temp, grant.path) {
                    Some(
                        PolicyErrorView::PrivateDirectoryShadowed {
                            grant: grant.path,
                            private_directory: temp,
                            purpose: grant.purpose,
                        },
                    )
                } else {
                    None
                }
            },
        }
    }
}

/// A `PATH` entry is visible where it is an absolute path of a directory that resolves to a place
/// beneath a granted root.
pub open spec fn is_visible(entry: ObservedPath, roots: Seq<RootView>) -> bool {
    &&& is_absolute_path(entry.path@)
    &&& entry.is_directory
    &&& entry.canonical is Some
    &&& exists|i: int|
        0 <= i < roots.len() && #[trigger] roots[i].canonical is Some && beneath(
            entry.canonical->0@,
            roots[i].canonical->0,
        )
}

pub open spec fn holds_path(paths: Seq<Seq<u8>>, path: Seq<u8>) -> bool {
    exists|i: int| 0 <= i < paths.len() && same_path(#[trigger] paths[i], path)
}

/// The `PATH` entries that are visible, each once and in order, and those that are left out.
pub open spec fn divided_path(entries: Seq<ObservedPath>, roots: Seq<RootView>) -> (
    Seq<Seq<u8>>,
    Seq<Seq<u8>>,
)
    decreases entries.len(),
{
    if entries.len() == 0 {
        (Seq::empty(), Seq::empty())
    } else {
        let (included, excluded) = divided_path(entries.drop_last(), roots);
        let entry = entries.last();
        if is_visible(entry, roots) && !holds_path(included, entry.path@) {
            (included.push(entry.path@), excluded)
        } else {
            (included, excluded.push(entry.path@))
        }
    }
}

/// The roots in the order in which they are laid over each other: runtime, toolchains and
/// pass-through roots, the workspace, and the Git metadata over it.
pub open spec fn policy_roots(config: CommandSandboxPolicyConfig) -> Result<
    Seq<RootView>,
    PolicyErrorView,
> {
    match with_grants(
        Seq::empty(),
        config.runtime_roots@,
        SandboxPathPurpose::Runtime,
        "runtime"@,
        true,
    ) {
        Err(error) => Err(error),
        Ok(runtime) => match with_grants(
            runtime,
            config.toolchain_roots@,
            SandboxPathPurpose::Toolchain,
            "toolchain"@,
            false,
        ) {
            Err(error) => Err(error),
            Ok(toolchains) => match with_grants(
                toolchains,
                config.pass_through_roots@,
                SandboxPathPurpose::PassThrough,
                "pass-through"@,
                false,
            ) {
                Err(error) => Err(error),
                Ok(beneath_workspace) => with_grants(
                    beneath_workspace.push(workspace_root(config.workspace)),
                    config.git_metadata_roots@,
                    SandboxPathPurpose::GitMetadata,
                    "Git metadata"@,
                    false,
                ),
            },
        },
    }
}

pub open spec fn workspace_root(workspace: ObservedPath) -> RootView {
    RootView {
        canonical: canonical_view(workspace.canonical),
        grant: GrantView {
            access: SandboxFilesystemAccess::ReadWrite,
            path: workspace.path@,
            purpose: SandboxPathPurpose::Workspace,
        },
    }
}

pub open spec fn grants_of(roots: Seq<RootView>) -> Seq<GrantView> {
    Seq::new(roots.len(), |i: int| roots[i].grant)
}

/// What a configuration comes to: a policy, or the first thing that is wrong with it.
pub open spec fn policy_of(config: CommandSandboxPolicyConfig) -> Result<
    PolicyView,
    PolicyErrorView,
> {
    let home = config.private_home@;
    let temp = config.private_temp@;
    match directory_fault("workspace"@, config.workspace) {
        Some(error) => Err(error),
        None => match path_fault("private home"@, home) {
            Some(error) => Err(error),
            None => match path_fault("private temporary directory"@, temp) {
                Some(error) => Err(error),
                None => if same_path(home, temp) {
                    Err(PolicyErrorView::SharedPrivateDirectory)
                } else {
                    match policy_roots(config) {
                        Err(error) => Err(error),
                        Ok(roots) => match shadow_fault(roots, home, temp) {
                            Some(error) => Err(error),
                            None => {
                                let (included, excluded) = divided_path(
                                    config.inherited_path@,
                                    roots,
                                );
                                if included.len() == 0 {
                                    Err(
                                        PolicyErrorView::UnavailablePath {
                                            detail:
                                                "no inherited PATH entry is beneath a declared filesystem grant"@,
                                            name: "executable PATH"@,
                                            path: encode_utf8("<empty>"@),
                                        },
                                    )
                                } else {
                                    Ok(
                                        PolicyView {
                                            executable_path: included,
                                            excluded_path_entries: excluded,
                                            grants: grants_of(roots),
                                            private_home: home,
                                            private_temp: temp,
                                            workspace: config.workspace.path@,
                                        },
                                    )
                                }
                            },
                        },
                    }
                },
            },
        },
    }
}

/// Whether `outcome` is free of the fault, or is the fault.
pub open spec fn check_outcome(
    outcome: Result<(), CommandSandboxPolicyError>,
    fault: Option<PolicyErrorView>,
) -> bool {
    match fault {
        None => outcome is Ok,
        Some(error) => outcome is Err && outcome->Err_0@ == error,
    }
}

fn validate_absolute_non_root(name: &'static str, path: &HostPath) -> (outcome: Result<
    (),
    CommandSandboxPolicyError,
>)
    ensures
        check_outcome(outcome, path_fault(name@, path@)),
{
    if !path.is_absolute() {
        return Err(CommandSandboxPolicyError::RelativePath { name, path: path.clone() });
    }
    if !path.has_parent() {
        return Err(CommandSandboxPolicyError::RootExposure { name, path: path.clone() });
    }
    Ok(())
}

fn validate_available_path(name: &'static str, observed: &ObservedPath) -> (outcome: Result<
    (),
    CommandSandboxPolicyError,
>)
    ensures
        check_outcome(outcome, available_fault(name@, *observed)),
{
    match validate_absolute_non_root(name, &observed.path) {
        Err(error) => {
            return Err(error);
        },
        Ok(()) => {},
    }
    match &observed.unavailable {
        Some(detail) => Err(
            CommandSandboxPolicyError::UnavailablePath {
                detail: detail.clone(),
                name,
                path: observed.path.clone(),
            },
        ),
        None => Ok(()),
    }
}

fn validate_directory(name: &'static str, observed: &ObservedPath) -> (outcome: Result<
    (),
    CommandSandboxPolicyError,
>)
    ensures
        check_outcome(outcome, directory_fault(name@, *observed)),
{
    match validate_available_path(name, observed) {
        Err(error) => {
            return Err(error);
        },
        Ok(()) => {},
    }
    if !observed.is_directory {
        return Err(
            CommandSandboxPolicyError::UnavailablePath {
                detail: "expected a directory".to_owned(),
                name,
                path: observed.path.clone(),
            },
        );
    }
    Ok(())
}

fn validate_grant(name: &'static str, observed: &ObservedPath, allow_symlink: bool) -> (outcome:
    Result<(), CommandSandboxPolicyError>)
    ensures
        check_outcome(outcome, grant_fault(name@, *observed, allow_symlink)),
{
    match validate_available_path(name, observed) {
        Err(error) => {
            return Err(error);
        },
        Ok(()) => {},
    }
    if !allow_symlink && observed.is_symlink {
        return Err(
            CommandSandboxPolicyError::UnavailablePath {
                detail: "symbolic-link grants are not permitted".to_owned(),
                name,
                path: observed.path.clone(),
            },
        );
    }
    Ok(())
}

/// A grant, and what its path resolves to.
struct GrantedRoot {
    canonical: Option<HostPath>,
    grant: SandboxPathGrant,
}

impl View for GrantedRoot {
    type V = RootView;

    closed spec fn view(&self) -> RootView {
        RootView { canonical: canonical_view(self.canonical), grant: self.grant@ }
    }
}

spec fn root_views(roots: Seq<GrantedRoot>) -> Seq<RootView> {
    Seq::new(roots.len(), |i: int| roots[i]@)
}

fn has_grant(roots: &Vec<GrantedRoot>, path: &HostPath) -> (granted: bool)
    ensures
        granted == is_granted(root_views(roots@), path@),
{
    let ghost views = root_views(roots@);
    let mut index: usize = 0;
    while index < roots.len()
        invariant
            index <= roots@.len(),
            views == root_views(roots@),
            forall|i: int|
                0 <= i < index ==> !(#[trigger] views[i].grant.purpose
                    != SandboxPathPurpose::Workspace && same_path(views[i].grant.path, path@)),
        decreases roots.len() - index,
    {
        let grant = &roots[index].grant;
        assert(views[index as int].grant == grant@);
        if grant.purpose != SandboxPathPurpose::Workspace && grant.path.same(path) {
            assert(views[index as int].grant.purpose != SandboxPathPurpose::Workspace);
            return true;
        }
        index += 1;
    }
    false
}

fn clone_canonical(canonical: &Option<HostPath>) -> (copy: Option<HostPath>)
    ensures
        canonical_view(copy) == canonical_view(*canonical),
{
    match canonical {
        None => None,
        Some(path) => Some(path.clone()),
    }
}

proof fn lemma_first_grant_fault_stays(
    roots: Seq<RootView>,
    paths: Seq<ObservedPath>,
    count: int,
    purpose: SandboxPathPurpose,
    name: Seq<char>,
    allow_symlink: bool,
)
    requires
        0 <= count <= paths.len(),
        with_grants(roots, paths.take(count), purpose, name, allow_symlink) is Err,
    ensures
        with_grants(roots, paths, purpose, name, allow_symlink) == with_grants(
            roots,
            paths.take(count),
            purpose,
            name,
            allow_symlink,
        ),
    decreases paths.len(),
{
    if count == paths.len() {
        assert(paths.take(count) =~= paths);
    } else {
        assert(paths.drop_last().take(count) =~= paths.take(count));
        lemma_first_grant_fault_stays(
            roots,
            paths.drop_last(),
            count,
            purpose,
            name,
            allow_symlink,
        );
    }
}

fn add_grants(
    roots: Vec<GrantedRoot>,
    paths: &Vec<ObservedPath>,
    purpose: SandboxPathPurpose,
    name: &'static str,
    allow_symlink: bool,
) -> (outcome: Result<Vec<GrantedRoot>, CommandSandboxPolicyError>)
    ensures
        match with_grants(root_views(roots@), paths@, purpose, name@, allow_symlink) {
            Ok(views) => outcome is Ok && root_views(outcome->Ok_0@) == views,
            Err(error) => outcome is Err && outcome->Err_0@ == error,
        },
{
    let ghost start = root_views(roots@);
    let mut granted = roots;
    let mut index: usize = 0;
    assert(paths@.take(0) =~= Seq::empty());
    while index < paths.len()
        invariant
            index <= paths@.len(),
            start == root_views(roots@),
            with_grants(start, paths@.take(index as int), purpose, name@, allow_symlink) == Ok::<
                Seq<RootView>,
                PolicyErrorView,
            >(root_views(granted@)),
        decreases paths.len() - index,
    {
        let observed = &paths[index];
        let ghost here = paths@.take(index + 1);
        proof {
            assert(here.drop_last() =~= paths@.take(index as int));
            assert(here.last() == *observed);
        }
        match validate_grant(name, observed, allow_symlink) {
            Err(error) => {
                proof {
                    lemma_first_grant_fault_stays(
                        start,
                        paths@,
                        index + 1,
                        purpose,
                        name@,
                        allow_symlink,
                    );
                }
                return Err(error);
            },
            Ok(()) => {},
        }
        if !has_grant(&granted, &observed.path) {
            let ghost before = root_views(granted@);
            let root = GrantedRoot {
                canonical: clone_canonical(&observed.canonical),
                grant: SandboxPathGrant {
                    access: SandboxFilesystemAccess::ReadOnly,
                    path: observed.path.clone(),
                    purpose,
                },
            };
            granted.push(root);
            assert(root_views(granted@) =~= before.push(root@));
        }
        index += 1;
    }
    assert(paths@.take(paths@.len() as int) =~= paths@);
    Ok(granted)
}

proof fn lemma_first_shadow_stays(roots: Seq<RootView>, count: int, home: Seq<u8>, temp: Seq<u8>)
    requires
        0 <= count <= roots.len(),
        shadow_fault(roots.take(count), home, temp) is Some,
    ensures
        shadow_fault(roots, home, temp) == shadow_fault(roots.take(count), home, temp),
    decreases roots.len(),
{
    if count == roots.len() {
        assert(roots.take(count) =~= roots);
    } else {
        assert(roots.drop_last().take(count) =~= roots.take(count));
        lemma_first_shadow_stays(roots.drop_last(), count, home, temp);
    }
}

fn validate_private_directories(
    roots: &Vec<GrantedRoot>,
    private_home: &HostPath,
    private_temp: &HostPath,
) -> (outcome: Result<(), CommandSandboxPolicyError>)
    ensures
        check_outcome(
            outcome,
            shadow_fault(root_views(roots@), private_home@, private_temp@),
        ),
{
    let ghost views = root_views(roots@);
    let mut index: usize = 0;
    assert(views.take(0) =~= Seq::empty());
    while index < roots.len()
        invariant
            index <= roots@.len(),
            views == root_views(roots@),
            shadow_fault(views.take(index as int), private_home@, private_temp@) is None,
        decreases roots.len() - index,
    {
        let grant = &roots[index].grant;
        let ghost here = views.take(index + 1);
        proof {
            assert(here.drop_last() =~= views.take(index as int));
            assert(here.last().grant == grant@);
            if shadow_fault(here, private_home@, private_temp@) is Some {
                lemma_first_shadow_stays(views, index + 1, private_home@, private_temp@);
            }
        }
        if private_home.starts_with(&grant.path) {
            return Err(
                CommandSandboxPolicyError::PrivateDirectoryShadowed {
                    grant: grant.path.clone(),
                    private_directory: private_home.clone(),
                    purpose: grant.purpose,
                },
            );
        }
        if private_temp.starts_with(&grant.path) {
            return Err(
                CommandSandboxPolicyError::PrivateDirectoryShadowed {
                    grant: grant.path.clone(),
                    private_directory: private_temp.clone(),
                    purpose: grant.purpose,
                },
            );
        }
        index += 1;
    }
    assert(views.take(views.len() as int) =~= views);
    Ok(())
}

fn entry_is_visible(entry: &ObservedPath, roots: &Vec<GrantedRoot>) -> (visible: bool)
    ensures
        visible == is_visible(*entry, root_views(roots@)),
{
    if !entry.path.is_absolute() || !entry.is_directory {
        return false;
    }
    let canonical_entry = match &entry.canonical {
        None => {
            return false;
        },
        Some(canonical) => canonical,
    };
    let ghost views = root_views(roots@);
    let mut index: usize = 0;
    while index < roots.len()
        invariant
            index <= roots@.len(),
            views == root_views(roots@),
            is_absolute_path(entry.path@),
            entry.is_directory,
            entry.canonical == Some(*canonical_entry),
            forall|i: int|
                0 <= i < index ==> !(#[trigger] views[i].canonical is Some && beneath(
                    canonical_entry@,
                    views[i].canonical->0,
                )),
        decreases roots.len() - index,
    {
        assert(views[index as int].canonical == canonical_view(roots@[index as int].canonical));
        if let Some(canonical_root) = &roots[index].canonical {
            if canonical_entry.starts_with(canonical_root) {
                assert(views[index as int].canonical is Some);
                return true;
            }
        }
        index += 1;
    }
    false
}

fn lists_path(paths: &Vec<HostPath>, path: &HostPath) -> (listed: bool)
    ensures
        listed == holds_path(path_views(paths@), path@),
{
    let ghost views = path_views(paths@);
    let mut index: usize = 0;
    while index < paths.len()
        invariant
            index <= paths@.len(),
            views == path_views(paths@),
            forall|i: int| 0 <= i < index ==> !same_path(#[trigger] views[i], path@),
        decreases paths.len() - index,
    {
        assert(views[index as int] == paths@[index as int]@);
        if paths[index].same(path) {
            return true;
        }
        index += 1;
    }
    false
}

fn filter_executable_path(entries: &Vec<ObservedPath>, roots: &Vec<GrantedRoot>) -> (divided: (
    Vec<HostPath>,
    Vec<HostPath>,
))
    ensures
        (path_views(divided.0@), path_views(divided.1@)) == divided_path(
            entries@,
            root_views(roots@),
        ),
{
    let ghost views = root_views(roots@);
    let mut included: Vec<HostPath> = Vec::new();
    let mut excluded: Vec<HostPath> = Vec::new();
    let mut index: usize = 0;
    proof {
        assert(entries@.take(0) =~= Seq::empty());
        assert(path_views(included@) =~= Seq::empty());
        assert(path_views(excluded@) =~= Seq::empty());
    }
    while index < entries.len()
        invariant
            index <= entries@.len(),
            views == root_views(roots@),
            (path_views(included@), path_views(excluded@)) == divided_path(
                entries@.take(index as int),
                views,
            ),
        decreases entries.len() - index,
    {
        let entry = &entries[index];
        let ghost before_included = path_views(included@);
        let ghost before_excluded = path_views(excluded@);
        proof {
            let here = entries@.take(index + 1);
            assert(here.drop_last() =~= entries@.take(index as int));
            assert(here.last() == *entry);
        }
        if entry_is_visible(entry, roots) && !lists_path(&included, &entry.path) {
            included.push(entry.path.clone());
            assert(path_views(included@) =~= before_included.push(entry.path@));
        } else {
            excluded.push(entry.path.clone());
            assert(path_views(excluded@) =~= before_excluded.push(entry.path@));
        }
        index += 1;
    }
    assert(entries@.take(entries@.len() as int) =~= entries@);
    (included, excluded)
}

fn collect_roots(config: &CommandSandboxPolicyConfig) -> (outcome: Result<
    Vec<GrantedRoot>,
    CommandSandboxPolicyError,
>)
    ensures
        match policy_roots(*config) {
            Ok(views) => outcome is Ok && root_views(outcome->Ok_0@) == views,
            Err(error) => outcome is Err && outcome->Err_0@ == error,
        },
{
    let none: Vec<GrantedRoot> = Vec::new();
    assert(root_views(none@) =~= Seq::empty());
    let runtime = match add_grants(
        none,
        &config.runtime_roots,
        SandboxPathPurpose::Runtime,
        "runtime",
        true,
    ) {
        Err(error) => {
            return Err(error);
        },
        Ok(roots) => roots,
    };
    let toolchains = match add_grants(
        runtime,
        &config.toolchain_roots,
        SandboxPathPurpose::Toolchain,
        "toolchain",
        false,
    ) {
        Err(error) => {
            return Err(error);
        },
        Ok(roots) => roots,
    };
    let mut roots = match add_grants(
        toolchains,
        &config.pass_through_roots,
        SandboxPathPurpose::PassThrough,
        "pass-through",
        false,
    ) {
        Err(error) => {
            return Err(error);
        },
        Ok(roots) => roots,
    };
    let ghost before = root_views(roots@);
    let workspace = GrantedRoot {
        canonical: clone_canonical(&config.workspace.canonical),
        grant: SandboxPathGrant {
            access: SandboxFilesystemAccess::ReadWrite,
            path: config.workspace.path.clone(),
            purpose: SandboxPathPurpose::Workspace,
        },
    };
    roots.push(workspace);
    assert(root_views(roots@) =~= before.push(workspace_root(config.workspace)));
    add_grants(
        roots,
        &config.git_metadata_roots,
        SandboxPathPurpose::GitMetadata,
        "Git metadata",
        false,
    )
}

fn take_grants(roots: Vec<GrantedRoot>) -> (grants: Vec<SandboxPathGrant>)
    ensures
        grant_views(grants@) == grants_of(root_views(roots@)),
{
    let ghost all = roots@;
    let mut grants: Vec<SandboxPathGrant> = Vec::new();
    for root in iterator: roots
        invariant
            iterator.seq() == all,
            grants@.len() == iterator.index(),
            forall|i: int| 0 <= i < grants@.len() ==> grants@[i]@ == all[i].grant@,
    {
        grants.push(root.grant);
    }
    assert(grant_views(grants@) =~= grants_of(root_views(all)));
    grants
}

/// Builds the policy that a configuration asks for, or says what is wrong with it.
pub fn build_command_sandbox_policy(config: CommandSandboxPolicyConfig) -> (outcome: Result<
    CommandSandboxPolicy,
    CommandSandboxPolicyError,
>)
    ensures
        match policy_of(config) {
            Ok(policy) => outcome is Ok && outcome->Ok_0@ == policy,
            Err(error) => outcome is Err && outcome->Err_0@ == error,
        },
{
    match validate_directory("workspace", &config.workspace) {
        Err(error) => {
            return Err(error);
        },
        Ok(()) => {},
    }
    match validate_absolute_non_root("private home", &config.private_home) {
        Err(error) => {
            return Err(error);
        },
        Ok(()) => {},
    }
    match validate_absolute_non_root("private temporary directory", &config.private_temp) {
        Err(error) => {
            return Err(error);
        },
        Ok(()) => {},
    }
    if config.private_home.same(&config.private_temp) {
        return Err(CommandSandboxPolicyError::SharedPrivateDirectory);
    }
    let roots = match collect_roots(&config) {
        Err(error) => {
            return Err(error);
        },
        Ok(roots) => roots,
    };
    match validate_private_directories(&roots, &config.private_home, &config.private_temp) {
        Err(error) => {
            return Err(error);
        },
        Ok(()) => {},
    }
    let (executable_path, excluded_path_entries) = filter_executable_path(
        &config.inherited_path,
        &roots,
    );
    if executable_path.len() == 0 {
        return Err(
            CommandSandboxPolicyError::UnavailablePath {
                detail: "no inherited PATH entry is beneath a declared filesystem grant".to_owned(),
                name: "executable PATH",
                path: HostPath::from_text("<empty>"),
            },
        );
    }
    let grants = take_grants(roots);
    Ok(
        CommandSandboxPolicy {
            executable_path,
            excluded_path_entries,
            grants,
            private_home: config.private_home,
            private_temp: config.private_temp,
            workspace: config.workspace.path,
        },
    )
}

/// The roots that granting adds come after those that were there, are read-only and have the
/// purpose that they were granted for; their paths are absolute and none is the host's root.
proof fn lemma_grants_added(
    roots: Seq<RootView>,
    paths: Seq<ObservedPath>,
    purpose: SandboxPathPurpose,
    name: Seq<char>,
    allow_symlink: bool,
)
    requires
        with_grants(roots, paths, purpose, name, allow_symlink) is Ok,
    ensures
        ({
            let granted = with_grants(roots, paths, purpose, name, allow_symlink)->Ok_0;
            &&& roots.len() <= granted.len()
            &&& forall|i: int| 0 <= i < roots.len() ==> granted[i] == roots[i]
            &&& forall|i: int|
                roots.len() <= i < granted.len() ==> {
                    let grant = (#[trigger] granted[i]).grant;
                    &&& grant.purpose == purpose
                    &&& grant.access == SandboxFilesystemAccess::ReadOnly
                    &&& is_absolute_path(grant.path)
                    &&& has_body(grant.path)
                }
        }),
    decreases paths.len(),
{
    if paths.len() > 0 {
        lemma_grants_added(roots, paths.drop_last(), purpose, name, allow_symlink);
    }
}

/// The grants are laid over each other in this order, with the workspace at `at`: what comes
/// before it is read-only and neither the workspace nor Git metadata, and what comes after it is
/// Git metadata, read-only.
pub open spec fn is_layered(grants: Seq<GrantView>, workspace: GrantView, at: int) -> bool {
    &&& 0 <= at < grants.len()
    &&& grants[at] == workspace
    &&& forall|i: int|
        0 <= i < at ==> (#[trigger] grants[i]).access == SandboxFilesystemAccess::ReadOnly
            && grants[i].purpose != SandboxPathPurpose::Workspace && grants[i].purpose
            != SandboxPathPurpose::GitMetadata
    &&& forall|i: int|
        at < i < grants.len() ==> (#[trigger] grants[i]).access
            == SandboxFilesystemAccess::ReadOnly && grants[i].purpose
            == SandboxPathPurpose::GitMetadata
}

/// Every grant is an absolute path that names something besides the root.
pub open spec fn are_rooted(grants: Seq<GrantView>) -> bool {
    forall|i: int|
        0 <= i < grants.len() ==> is_absolute_path((#[trigger] grants[i]).path) && has_body(
            grants[i].path,
        )
}

proof fn lemma_layers_before_workspace(config: CommandSandboxPolicyConfig) -> (before: Seq<RootView>)
    requires
        policy_roots(config) is Ok,
    ensures
        policy_roots(config) == with_grants(
            before.push(workspace_root(config.workspace)),
            config.git_metadata_roots@,
            SandboxPathPurpose::GitMetadata,
            "Git metadata"@,
            false,
        ),
        forall|i: int|
            0 <= i < before.len() ==> {
                let grant = (#[trigger] before[i]).grant;
                &&& grant.access == SandboxFilesystemAccess::ReadOnly
                &&& grant.purpose != SandboxPathPurpose::Workspace
                &&& grant.purpose != SandboxPathPurpose::GitMetadata
                &&& is_absolute_path(grant.path)
                &&& has_body(grant.path)
            },
{
    let runtime = with_grants(
        Seq::empty(),
        config.runtime_roots@,
        SandboxPathPurpose::Runtime,
        "runtime"@,
        true,
    )->Ok_0;
    let toolchains = with_grants(
        runtime,
        config.toolchain_roots@,
        SandboxPathPurpose::Toolchain,
        "toolchain"@,
        false,
    )->Ok_0;
    let before = with_grants(
        toolchains,
        config.pass_through_roots@,
        SandboxPathPurpose::PassThrough,
        "pass-through"@,
        false,
    )->Ok_0;
    lemma_grants_added(
        Seq::empty(),
        config.runtime_roots@,
        SandboxPathPurpose::Runtime,
        "runtime"@,
        true,
    );
    lemma_grants_added(
        runtime,
        config.toolchain_roots@,
        SandboxPathPurpose::Toolchain,
        "toolchain"@,
        false,
    );
    lemma_grants_added(
        toolchains,
        config.pass_through_roots@,
        SandboxPathPurpose::PassThrough,
        "pass-through"@,
        false,
    );
    assert forall|i: int| 0 <= i < before.len() implies {
        let grant = (#[trigger] before[i]).grant;
        &&& grant.access == SandboxFilesystemAccess::ReadOnly
        &&& grant.purpose != SandboxPathPurpose::Workspace
        &&& grant.purpose != SandboxPathPurpose::GitMetadata
        &&& is_absolute_path(grant.path)
        &&& has_body(grant.path)
    } by {
        if i < toolchains.len() {
            assert(before[i] == toolchains[i]);
            if i < runtime.len() {
                assert(toolchains[i] == runtime[i]);
            }
        }
    }
    before
}

/// Commands may write to the workspace and nowhere else, the workspace lies over the roots before
/// it, and the Git metadata lies read-only over the workspace. No grant exposes the host's root.
pub proof fn policies_are_layered(config: CommandSandboxPolicyConfig)
    requires
        policy_of(config) is Ok,
    ensures
        exists|at: int| #[trigger]
            is_layered(
                policy_of(config)->Ok_0.grants,
                workspace_root(config.workspace).grant,
                at,
            ),
        are_rooted(policy_of(config)->Ok_0.grants),
{
    let roots = policy_roots(config)->Ok_0;
    let grants = grants_of(roots);
    let before = lemma_layers_before_workspace(config);
    let start = before.push(workspace_root(config.workspace));
    lemma_grants_added(
        start,
        config.git_metadata_roots@,
        SandboxPathPurpose::GitMetadata,
        "Git metadata"@,
        false,
    );
    assert forall|i: int| 0 <= i < grants.len() implies #[trigger] grants[i] == roots[i].grant
        && (i < start.len() ==> roots[i] == start[i]) by {}
    assert(is_layered(grants, workspace_root(config.workspace).grant, before.len() as int));
    assert(are_rooted(grants));
    assert(policy_of(config)->Ok_0.grants == grants);
}

/// No grant of a policy hides a private directory.
pub proof fn private_directories_stay_private(config: CommandSandboxPolicyConfig, at: int)
    requires
        policy_of(config) is Ok,
        0 <= at < policy_of(config)->Ok_0.grants.len(),
    ensures
        !beneath(config.private_home@, policy_of(config)->Ok_0.grants[at].path),
        !beneath(config.private_temp@, policy_of(config)->Ok_0.grants[at].path),
{
    let roots = policy_roots(config)->Ok_0;
    assert(policy_of(config)->Ok_0.grants[at] == roots[at].grant);
    lemma_no_shadow(roots, at, config.private_home@, config.private_temp@);
}

proof fn lemma_no_shadow(roots: Seq<RootView>, at: int, home: Seq<u8>, temp: Seq<u8>)
    requires
        shadow_fault(roots, home, temp) is None,
        0 <= at < roots.len(),
    ensures
        !beneath(home, roots[at].grant.path),
        !beneath(temp, roots[at].grant.path),
    decreases roots.len(),
{
    if at < roots.len() - 1 {
        lemma_no_shadow(roots.drop_last(), at, home, temp);
    }
}

/// Every entry of the command's `PATH` resolves to a place beneath a granted root, and comes from
/// the inherited `PATH`.
pub proof fn executables_come_from_granted_roots(
    entries: Seq<ObservedPath>,
    roots: Seq<RootView>,
    at: int,
)
    requires
        0 <= at < divided_path(entries, roots).0.len(),
    ensures
        exists|i: int|
            0 <= i < entries.len() && #[trigger] is_visible(entries[i], roots)
                && entries[i].path@ == divided_path(entries, roots).0[at],
    decreases entries.len(),
{
    let (included, excluded) = divided_path(entries.drop_last(), roots);
    if at < included.len() {
        executables_come_from_granted_roots(entries.drop_last(), roots, at);
        let i = choose|i: int|
            0 <= i < entries.drop_last().len() && #[trigger] is_visible(
                entries.drop_last()[i],
                roots,
            ) && entries.drop_last()[i].path@ == included[at];
        assert(is_visible(entries[i], roots));
    } else {
        assert(is_visible(entries[entries.len() - 1], roots));
    }
}

/// A visible entry with this path comes among the first `count`.
pub open spec fn comes_before(
    entries: Seq<ObservedPath>,
    roots: Seq<RootView>,
    count: int,
    path: Seq<u8>,
) -> bool {
    exists|j: int|
        0 <= j < count && #[trigger] is_visible(entries[j], roots) && same_path(
            entries[j].path@,
            path,
        )
}

/// Whether the entry at `at` belongs to the command's `PATH`: it is visible, and no entry before
/// it is visible under the same path.
pub open spec fn belongs(entries: Seq<ObservedPath>, roots: Seq<RootView>, at: int) -> bool {
    is_visible(entries[at], roots) && !comes_before(entries, roots, at, entries[at].path@)
}

/// The paths are those of the entries at these places, which come one after the other.
pub open spec fn picks(entries: Seq<ObservedPath>, places: Seq<int>, paths: Seq<Seq<u8>>) -> bool {
    &&& places.len() == paths.len()
    &&& forall|k: int|
        0 <= k < places.len() ==> 0 <= #[trigger] places[k] < entries.len() && paths[k]
            == entries[places[k]].path@
    &&& forall|k: int, l: int|
        0 <= k < l < places.len() ==> #[trigger] places[k] < #[trigger] places[l]
}

proof fn lemma_held_where_visible(entries: Seq<ObservedPath>, roots: Seq<RootView>, path: Seq<u8>)
    ensures
        holds_path(divided_path(entries, roots).0, path) <==> comes_before(
            entries,
            roots,
            entries.len() as int,
            path,
        ),
    decreases entries.len(),
{
    if entries.len() > 0 {
        let shorter = entries.drop_last();
        let entry = entries.last();
        let (before, _) = divided_path(shorter, roots);
        let (after, _) = divided_path(entries, roots);
        lemma_held_where_visible(shorter, roots, path);
        lemma_held_where_visible(shorter, roots, entry.path@);
        assert(entries[entries.len() - 1] == entry);
        if comes_before(shorter, roots, shorter.len() as int, path) {
            let j = choose|j: int|
                0 <= j < shorter.len() && #[trigger] is_visible(shorter[j], roots) && same_path(
                    shorter[j].path@,
                    path,
                );
            assert(is_visible(entries[j], roots));
        }
        if holds_path(before, path) {
            let i = choose|i: int| 0 <= i < before.len() && same_path(#[trigger] before[i], path);
            assert(after[i] == before[i]);
        }
        if holds_path(after, path) && !holds_path(before, path) {
            let i = choose|i: int| 0 <= i < after.len() && same_path(#[trigger] after[i], path);
            assert(i == before.len());
            assert(is_visible(entries[entries.len() - 1], roots));
        }
        if comes_before(entries, roots, entries.len() as int, path) && !comes_before(
            shorter,
            roots,
            shorter.len() as int,
            path,
        ) {
            let j = choose|j: int|
                0 <= j < entries.len() && #[trigger] is_visible(entries[j], roots) && same_path(
                    entries[j].path@,
                    path,
                );
            if j < shorter.len() {
                assert(is_visible(shorter[j], roots));
            }
            assert(j == shorter.len());
            if holds_path(before, entry.path@) {
                let i = choose|i: int|
                    0 <= i < before.len() && same_path(#[trigger] before[i], entry.path@);
                assert(same_path(before[i], path));
            } else {
                assert(after[before.len() as int] == entry.path@);
            }
        }
    }
}

/// The places of the entries that belong to the command's `PATH`, and of the others.
spec fn places(entries: Seq<ObservedPath>, roots: Seq<RootView>, included: bool) -> Seq<int>
    decreases entries.len(),
{
    if entries.len() == 0 {
        Seq::empty()
    } else {
        let before = places(entries.drop_last(), roots, included);
        if belongs(entries, roots, entries.len() - 1) == included {
            before.push(entries.len() - 1)
        } else {
            before
        }
    }
}

proof fn lemma_belongs_in_longer(entries: Seq<ObservedPath>, roots: Seq<RootView>, at: int)
    requires
        0 <= at < entries.len() - 1,
    ensures
        belongs(entries, roots, at) == belongs(entries.drop_last(), roots, at),
{
    let shorter = entries.drop_last();
    let path = entries[at].path@;
    assert(shorter[at] == entries[at]);
    if comes_before(entries, roots, at, path) {
        let j = choose|j: int|
            0 <= j < at && #[trigger] is_visible(entries[j], roots) && same_path(
                entries[j].path@,
                path,
            );
        assert(is_visible(shorter[j], roots));
    }
    if comes_before(shorter, roots, at, path) {
        let j = choose|j: int|
            0 <= j < at && #[trigger] is_visible(shorter[j], roots) && same_path(
                shorter[j].path@,
                path,
            );
        assert(is_visible(entries[j], roots));
    }
}

proof fn lemma_places(entries: Seq<ObservedPath>, roots: Seq<RootView>, included: bool)
    ensures
        ({
            let found = places(entries, roots, included);
            let paths = if included {
                divided_path(entries, roots).0
            } else {
                divided_path(entries, roots).1
            };
            &&& picks(entries, found, paths)
            &&& forall|i: int|
                0 <= i < entries.len() ==> (#[trigger] belongs(entries, roots, i) == included
                    <==> found.contains(i))
        }),
    decreases entries.len(),
{
    if entries.len() > 0 {
        let shorter = entries.drop_last();
        let last = entries.len() - 1;
        let before = places(shorter, roots, included);
        let found = places(entries, roots, included);
        let entry = entries.last();
        lemma_places(shorter, roots, included);
        lemma_held_where_visible(shorter, roots, entry.path@);
        if comes_before(shorter, roots, last, entry.path@) {
            let j = choose|j: int|
                0 <= j < last && #[trigger] is_visible(shorter[j], roots) && same_path(
                    shorter[j].path@,
                    entry.path@,
                );
            assert(is_visible(entries[j], roots));
        }
        if comes_before(entries, roots, last, entry.path@) {
            let j = choose|j: int|
                0 <= j < last && #[trigger] is_visible(entries[j], roots) && same_path(
                    entries[j].path@,
                    entry.path@,
                );
            assert(is_visible(shorter[j], roots));
        }
        assert forall|k: int| 0 <= k < before.len() implies before[k] == #[trigger] found[k] by {}
        assert forall|i: int| 0 <= i < entries.len() implies (#[trigger] belongs(entries, roots, i)
            == included <==> found.contains(i)) by {
            if i < last {
                lemma_belongs_in_longer(entries, roots, i);
                assert(belongs(shorter, roots, i) == included <==> before.contains(i));
                if before.contains(i) {
                    let k = choose|k: int| 0 <= k < before.len() && before[k] == i;
                    assert(found[k] == i);
                }
                if found.contains(i) {
                    let k = choose|k: int| 0 <= k < found.len() && found[k] == i;
                    assert(k < before.len());
                    assert(before[k] == i);
                }
            } else {
                if found.contains(i) {
                    let k = choose|k: int| 0 <= k < found.len() && found[k] == i;
                    if k < before.len() {
                        assert(before[k] == i);
                    }
                }
                if belongs(entries, roots, i) == included {
                    assert(found[found.len() - 1] == i);
                }
            }
        }
    }
}

/// The inherited `PATH` is divided without loss: an entry that belongs to the command's `PATH` is
/// kept there, every other one is listed as excluded, and both lists keep the inherited order.
pub proof fn inherited_paths_are_divided(entries: Seq<ObservedPath>, roots: Seq<RootView>)
    ensures
        exists|kept: Seq<int>, left: Seq<int>| #[trigger]
            picks(entries, kept, divided_path(entries, roots).0) && #[trigger] picks(
                entries,
                left,
                divided_path(entries, roots).1,
            ) && forall|i: int|
                0 <= i < entries.len() ==> if #[trigger] belongs(entries, roots, i) {
                    kept.contains(i) && !left.contains(i)
                } else {
                    left.contains(i) && !kept.contains(i)
                },
{
    lemma_places(entries, roots, true);
    lemma_places(entries, roots, false);
    let kept = places(entries, roots, true);
    let left = places(entries, roots, false);
    assert(picks(entries, kept, divided_path(entries, roots).0));
    assert(picks(entries, left, divided_path(entries, roots).1));
}

/// Every visible entry is found in the command's `PATH`, and an entry is excluded only where it is
/// not visible or stands there already.
pub proof fn visible_entries_are_kept(entries: Seq<ObservedPath>, roots: Seq<RootView>, at: int)
    requires
        0 <= at < entries.len(),
        is_visible(entries[at], roots),
    ensures
        exists|k: int|
            0 <= k < divided_path(entries, roots).0.len() && same_path(
                #[trigger] divided_path(entries, roots).0[k],
                entries[at].path@,
            ),
{
    lemma_held_where_visible(entries, roots, entries[at].path@);
    assert(comes_before(entries, roots, entries.len() as int, entries[at].path@));
}

/// A path is exposed read-only among the grants, under a purpose other than the workspace's.
pub open spec fn is_exposed(grants: Seq<GrantView>, path: Seq<u8>) -> bool {
    exists|i: int|
        0 <= i < grants.len() && same_path((#[trigger] grants[i]).path, path) && grants[i].access
            == SandboxFilesystemAccess::ReadOnly && grants[i].purpose
            != SandboxPathPurpose::Workspace
}

/// What granting comes to: what was there stays in front, every path is granted, and what is added
/// is one of the paths, in their order, under the given purpose, and no path twice.
proof fn lemma_granted_all(
    roots: Seq<RootView>,
    paths: Seq<ObservedPath>,
    purpose: SandboxPathPurpose,
    name: Seq<char>,
    allow_symlink: bool,
)
    requires
        with_grants(roots, paths, purpose, name, allow_symlink) is Ok,
        purpose != SandboxPathPurpose::Workspace,
    ensures
        ({
            let granted = with_grants(roots, paths, purpose, name, allow_symlink)->Ok_0;
            &&& forall|i: int|
                0 <= i < paths.len() ==> is_granted(granted, (#[trigger] paths[i]).path@)
            &&& forall|k: int|
                roots.len() <= k < granted.len() ==> exists|i: int|
                    0 <= i < paths.len() && is_root_of(
                        #[trigger] granted[k],
                        #[trigger] paths[i],
                        purpose,
                    )
            &&& forall|i: int|
                0 <= i < paths.len() ==> root_is_fit(#[trigger] paths[i], allow_symlink)
        }),
    decreases paths.len(),
{
    if paths.len() > 0 {
        let shorter = paths.drop_last();
        let before = with_grants(roots, shorter, purpose, name, allow_symlink)->Ok_0;
        let granted = with_grants(roots, paths, purpose, name, allow_symlink)->Ok_0;
        lemma_body_is_components(paths.last().path@);
        lemma_granted_all(roots, shorter, purpose, name, allow_symlink);
        lemma_grants_added(roots, shorter, purpose, name, allow_symlink);
        assert forall|i: int| 0 <= i < paths.len() implies is_granted(
            granted,
            (#[trigger] paths[i]).path@,
        ) by {
            if i < shorter.len() {
                assert(shorter[i] == paths[i]);
                lemma_granted_stays(before, granted, paths[i].path@);
            } else if is_granted(before, paths[i].path@) {
                lemma_granted_stays(before, granted, paths[i].path@);
            } else {
                assert(granted[before.len() as int].grant.purpose
                    != SandboxPathPurpose::Workspace);
            }
        }
        assert forall|k: int| roots.len() <= k < granted.len() implies exists|i: int|
            0 <= i < paths.len() && is_root_of(
                #[trigger] granted[k],
                #[trigger] paths[i],
                purpose,
            ) by {
            if k < before.len() {
                assert(granted[k] == before[k]);
                let i = choose|i: int|
                    0 <= i < shorter.len() && is_root_of(
                        before[k],
                        #[trigger] shorter[i],
                        purpose,
                    );
                assert(is_root_of(granted[k], paths[i], purpose));
            } else {
                assert(is_root_of(granted[k], paths[paths.len() - 1], purpose));
            }
        }
        assert forall|i: int| 0 <= i < paths.len() implies root_is_fit(
            #[trigger] paths[i],
            allow_symlink,
        ) by {
            if i < shorter.len() {
                assert(root_is_fit(shorter[i], allow_symlink));
            }
        }
    }
}

proof fn lemma_granted_stays(before: Seq<RootView>, after: Seq<RootView>, path: Seq<u8>)
    requires
        is_granted(before, path),
        before.len() <= after.len(),
        forall|i: int| 0 <= i < before.len() ==> after[i] == before[i],
    ensures
        is_granted(after, path),
{
    let i = choose|i: int|
        0 <= i < before.len() && #[trigger] before[i].grant.purpose
            != SandboxPathPurpose::Workspace && same_path(before[i].grant.path, path);
    assert(after[i].grant.purpose != SandboxPathPurpose::Workspace);
}

/// The root stands for what was observed: the same path, read-only, with this purpose, and
/// resolved as it was observed.
pub open spec fn is_root_of(
    root: RootView,
    observed: ObservedPath,
    purpose: SandboxPathPurpose,
) -> bool {
    &&& root.grant == (GrantView {
        access: SandboxFilesystemAccess::ReadOnly,
        path: observed.path@,
        purpose,
    })
    &&& root.canonical == match observed.canonical {
        None => None,
        Some(path) => Some(path@),
    }
}

/// A path can be exposed where it is absolute, is not the root, is there, and is no symbolic link
/// unless links are allowed.
pub open spec fn root_is_fit(observed: ObservedPath, allow_symlink: bool) -> bool {
    &&& is_absolute_path(observed.path@)
    &&& components_of(observed.path@).len() > 0
    &&& observed.unavailable is None
    &&& allow_symlink || !observed.is_symlink
}

/// The roots behind a policy, layer by layer.
spec fn runtime_layer(config: CommandSandboxPolicyConfig) -> Result<Seq<RootView>, PolicyErrorView> {
    with_grants(
        Seq::empty(),
        config.runtime_roots@,
        SandboxPathPurpose::Runtime,
        "runtime"@,
        true,
    )
}

spec fn toolchain_layer(config: CommandSandboxPolicyConfig) -> Result<
    Seq<RootView>,
    PolicyErrorView,
> {
    with_grants(
        runtime_layer(config)->Ok_0,
        config.toolchain_roots@,
        SandboxPathPurpose::Toolchain,
        "toolchain"@,
        false,
    )
}

spec fn pass_through_layer(config: CommandSandboxPolicyConfig) -> Result<
    Seq<RootView>,
    PolicyErrorView,
> {
    with_grants(
        toolchain_layer(config)->Ok_0,
        config.pass_through_roots@,
        SandboxPathPurpose::PassThrough,
        "pass-through"@,
        false,
    )
}

/// The layers of a policy that is there.
proof fn lemma_layers(config: CommandSandboxPolicyConfig)
    requires
        policy_roots(config) is Ok,
    ensures
        ({
            let runtime = runtime_layer(config)->Ok_0;
            let toolchains = toolchain_layer(config)->Ok_0;
            let below = pass_through_layer(config)->Ok_0;
            let all = policy_roots(config)->Ok_0;
            &&& runtime_layer(config) is Ok
            &&& toolchain_layer(config) is Ok
            &&& pass_through_layer(config) is Ok
            &&& runtime.len() <= toolchains.len() <= below.len() < all.len()
            &&& forall|i: int| 0 <= i < runtime.len() ==> runtime[i] == all[i]
            &&& forall|i: int| 0 <= i < toolchains.len() ==> toolchains[i] == all[i]
            &&& forall|i: int| 0 <= i < below.len() ==> below[i] == all[i]
            &&& all[below.len() as int] == workspace_root(config.workspace)
        }),
{
    let runtime = runtime_layer(config)->Ok_0;
    let toolchains = toolchain_layer(config)->Ok_0;
    let below = pass_through_layer(config)->Ok_0;
    lemma_grants_added(
        Seq::empty(),
        config.runtime_roots@,
        SandboxPathPurpose::Runtime,
        "runtime"@,
        true,
    );
    lemma_grants_added(
        runtime,
        config.toolchain_roots@,
        SandboxPathPurpose::Toolchain,
        "toolchain"@,
        false,
    );
    lemma_grants_added(
        toolchains,
        config.pass_through_roots@,
        SandboxPathPurpose::PassThrough,
        "pass-through"@,
        false,
    );
    let start = below.push(workspace_root(config.workspace));
    lemma_grants_added(
        start,
        config.git_metadata_roots@,
        SandboxPathPurpose::GitMetadata,
        "Git metadata"@,
        false,
    );
    let all = policy_roots(config)->Ok_0;
    assert forall|i: int| 0 <= i < below.len() implies below[i] == all[i] by {
        assert(start[i] == below[i]);
    }
    assert(start[below.len() as int] == all[below.len() as int]);
}

proof fn lemma_exposed(roots: Seq<RootView>, path: Seq<u8>)
    requires
        is_granted(roots, path),
        forall|i: int|
            0 <= i < roots.len() && (#[trigger] roots[i]).grant.purpose
                != SandboxPathPurpose::Workspace ==> roots[i].grant.access
                == SandboxFilesystemAccess::ReadOnly,
    ensures
        is_exposed(grants_of(roots), path),
{
    let i = choose|i: int|
        0 <= i < roots.len() && #[trigger] roots[i].grant.purpose != SandboxPathPurpose::Workspace
            && same_path(roots[i].grant.path, path);
    assert(grants_of(roots)[i] == roots[i].grant);
}

proof fn lemma_all_read_only(config: CommandSandboxPolicyConfig)
    requires
        policy_of(config) is Ok,
    ensures
        forall|i: int|
            0 <= i < policy_roots(config)->Ok_0.len() && (#[trigger] policy_roots(
                config,
            )->Ok_0[i]).grant.purpose != SandboxPathPurpose::Workspace ==> policy_roots(
                config,
            )->Ok_0[i].grant.access == SandboxFilesystemAccess::ReadOnly,
{
    let roots = policy_roots(config)->Ok_0;
    policies_are_layered(config);
    let at = choose|at: int| #[trigger]
        is_layered(
            policy_of(config)->Ok_0.grants,
            workspace_root(config.workspace).grant,
            at,
        );
    assert forall|i: int|
        0 <= i < roots.len() && (#[trigger] roots[i]).grant.purpose
            != SandboxPathPurpose::Workspace implies roots[i].grant.access
        == SandboxFilesystemAccess::ReadOnly by {
        assert(grants_of(roots)[i] == roots[i].grant);
    }
}

/// Everything that a configuration asks for is exposed: each runtime root, toolchain, pass-through
/// root and Git metadata root read-only, and the workspace for writing.
#[verifier::rlimit(40)]
pub proof fn roots_are_exposed(config: CommandSandboxPolicyConfig, at: int)
    requires
        policy_of(config) is Ok,
    ensures
        ({
            let grants = policy_of(config)->Ok_0.grants;
            &&& 0 <= at < config.runtime_roots@.len() ==> is_exposed(
                grants,
                config.runtime_roots@[at].path@,
            )
            &&& 0 <= at < config.toolchain_roots@.len() ==> is_exposed(
                grants,
                config.toolchain_roots@[at].path@,
            )
            &&& 0 <= at < config.pass_through_roots@.len() ==> is_exposed(
                grants,
                config.pass_through_roots@[at].path@,
            )
            &&& 0 <= at < config.git_metadata_roots@.len() ==> is_exposed(
                grants,
                config.git_metadata_roots@[at].path@,
            )
            &&& grants.contains(
                GrantView {
                    access: SandboxFilesystemAccess::ReadWrite,
                    path: config.workspace.path@,
                    purpose: SandboxPathPurpose::Workspace,
                },
            )
        }),
{
    let runtime = runtime_layer(config)->Ok_0;
    let toolchains = toolchain_layer(config)->Ok_0;
    let below = pass_through_layer(config)->Ok_0;
    let start = below.push(workspace_root(config.workspace));
    let all = policy_roots(config)->Ok_0;
    lemma_layers(config);
    lemma_all_read_only(config);
    assert(grants_of(all)[below.len() as int] == workspace_root(config.workspace).grant);
    if 0 <= at < config.runtime_roots@.len() {
        lemma_granted_all(
            Seq::empty(),
            config.runtime_roots@,
            SandboxPathPurpose::Runtime,
            "runtime"@,
            true,
        );
        assert(is_granted(runtime, config.runtime_roots@[at].path@));
        lemma_granted_stays(runtime, all, config.runtime_roots@[at].path@);
        lemma_exposed(all, config.runtime_roots@[at].path@);
    }
    if 0 <= at < config.toolchain_roots@.len() {
        lemma_granted_all(
            runtime,
            config.toolchain_roots@,
            SandboxPathPurpose::Toolchain,
            "toolchain"@,
            false,
        );
        assert(is_granted(toolchains, config.toolchain_roots@[at].path@));
        lemma_granted_stays(toolchains, all, config.toolchain_roots@[at].path@);
        lemma_exposed(all, config.toolchain_roots@[at].path@);
    }
    if 0 <= at < config.pass_through_roots@.len() {
        lemma_granted_all(
            toolchains,
            config.pass_through_roots@,
            SandboxPathPurpose::PassThrough,
            "pass-through"@,
            false,
        );
        assert(is_granted(below, config.pass_through_roots@[at].path@));
        lemma_granted_stays(below, all, config.pass_through_roots@[at].path@);
        lemma_exposed(all, config.pass_through_roots@[at].path@);
    }
    if 0 <= at < config.git_metadata_roots@.len() {
        lemma_granted_all(
            start,
            config.git_metadata_roots@,
            SandboxPathPurpose::GitMetadata,
            "Git metadata"@,
            false,
        );
        assert(is_granted(all, config.git_metadata_roots@[at].path@));
        lemma_exposed(all, config.git_metadata_roots@[at].path@);
    }
}

/// The grant is for one of the observed paths.
pub open spec fn is_among(observed: Seq<ObservedPath>, path: Seq<u8>) -> bool {
    exists|i: int| 0 <= i < observed.len() && (#[trigger] observed[i]).path@ == path
}

/// Nothing else is exposed: each grant is for a path that the configuration asks for under that
/// purpose.
#[verifier::rlimit(40)]
pub proof fn only_roots_are_exposed(config: CommandSandboxPolicyConfig, at: int)
    requires
        policy_of(config) is Ok,
        0 <= at < policy_of(config)->Ok_0.grants.len(),
    ensures
        ({
            let grant = policy_of(config)->Ok_0.grants[at];
            match grant.purpose {
                SandboxPathPurpose::Runtime => is_among(config.runtime_roots@, grant.path),
                SandboxPathPurpose::Toolchain => is_among(config.toolchain_roots@, grant.path),
                SandboxPathPurpose::PassThrough => is_among(
                    config.pass_through_roots@,
                    grant.path,
                ),
                SandboxPathPurpose::GitMetadata => is_among(
                    config.git_metadata_roots@,
                    grant.path,
                ),
                SandboxPathPurpose::Workspace => grant.path == config.workspace.path@,
            }
        }),
{
    let runtime = runtime_layer(config)->Ok_0;
    let toolchains = toolchain_layer(config)->Ok_0;
    let below = pass_through_layer(config)->Ok_0;
    let start = below.push(workspace_root(config.workspace));
    let all = policy_roots(config)->Ok_0;
    lemma_layers(config);
    assert(policy_of(config)->Ok_0.grants[at] == all[at].grant);
    lemma_granted_all(
        Seq::empty(),
        config.runtime_roots@,
        SandboxPathPurpose::Runtime,
        "runtime"@,
        true,
    );
    lemma_granted_all(
        runtime,
        config.toolchain_roots@,
        SandboxPathPurpose::Toolchain,
        "toolchain"@,
        false,
    );
    lemma_granted_all(
        toolchains,
        config.pass_through_roots@,
        SandboxPathPurpose::PassThrough,
        "pass-through"@,
        false,
    );
    lemma_granted_all(
        start,
        config.git_metadata_roots@,
        SandboxPathPurpose::GitMetadata,
        "Git metadata"@,
        false,
    );
    if at < runtime.len() {
        assert(runtime[at] == all[at]);
        assert(is_among(config.runtime_roots@, all[at].grant.path));
    } else if at < toolchains.len() {
        assert(toolchains[at] == all[at]);
        assert(is_among(config.toolchain_roots@, all[at].grant.path));
    } else if at < below.len() {
        assert(below[at] == all[at]);
        assert(is_among(config.pass_through_roots@, all[at].grant.path));
    } else if at > below.len() {
        assert(is_among(config.git_metadata_roots@, all[at].grant.path));
    }
}

/// The Git metadata lies over the workspace: it is exposed read-only behind the workspace, unless
/// it is exposed read-only already before it.
pub proof fn git_metadata_lies_over_the_workspace(
    config: CommandSandboxPolicyConfig,
    at: int,
    workspace: int,
)
    requires
        policy_of(config) is Ok,
        0 <= at < config.git_metadata_roots@.len(),
        0 <= workspace < policy_of(config)->Ok_0.grants.len(),
        policy_of(config)->Ok_0.grants[workspace].purpose == SandboxPathPurpose::Workspace,
    ensures
        ({
            let grants = policy_of(config)->Ok_0.grants;
            let path = config.git_metadata_roots@[at].path@;
            ||| is_exposed(grants.take(workspace), path)
            ||| exists|i: int|
                workspace < i < grants.len() && (#[trigger] grants[i]) == (GrantView {
                    access: SandboxFilesystemAccess::ReadOnly,
                    path: grants[i].path,
                    purpose: SandboxPathPurpose::GitMetadata,
                }) && same_path(grants[i].path, path)
        }),
{
    let grants = policy_of(config)->Ok_0.grants;
    let path = config.git_metadata_roots@[at].path@;
    roots_are_exposed(config, at);
    policies_are_layered(config);
    let place = choose|place: int| #[trigger]
        is_layered(grants, workspace_root(config.workspace).grant, place);
    assert(place == workspace);
    let i = choose|i: int|
        0 <= i < grants.len() && same_path((#[trigger] grants[i]).path, path) && grants[i].access
            == SandboxFilesystemAccess::ReadOnly && grants[i].purpose
            != SandboxPathPurpose::Workspace;
    if i < workspace {
        assert(grants.take(workspace)[i] == grants[i]);
    } else {
        assert(grants[i].purpose == SandboxPathPurpose::GitMetadata);
    }
}

/// A policy keeps its configuration's private directories and workspace, and every inherited
/// directory that resolves to a place beneath the workspace stays in the command's `PATH`.
pub proof fn workspace_entries_are_kept(config: CommandSandboxPolicyConfig, at: int)
    requires
        policy_of(config) is Ok,
        0 <= at < config.inherited_path@.len(),
        is_absolute_path(config.inherited_path@[at].path@),
        config.inherited_path@[at].is_directory,
        config.inherited_path@[at].canonical is Some,
        config.workspace.canonical is Some,
        beneath(config.inherited_path@[at].canonical->0@, config.workspace.canonical->0@),
    ensures
        ({
            let policy = policy_of(config)->Ok_0;
            &&& policy.private_home == config.private_home@
            &&& policy.private_temp == config.private_temp@
            &&& policy.workspace == config.workspace.path@
            &&& holds_path(policy.executable_path, config.inherited_path@[at].path@)
        }),
{
    let roots = policy_roots(config)->Ok_0;
    let below = pass_through_layer(config)->Ok_0;
    lemma_layers(config);
    assert(roots[below.len() as int].canonical is Some);
    assert(is_visible(config.inherited_path@[at], roots));
    visible_entries_are_kept(config.inherited_path@, roots, at);
}

/// Every inherited directory that resolves to a place beneath a runtime root stays in the
/// command's `PATH`, where no other runtime root has that root's path.
#[verifier::rlimit(40)]
pub proof fn runtime_entries_are_kept(config: CommandSandboxPolicyConfig, at: int, root: int)
    requires
        policy_of(config) is Ok,
        0 <= at < config.inherited_path@.len(),
        0 <= root < config.runtime_roots@.len(),
        is_absolute_path(config.inherited_path@[at].path@),
        config.inherited_path@[at].is_directory,
        config.inherited_path@[at].canonical is Some,
        config.runtime_roots@[root].canonical is Some,
        beneath(config.inherited_path@[at].canonical->0@, config.runtime_roots@[root].canonical->0@),
        forall|i: int|
            0 <= i < config.runtime_roots@.len() && i != root ==> !same_path(
                (#[trigger] config.runtime_roots@[i]).path@,
                config.runtime_roots@[root].path@,
            ),
    ensures
        holds_path(policy_of(config)->Ok_0.executable_path, config.inherited_path@[at].path@),
{
    let roots = policy_roots(config)->Ok_0;
    let runtime = runtime_layer(config)->Ok_0;
    let path = config.runtime_roots@[root].path@;
    lemma_layers(config);
    lemma_granted_all(
        Seq::empty(),
        config.runtime_roots@,
        SandboxPathPurpose::Runtime,
        "runtime"@,
        true,
    );
    assert(is_granted(runtime, path));
    let k = choose|k: int|
        0 <= k < runtime.len() && #[trigger] runtime[k].grant.purpose
            != SandboxPathPurpose::Workspace && same_path(runtime[k].grant.path, path);
    let i = choose|i: int|
        0 <= i < config.runtime_roots@.len() && is_root_of(
            runtime[k],
            #[trigger] config.runtime_roots@[i],
            SandboxPathPurpose::Runtime,
        );
    assert(i == root);
    assert(roots[k] == runtime[k]);
    assert(roots[k].canonical is Some);
    assert(is_visible(config.inherited_path@[at], roots));
    visible_entries_are_kept(config.inherited_path@, roots, at);
}

/// A policy is made only out of a sound configuration: the workspace is a directory, every root is
/// fit to be exposed, and the private directories are absolute, are not the root and differ.
#[verifier::rlimit(40)]
pub proof fn policies_need_sound_configurations(config: CommandSandboxPolicyConfig, at: int)
    requires
        policy_of(config) is Ok,
    ensures
        root_is_fit(config.workspace, true),
        config.workspace.is_directory,
        is_absolute_path(config.private_home@),
        is_absolute_path(config.private_temp@),
        has_body(config.private_home@),
        has_body(config.private_temp@),
        !same_path(config.private_home@, config.private_temp@),
        policy_of(config)->Ok_0.executable_path.len() > 0,
        0 <= at < config.runtime_roots@.len() ==> root_is_fit(config.runtime_roots@[at], true),
        0 <= at < config.toolchain_roots@.len() ==> root_is_fit(
            config.toolchain_roots@[at],
            false,
        ),
        0 <= at < config.pass_through_roots@.len() ==> root_is_fit(
            config.pass_through_roots@[at],
            false,
        ),
        0 <= at < config.git_metadata_roots@.len() ==> root_is_fit(
            config.git_metadata_roots@[at],
            false,
        ),
{
    let runtime = runtime_layer(config)->Ok_0;
    let toolchains = toolchain_layer(config)->Ok_0;
    let below = pass_through_layer(config)->Ok_0;
    lemma_layers(config);
    lemma_granted_all(
        Seq::empty(),
        config.runtime_roots@,
        SandboxPathPurpose::Runtime,
        "runtime"@,
        true,
    );
    lemma_granted_all(
        runtime,
        config.toolchain_roots@,
        SandboxPathPurpose::Toolchain,
        "toolchain"@,
        false,
    );
    lemma_granted_all(
        toolchains,
        config.pass_through_roots@,
        SandboxPathPurpose::PassThrough,
        "pass-through"@,
        false,
    );
    lemma_granted_all(
        below.push(workspace_root(config.workspace)),
        config.git_metadata_roots@,
        SandboxPathPurpose::GitMetadata,
        "Git metadata"@,
        false,
    );
    lemma_body_is_components(config.workspace.path@);
}

proof fn lemma_grants_succeed(
    roots: Seq<RootView>,
    paths: Seq<ObservedPath>,
    purpose: SandboxPathPurpose,
    name: Seq<char>,
    allow_symlink: bool,
)
    requires
        forall|i: int| 0 <= i < paths.len() ==> root_is_fit(#[trigger] paths[i], allow_symlink),
    ensures
        with_grants(roots, paths, purpose, name, allow_symlink) is Ok,
    decreases paths.len(),
{
    if paths.len() > 0 {
        let shorter = paths.drop_last();
        assert forall|i: int| 0 <= i < shorter.len() implies root_is_fit(
            #[trigger] shorter[i],
            allow_symlink,
        ) by {
            assert(shorter[i] == paths[i]);
        }
        assert(root_is_fit(paths[paths.len() - 1], allow_symlink));
        lemma_body_is_components(paths.last().path@);
        lemma_grants_succeed(roots, shorter, purpose, name, allow_symlink);
    }
}

proof fn lemma_nothing_shadowed(roots: Seq<RootView>, home: Seq<u8>, temp: Seq<u8>)
    requires
        forall|i: int|
            0 <= i < roots.len() ==> !beneath(home, (#[trigger] roots[i]).grant.path) && !beneath(
                temp,
                roots[i].grant.path,
            ),
    ensures
        shadow_fault(roots, home, temp) is None,
    decreases roots.len(),
{
    if roots.len() > 0 {
        let shorter = roots.drop_last();
        assert forall|i: int| 0 <= i < shorter.len() implies !beneath(
            home,
            (#[trigger] shorter[i]).grant.path,
        ) && !beneath(temp, shorter[i].grant.path) by {
            assert(shorter[i] == roots[i]);
        }
        assert(roots[roots.len() - 1] == roots.last());
        lemma_nothing_shadowed(shorter, home, temp);
    }
}

/// The path can be exposed, and hides neither private directory.
pub open spec fn is_harmless(
    observed: ObservedPath,
    allow_symlink: bool,
    home: Seq<u8>,
    temp: Seq<u8>,
) -> bool {
    &&& root_is_fit(observed, allow_symlink)
    &&& !beneath(home, observed.path@)
    &&& !beneath(temp, observed.path@)
}

/// A sound configuration comes to a policy: its roots are fit and hide neither private directory,
/// the private directories are fit and differ, and a directory of the inherited `PATH` lies in the
/// workspace.
#[verifier::rlimit(40)]
pub proof fn sound_configurations_come_to_policies(config: CommandSandboxPolicyConfig, at: int)
    requires
        ({
            let home = config.private_home@;
            let temp = config.private_temp@;
            &&& is_harmless(config.workspace, true, home, temp)
            &&& config.workspace.is_directory
            &&& is_absolute_path(home) && components_of(home).len() > 0
            &&& is_absolute_path(temp) && components_of(temp).len() > 0
            &&& !same_path(home, temp)
            &&& forall|i: int|
                0 <= i < config.runtime_roots@.len() ==> is_harmless(
                    #[trigger] config.runtime_roots@[i],
                    true,
                    home,
                    temp,
                )
            &&& forall|i: int|
                0 <= i < config.toolchain_roots@.len() ==> is_harmless(
                    #[trigger] config.toolchain_roots@[i],
                    false,
                    home,
                    temp,
                )
            &&& forall|i: int|
                0 <= i < config.pass_through_roots@.len() ==> is_harmless(
                    #[trigger] config.pass_through_roots@[i],
                    false,
                    home,
                    temp,
                )
            &&& forall|i: int|
                0 <= i < config.git_metadata_roots@.len() ==> is_harmless(
                    #[trigger] config.git_metadata_roots@[i],
                    false,
                    home,
                    temp,
                )
        }),
        0 <= at < config.inherited_path@.len(),
        is_absolute_path(config.inherited_path@[at].path@),
        config.inherited_path@[at].is_directory,
        config.inherited_path@[at].canonical is Some,
        config.workspace.canonical is Some,
        beneath(config.inherited_path@[at].canonical->0@, config.workspace.canonical->0@),
    ensures
        policy_of(config) is Ok,
{
    let home = config.private_home@;
    let temp = config.private_temp@;
    lemma_body_is_components(home);
    lemma_body_is_components(temp);
    lemma_body_is_components(config.workspace.path@);
    lemma_grants_succeed(
        Seq::empty(),
        config.runtime_roots@,
        SandboxPathPurpose::Runtime,
        "runtime"@,
        true,
    );
    let runtime = runtime_layer(config)->Ok_0;
    lemma_grants_succeed(
        runtime,
        config.toolchain_roots@,
        SandboxPathPurpose::Toolchain,
        "toolchain"@,
        false,
    );
    let toolchains = toolchain_layer(config)->Ok_0;
    lemma_grants_succeed(
        toolchains,
        config.pass_through_roots@,
        SandboxPathPurpose::PassThrough,
        "pass-through"@,
        false,
    );
    let below = pass_through_layer(config)->Ok_0;
    let start = below.push(workspace_root(config.workspace));
    lemma_grants_succeed(
        start,
        config.git_metadata_roots@,
        SandboxPathPurpose::GitMetadata,
        "Git metadata"@,
        false,
    );
    let all = policy_roots(config)->Ok_0;
    lemma_layers(config);
    lemma_granted_all(
        Seq::empty(),
        config.runtime_roots@,
        SandboxPathPurpose::Runtime,
        "runtime"@,
        true,
    );
    lemma_granted_all(
        runtime,
        config.toolchain_roots@,
        SandboxPathPurpose::Toolchain,
        "toolchain"@,
        false,
    );
    lemma_granted_all(
        toolchains,
        config.pass_through_roots@,
        SandboxPathPurpose::PassThrough,
        "pass-through"@,
        false,
    );
    lemma_granted_all(
        start,
        config.git_metadata_roots@,
        SandboxPathPurpose::GitMetadata,
        "Git metadata"@,
        false,
    );
    assert forall|k: int| 0 <= k < all.len() implies !beneath(
        home,
        (#[trigger] all[k]).grant.path,
    ) && !beneath(temp, all[k].grant.path) by {
        if k < runtime.len() {
            assert(all[k] == runtime[k]);
        } else if k < toolchains.len() {
            assert(all[k] == toolchains[k]);
        } else if k < below.len() {
            assert(all[k] == below[k]);
        }
    }
    lemma_nothing_shadowed(all, home, temp);
    assert(all[below.len() as int].canonical is Some);
    assert(is_visible(config.inherited_path@[at], all));
    visible_entries_are_kept(config.inherited_path@, all, at);
}

/// No path is exposed twice beside the workspace.
#[verifier::rlimit(40)]
pub proof fn roots_are_exposed_once(config: CommandSandboxPolicyConfig, early: int, late: int)
    requires
        policy_of(config) is Ok,
        0 <= early < late < policy_of(config)->Ok_0.grants.len(),
        policy_of(config)->Ok_0.grants[early].purpose != SandboxPathPurpose::Workspace,
        policy_of(config)->Ok_0.grants[late].purpose != SandboxPathPurpose::Workspace,
    ensures
        !same_path(
            policy_of(config)->Ok_0.grants[early].path,
            policy_of(config)->Ok_0.grants[late].path,
        ),
{
    let runtime = runtime_layer(config)->Ok_0;
    let toolchains = toolchain_layer(config)->Ok_0;
    let below = pass_through_layer(config)->Ok_0;
    let start = below.push(workspace_root(config.workspace));
    let all = policy_roots(config)->Ok_0;
    lemma_layers(config);
    lemma_granted_once(
        Seq::empty(),
        config.runtime_roots@,
        SandboxPathPurpose::Runtime,
        "runtime"@,
        true,
    );
    lemma_granted_once(
        runtime,
        config.toolchain_roots@,
        SandboxPathPurpose::Toolchain,
        "toolchain"@,
        false,
    );
    lemma_granted_once(
        toolchains,
        config.pass_through_roots@,
        SandboxPathPurpose::PassThrough,
        "pass-through"@,
        false,
    );
    assert forall|i: int, j: int|
        0 <= i < j < start.len() && (#[trigger] start[i]).grant.purpose
            != SandboxPathPurpose::Workspace && (#[trigger] start[j]).grant.purpose
            != SandboxPathPurpose::Workspace implies !same_path(
        start[i].grant.path,
        start[j].grant.path,
    ) by {
        assert(start[i] == below[i]);
        assert(start[j] == below[j]);
    }
    lemma_granted_once(
        start,
        config.git_metadata_roots@,
        SandboxPathPurpose::GitMetadata,
        "Git metadata"@,
        false,
    );
    assert(policy_of(config)->Ok_0.grants[early] == all[early].grant);
    assert(policy_of(config)->Ok_0.grants[late] == all[late].grant);
}

spec fn are_distinct(roots: Seq<RootView>) -> bool {
    forall|i: int, j: int|
        0 <= i < j < roots.len() && (#[trigger] roots[i]).grant.purpose
            != SandboxPathPurpose::Workspace && (#[trigger] roots[j]).grant.purpose
            != SandboxPathPurpose::Workspace ==> !same_path(
            roots[i].grant.path,
            roots[j].grant.path,
        )
}

proof fn lemma_granted_once(
    roots: Seq<RootView>,
    paths: Seq<ObservedPath>,
    purpose: SandboxPathPurpose,
    name: Seq<char>,
    allow_symlink: bool,
)
    requires
        with_grants(roots, paths, purpose, name, allow_symlink) is Ok,
        are_distinct(roots),
    ensures
        are_distinct(with_grants(roots, paths, purpose, name, allow_symlink)->Ok_0),
    decreases paths.len(),
{
    if paths.len() > 0 {
        lemma_granted_once(roots, paths.drop_last(), purpose, name, allow_symlink);
        let before = with_grants(roots, paths.drop_last(), purpose, name, allow_symlink)->Ok_0;
        let after = with_grants(roots, paths, purpose, name, allow_symlink)->Ok_0;
        assert forall|i: int, j: int|
            0 <= i < j < after.len() && (#[trigger] after[i]).grant.purpose
                != SandboxPathPurpose::Workspace && (#[trigger] after[j]).grant.purpose
                != SandboxPathPurpose::Workspace implies !same_path(
            after[i].grant.path,
            after[j].grant.path,
        ) by {
            assert(after[i] == before[i]);
            if j < before.len() {
                assert(after[j] == before[j]);
            } else {
                assert(before[i].grant.purpose != SandboxPathPurpose::Workspace);
            }
        }
    }
}

/// Where a configuration is refused, the error names what is wrong: the workspace, a private
/// directory, the two private directories together, a root, or the `PATH`.
pub proof fn refusals_of_the_workspace_come_first(config: CommandSandboxPolicyConfig)
    ensures
        !is_absolute_path(config.workspace.path@) ==> policy_of(config) == Err::<
            PolicyView,
            PolicyErrorView,
        >(PolicyErrorView::RelativePath { name: "workspace"@, path: config.workspace.path@ }),
        is_absolute_path(config.workspace.path@) && components_of(config.workspace.path@).len()
            == 0 ==> policy_of(config) == Err::<PolicyView, PolicyErrorView>(
            PolicyErrorView::RootExposure { name: "workspace"@, path: config.workspace.path@ },
        ),
        root_is_fit(config.workspace, true) && !config.workspace.is_directory ==> policy_of(config)
            == Err::<PolicyView, PolicyErrorView>(
            PolicyErrorView::UnavailablePath {
                detail: "expected a directory"@,
                name: "workspace"@,
                path: config.workspace.path@,
            },
        ),
        root_is_fit(config.workspace, true) && config.workspace.is_directory
            && !is_absolute_path(config.private_home@) ==> policy_of(config) == Err::<
            PolicyView,
            PolicyErrorView,
        >(PolicyErrorView::RelativePath { name: "private home"@, path: config.private_home@ }),
        root_is_fit(config.workspace, true) && config.workspace.is_directory && is_absolute_path(
            config.private_home@,
        ) && components_of(config.private_home@).len() > 0 && same_path(
            config.private_home@,
            config.private_temp@,
        ) ==> policy_of(config) == Err::<PolicyView, PolicyErrorView>(
            PolicyErrorView::SharedPrivateDirectory,
        ),
{
    lemma_body_is_components(config.workspace.path@);
    lemma_body_is_components(config.private_home@);
    lemma_body_is_components(config.private_temp@);
}

/// A `PATH` entry is visible exactly where it is an absolute path to a directory that resolves to
/// a place whose first components are those of what some root resolves to.
pub proof fn visible_entries_lie_in_a_root(entry: ObservedPath, roots: Seq<RootView>)
    requires
        forall|i: int|
            0 <= i < roots.len() && (#[trigger] roots[i]).canonical is Some ==> is_absolute_path(
                roots[i].canonical->0,
            ),
    ensures
        is_visible(entry, roots) <==> {
            &&& is_absolute_path(entry.path@)
            &&& entry.is_directory
            &&& entry.canonical is Some
            &&& exists|i: int|
                0 <= i < roots.len() && (#[trigger] roots[i]).canonical is Some
                    && is_absolute_path(entry.canonical->0@) && components_of(
                    roots[i].canonical->0,
                ).is_prefix_of(components_of(entry.canonical->0@))
        },
{
    if is_visible(entry, roots) {
        let i = choose|i: int|
            0 <= i < roots.len() && #[trigger] roots[i].canonical is Some && beneath(
                entry.canonical->0@,
                roots[i].canonical->0,
            );
        assert(roots[i].canonical is Some);
    }
}

} // verus!
