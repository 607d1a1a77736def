//! The local Docker endpoint, and the executables that may talk to it.
use crate::path::{is_absolute_path, HostPath};
use crate::text::readable;
use vstd::prelude::*;
use vstd::string::StringExecFns;
use vstd::utf8::{decode_utf8, valid_utf8};

verus! {

/// What the host's filesystem says of a file.
#[derive(Clone, Copy, Debug, PartialEq, Eq)]
pub struct FileMetadata {
    pub is_directory: bool,
    pub is_file: bool,
    pub is_socket: bool,
    pub mode: u32,
}

/// What a path resolves to, and what stands there; an error in words where the host gives one.
#[derive(Debug, PartialEq, Eq)]
pub struct FileObservation {
    pub canonical: Result<HostPath, String>,
    pub metadata: Result<FileMetadata, String>,
}

/// Whether anybody may execute a file of this mode.
pub open spec fn is_executable_mode(mode: u32) -> bool {
    mode & 0o111 != 0
}

#[derive(Clone, Copy, Debug, PartialEq, Eq, PartialOrd, Ord, Hash, Structural)]
pub enum DockerExecutableName {
    Docker,
    DockerCompose,
}

impl DockerExecutableName {
    pub open spec fn spelled(self) -> Seq<char> {
        match self {
            DockerExecutableName::Docker => "docker"@,
            DockerExecutableName::DockerCompose => "docker-compose"@,
        }
    }

    pub fn as_str(self) -> (name: &'static str)
        ensures
            name@ == self.spelled(),
    {
        match self {
            DockerExecutableName::Docker => "docker",
            DockerExecutableName::DockerCompose => "docker-compose",
        }
    }
}

#[derive(Debug, PartialEq, Eq)]
pub enum DockerExecutableError {
    RelativePath { path: HostPath },
    Unavailable { detail: String, path: HostPath },
    NotRegularFile { path: HostPath },
    NotExecutable { path: HostPath },
    UnsupportedPlatform,
}

impl DockerExecutableError {
    /// The error in words.
    pub fn describe(&self) -> (words: String)
        ensures
            words@ == match self {
                DockerExecutableError::RelativePath { path } => "Docker executable path `"@
                    + readable(path@) + "` must be absolute"@,
                DockerExecutableError::Unavailable { detail, path } =>
                    "Docker executable path `"@ + readable(path@) + "` is unavailable: "@
                        + detail@,
                DockerExecutableError::NotRegularFile { path } => "Docker executable path `"@
                    + readable(path@) + "` is not a regular file"@,
                DockerExecutableError::NotExecutable { path } => "Docker executable path `"@
                    + readable(path@) + "` is not executable"@,
                DockerExecutableError::UnsupportedPlatform =>
                    "Docker executable discovery is not supported on this platform"@,
            },
    {
        let start = "Docker executable path `".to_owned();
        match self {
            DockerExecutableError::RelativePath { path } => start.concat(
                path.display().as_str(),
            ).concat("` must be absolute"),
            DockerExecutableError::Unavailable { detail, path } => start.concat(
                path.display().as_str(),
            ).concat("` is unavailable: ").concat(detail.as_str()),
            DockerExecutableError::NotRegularFile { path } => start.concat(
                path.display().as_str(),
            ).concat("` is not a regular file"),
            DockerExecutableError::NotExecutable { path } => start.concat(
                path.display().as_str(),
            ).concat("` is not executable"),
            DockerExecutableError::UnsupportedPlatform =>
                "Docker executable discovery is not supported on this platform".to_owned(),
        }
    }
}

/// An executable that may talk to Docker.
#[derive(Debug, PartialEq, Eq, Hash)]
pub struct DockerExecutable {
    name: DockerExecutableName,
    path: HostPath,
}

pub struct DockerExecutableView {
    pub name: DockerExecutableName,
    pub path: Seq<u8>,
}

impl View for DockerExecutable {
    type V = DockerExecutableView;

    closed spec fn view(&self) -> DockerExecutableView {
        DockerExecutableView { name: self.name, path: self.path@ }
    }
}

pub open spec fn executable_views(executables: Seq<DockerExecutable>) -> Seq<
    DockerExecutableView,
> {
    Seq::new(executables.len(), |i: int| executables[i]@)
}

impl Clone for DockerExecutable {
    fn clone(&self) -> (copy: Self)
        ensures
            copy@ == self@,
    {
        DockerExecutable { name: self.name, path: self.path.clone() }
    }
}

impl DockerExecutable {
    /// Accepts an absolute path that resolves to a regular file that may be executed; the
    /// executable is known by what the path resolves to.
    pub fn validate(
        name: DockerExecutableName,
        path: &HostPath,
        observation: FileObservation,
    ) -> (outcome: Result<Self, DockerExecutableError>)
        ensures
            match outcome {
                Ok(executable) => is_absolute_path(path@) && observation.canonical is Ok
                    && observation.metadata is Ok && observation.metadata->Ok_0.is_file
                    && is_executable_mode(observation.metadata->Ok_0.mode) && executable@ == (
                DockerExecutableView { name, path: observation.canonical->Ok_0@ }),
                Err(DockerExecutableError::RelativePath { path: refused }) => !is_absolute_path(
                    path@,
                ) && refused@ == path@,
                Err(DockerExecutableError::Unavailable { detail, path: refused }) =>
                    is_absolute_path(path@) && match observation.canonical {
                        Err(error) => detail@ == error@ && refused@ == path@,
                        Ok(canonical) => observation.metadata is Err && detail@
                            == observation.metadata->Err_0@ && refused@ == canonical@,
                    },
                Err(DockerExecutableError::NotRegularFile { path: refused }) => is_absolute_path(
                    path@,
                ) && observation.canonical is Ok && observation.metadata is Ok
                    && !observation.metadata->Ok_0.is_file && refused@
                    == observation.canonical->Ok_0@,
                Err(DockerExecutableError::NotExecutable { path: refused }) => is_absolute_path(
                    path@,
                ) && observation.canonical is Ok && observation.metadata is Ok
                    && observation.metadata->Ok_0.is_file && !is_executable_mode(
                    observation.metadata->Ok_0.mode,
                ) && refused@ == observation.canonical->Ok_0@,
                Err(DockerExecutableError::UnsupportedPlatform) => false,
            },
    {
        if !path.is_absolute() {
            return Err(DockerExecutableError::RelativePath { path: path.clone() });
        }
        let canonical = match observation.canonical {
            Err(detail) => {
                return Err(DockerExecutableError::Unavailable { detail, path: path.clone() });
            },
            Ok(canonical) => canonical,
        };
        let metadata = match observation.metadata {
            Err(detail) => {
                return Err(DockerExecutableError::Unavailable { detail, path: canonical });
            },
            Ok(metadata) => metadata,
        };
        if !metadata.is_file {
            return Err(DockerExecutableError::NotRegularFile { path: canonical });
        }
        if metadata.mode & 0o111 == 0 {
            return Err(DockerExecutableError::NotExecutable { path: canonical });
        }
        Ok(DockerExecutable { name, path: canonical })
    }

    pub fn name(&self) -> (name: DockerExecutableName)
        ensures
            name == self@.name,
    {
        self.name
    }

    pub fn path(&self) -> (path: &HostPath)
        ensures
            path@ == self@.path,
    {
        &self.path
    }
}

#[derive(Debug, PartialEq, Eq)]
pub enum DockerEndpointError {
    RelativePath { path: HostPath },
    Unavailable { detail: String, path: HostPath },
    NotUnixSocket { path: HostPath },
    NonUtf8Path { path: HostPath },
    UnsupportedPlatform,
}

impl DockerEndpointError {
    /// The error in words.
    pub fn describe(&self) -> (words: String)
        ensures
            words@ == match self {
                DockerEndpointError::RelativePath { path } => "Docker endpoint path `"@
                    + readable(path@) + "` must be absolute"@,
                DockerEndpointError::Unavailable { detail, path } => "Docker endpoint path `"@
                    + readable(path@) + "` is unavailable: "@ + detail@,
                DockerEndpointError::NotUnixSocket { path } => "Docker endpoint path `"@
                    + readable(path@) + "` is not a Unix socket"@,
                DockerEndpointError::NonUtf8Path { path } => "Docker endpoint path `"@
                    + readable(path@) + "` is not valid UTF-8"@,
                DockerEndpointError::UnsupportedPlatform =>
                    "local Unix Docker endpoints are not supported on this platform"@,
            },
    {
        let start = "Docker endpoint path `".to_owned();
        match self {
            DockerEndpointError::RelativePath { path } => start.concat(
                path.display().as_str(),
            ).concat("` must be absolute"),
            DockerEndpointError::Unavailable { detail, path } => start.concat(
                path.display().as_str(),
            ).concat("` is unavailable: ").concat(detail.as_str()),
            DockerEndpointError::NotUnixSocket { path } => start.concat(
                path.display().as_str(),
            ).concat("` is not a Unix socket"),
            DockerEndpointError::NonUtf8Path { path } => start.concat(
                path.display().as_str(),
            ).concat("` is not valid UTF-8"),
            DockerEndpointError::UnsupportedPlatform =>
                "local Unix Docker endpoints are not supported on this platform".to_owned(),
        }
    }
}

/// A local Docker socket, and the name by which it is granted.
#[derive(Debug, PartialEq, Eq, Hash)]
pub struct DockerEndpoint {
    path: HostPath,
    resource: String,
}

pub struct DockerEndpointView {
    pub path: Seq<u8>,
    pub resource: Seq<char>,
}

impl View for DockerEndpoint {
    type V = DockerEndpointView;

    closed spec fn view(&self) -> DockerEndpointView {
        DockerEndpointView { path: self.path@, resource: self.resource@ }
    }
}

impl Clone for DockerEndpoint {
    fn clone(&self) -> (copy: Self)
        ensures
            copy@ == self@,
    {
        DockerEndpoint { path: self.path.clone(), resource: self.resource.clone() }
    }
}

impl DockerEndpoint {
    /// Accepts an absolute path that resolves to a Unix socket at a path in UTF-8; the endpoint is
    /// known by what the path resolves to, so that another spelling of it grants nothing more.
    pub fn validate(path: &HostPath, observation: FileObservation) -> (outcome: Result<
        Self,
        DockerEndpointError,
    >)
        ensures
            match outcome {
                Ok(endpoint) => is_absolute_path(path@) && observation.canonical is Ok
                    && observation.metadata is Ok && observation.metadata->Ok_0.is_socket
                    && valid_utf8(observation.canonical->Ok_0@) && endpoint@ == (
                DockerEndpointView {
                    path: observation.canonical->Ok_0@,
                    resource: "unix://"@ + decode_utf8(observation.canonical->Ok_0@),
                }),
                Err(DockerEndpointError::RelativePath { path: refused }) => !is_absolute_path(
                    path@,
                ) && refused@ == path@,
                Err(DockerEndpointError::Unavailable { detail, path: refused }) =>
                    is_absolute_path(path@) && match observation.canonical {
                        Err(error) => detail@ == error@ && refused@ == path@,
                        Ok(canonical) => observation.metadata is Err && detail@
                            == observation.metadata->Err_0@ && refused@ == canonical@,
                    },
                Err(DockerEndpointError::NotUnixSocket { path: refused }) => is_absolute_path(
                    path@,
                ) && observation.canonical is Ok && observation.metadata is Ok
                    && !observation.metadata->Ok_0.is_socket && refused@
                    == observation.canonical->Ok_0@,
                Err(DockerEndpointError::NonUtf8Path { path: refused }) => is_absolute_path(path@)
                    && observation.canonical is Ok && observation.metadata is Ok
                    && observation.metadata->Ok_0.is_socket && !valid_utf8(
                    observation.canonical->Ok_0@,
                ) && refused@ == observation.canonical->Ok_0@,
                Err(DockerEndpointError::UnsupportedPlatform) => false,
            },
    {
        if !path.is_absolute() {
            return Err(DockerEndpointError::RelativePath { path: path.clone() });
        }
        let canonical = match observation.canonical {
            Err(detail) => {
                return Err(DockerEndpointError::Unavailable { detail, path: path.clone() });
            },
            Ok(canonical) => canonical,
        };
        let metadata = match observation.metadata {
            Err(detail) => {
                return Err(DockerEndpointError::Unavailable { detail, path: canonical });
            },
            Ok(metadata) => metadata,
        };
        if !metadata.is_socket {
            return Err(DockerEndpointError::NotUnixSocket { path: canonical });
        }
        match canonical.to_text() {
            None => Err(DockerEndpointError::NonUtf8Path { path: canonical }),
            Some(text) => {
                let resource = "unix://".to_owned().concat(text.as_str());
                Ok(DockerEndpoint { path: canonical, resource })
            },
        }
    }

    pub fn path(&self) -> (path: &HostPath)
        ensures
            path@ == self@.path,
    {
        &self.path
    }

    pub fn resource(&self) -> (resource: &str)
        ensures
            resource@ == self@.resource,
    {
        self.resource.as_str()
    }
}

/// The last of the executables with this name.
pub open spec fn latest_named(
    executables: Seq<DockerExecutableView>,
    name: DockerExecutableName,
) -> Option<DockerExecutableView>
    decreases executables.len(),
{
    if executables.len() == 0 {
        None
    } else if executables.last().name == name {
        Some(executables.last())
    } else {
        latest_named(executables.drop_last(), name)
    }
}

pub open spec fn at_most_one(executable: Option<DockerExecutableView>) -> Seq<
    DockerExecutableView,
> {
    match executable {
        None => Seq::empty(),
        Some(executable) => seq![executable],
    }
}

/// The executables by name, each name once: the last one given for it.
pub open spec fn one_per_name(executables: Seq<DockerExecutableView>) -> Seq<
    DockerExecutableView,
> {
    at_most_one(latest_named(executables, DockerExecutableName::Docker)) + at_most_one(
        latest_named(executables, DockerExecutableName::DockerCompose),
    )
}

/// An endpoint, and the executables that are exposed with it.
#[derive(Clone, Debug, PartialEq, Eq)]
pub struct DockerIntegration {
    endpoint: DockerEndpoint,
    executables: Vec<DockerExecutable>,
}

pub struct DockerIntegrationView {
    pub endpoint: DockerEndpointView,
    pub executables: Seq<DockerExecutableView>,
}

impl View for DockerIntegration {
    type V = DockerIntegrationView;

    closed spec fn view(&self) -> DockerIntegrationView {
        DockerIntegrationView {
            endpoint: self.endpoint@,
            executables: executable_views(self.executables@),
        }
    }
}

fn find_latest(executables: &Vec<DockerExecutable>, name: DockerExecutableName) -> (found: Option<
    DockerExecutable,
>)
    ensures
        match latest_named(executable_views(executables@), name) {
            None => found is None,
            Some(view) => found is Some && found->0@ == view,
        },
{
    let ghost views = executable_views(executables@);
    let mut index: usize = executables.len();
    assert(views.take(index as int) =~= views);
    while index > 0
        invariant
            index <= executables@.len(),
            views == executable_views(executables@),
            latest_named(views.take(index as int), name) == latest_named(views, name),
        decreases index,
    {
        proof {
            let here = views.take(index as int);
            assert(here.last() == executables@[index - 1]@);
            assert(here.drop_last() =~= views.take(index - 1));
        }
        index -= 1;
        if executables[index].name == name {
            return Some(executables[index].clone());
        }
    }
    None
}

impl DockerIntegration {
    pub fn new(endpoint: DockerEndpoint) -> (integration: Self)
        ensures
            integration@ == (DockerIntegrationView {
                endpoint: endpoint@,
                executables: Seq::empty(),
            }),
    {
        let integration = DockerIntegration { endpoint, executables: Vec::new() };
        assert(executable_views(integration.executables@) =~= Seq::empty());
        integration
    }

    /// Exposes these executables as well; a later one takes the place of an earlier one of the
    /// same name.
    #[must_use]
    pub fn with_executables(self, executables: Vec<DockerExecutable>) -> (integration: Self)
        ensures
            integration@ == (DockerIntegrationView {
                endpoint: self@.endpoint,
                executables: one_per_name(
                    self@.executables + executable_views(executables@),
                ),
            }),
    {
        let mut all = self.executables;
        let mut added = executables;
        all.append(&mut added);
        assert(executable_views(all@) =~= self@.executables + executable_views(executables@));
        let mut kept: Vec<DockerExecutable> = Vec::new();
        if let Some(executable) = find_latest(&all, DockerExecutableName::Docker) {
            kept.push(executable);
        }
        if let Some(executable) = find_latest(&all, DockerExecutableName::DockerCompose) {
            kept.push(executable);
        }
        assert(executable_views(kept@) =~= one_per_name(executable_views(all@)));
        DockerIntegration { endpoint: self.endpoint, executables: kept }
    }

    pub fn endpoint(&self) -> (endpoint: &DockerEndpoint)
        ensures
            endpoint@ == self@.endpoint,
    {
        &self.endpoint
    }

    pub fn executables(&self) -> (executables: &[DockerExecutable])
        ensures
            executable_views(executables@) == self@.executables,
    {
        self.executables.as_slice()
    }

    /// Whether an executable of this name is covered; where none are listed, any is.
    pub fn supports(&self, name: DockerExecutableName) -> (supported: bool)
        ensures
            supported <==> self@.executables.len() == 0 || exists|i: int|
                0 <= i < self@.executables.len() && #[trigger] self@.executables[i].name == name,
    {
        if self.executables.len() == 0 {
            return true;
        }
        let ghost views = executable_views(self.executables@);
        let mut index: usize = 0;
        while index < self.executables.len()
            invariant
                index <= self.executables@.len(),
                views == executable_views(self.executables@),
                forall|i: int| 0 <= i < index ==> #[trigger] views[i].name != name,
            decreases self.executables.len() - index,
        {
            assert(views[index as int].name == self.executables@[index as int].name);
            if self.executables[index].name == name {
                return true;
            }
            index += 1;
        }
        false
    }
}

impl From<DockerEndpoint> for DockerIntegration {
    fn from(endpoint: DockerEndpoint) -> (integration: Self)
        ensures
            integration@ == (DockerIntegrationView {
                endpoint: endpoint@,
                executables: Seq::empty(),
            }),
    {
        Self::new(endpoint)
    }
}

// A list is known by its elements alone, so that no one integration can be named: what `from` gives
// is what its own `ensures` says.
impl vstd::std_specs::convert::FromSpecImpl<DockerEndpoint> for DockerIntegration {
    open spec fn obeys_from_spec() -> bool {
        false
    }

    open spec fn from_spec(endpoint: DockerEndpoint) -> DockerIntegration {
        choose|integration: DockerIntegration|
            integration@ == (DockerIntegrationView {
                endpoint: endpoint@,
                executables: Seq::empty(),
            })
    }
}

/// The executables of an integration are in order of name, at most one for each, and listing them
/// again changes nothing.
pub proof fn executables_are_unique(executables: Seq<DockerExecutableView>)
    ensures
        one_per_name(executables).len() <= 2,
        one_per_name(executables).len() == 2 ==> one_per_name(executables)[0].name
            == DockerExecutableName::Docker && one_per_name(executables)[1].name
            == DockerExecutableName::DockerCompose,
        one_per_name(one_per_name(executables)) == one_per_name(executables),
{
    lemma_latest_has_name(executables, DockerExecutableName::Docker);
    lemma_latest_has_name(executables, DockerExecutableName::DockerCompose);
    let kept = one_per_name(executables);
    reveal_with_fuel(latest_named, 3);
    assert(one_per_name(kept) =~= kept);
}

proof fn lemma_latest_has_name(executables: Seq<DockerExecutableView>, name: DockerExecutableName)
    ensures
        latest_named(executables, name) is Some ==> latest_named(executables, name)->0.name
            == name,
    decreases executables.len(),
{
    if executables.len() > 0 {
        lemma_latest_has_name(executables.drop_last(), name);
    }
}

/// A file may be executed where its owner, its group or anybody else may execute it.
pub proof fn any_execute_bit_will_do(mode: u32)
    ensures
        is_executable_mode(mode) <==> mode & 0o100 != 0 || mode & 0o010 != 0 || mode & 0o001 != 0,
{
    assert(mode & 0o111 != 0 <==> mode & 0o100 != 0 || mode & 0o010 != 0 || mode & 0o001 != 0)
        by (bit_vector);
}

proof fn lemma_latest(
    executables: Seq<DockerExecutableView>,
    name: DockerExecutableName,
    index: int,
)
    requires
        0 <= index < executables.len(),
        executables[index].name == name,
        forall|i: int| index < i < executables.len() ==> (#[trigger] executables[i]).name != name,
    ensures
        latest_named(executables, name) == Some(executables[index]),
    decreases executables.len(),
{
    if index < executables.len() - 1 {
        assert(executables[executables.len() - 1].name != name);
        lemma_latest(executables.drop_last(), name, index);
    }
}

proof fn lemma_latest_is_given(
    executables: Seq<DockerExecutableView>,
    name: DockerExecutableName,
)
    ensures
        latest_named(executables, name) matches Some(found) ==> found.name == name
            && executables.contains(found),
    decreases executables.len(),
{
    if executables.len() > 0 {
        let before = executables.drop_last();
        lemma_latest_is_given(before, name);
        assert(executables[executables.len() - 1] == executables.last());
        if let Some(found) = latest_named(before, name) {
            let i = choose|i: int| 0 <= i < before.len() && before[i] == found;
            assert(executables[i] == found);
        }
    }
}

/// Of the executables that are given, the last of each name is exposed, whatever other names
/// there are, and no other.
pub proof fn last_executables_are_exposed(
    executables: Seq<DockerExecutableView>,
    index: int,
)
    requires
        0 <= index < executables.len(),
    ensures
        one_per_name(executables).contains(executables[index]) <== forall|i: int|
            index < i < executables.len() ==> (#[trigger] executables[i]).name
                != executables[index].name,
        forall|i: int|
            0 <= i < one_per_name(executables).len() ==> executables.contains(
                #[trigger] one_per_name(executables)[i],
            ),
{
    let exposed = one_per_name(executables);
    lemma_latest_is_given(executables, DockerExecutableName::Docker);
    lemma_latest_is_given(executables, DockerExecutableName::DockerCompose);
    if forall|i: int|
        index < i < executables.len() ==> (#[trigger] executables[i]).name
            != executables[index].name {
        lemma_latest(executables, executables[index].name, index);
        if executables[index].name == DockerExecutableName::Docker {
            assert(exposed[0] == executables[index]);
        } else {
            assert(exposed[exposed.len() - 1] == executables[index]);
        }
    }
}

/// An executable is accepted exactly where its path is absolute and resolves to a regular file
/// that someone may execute; an endpoint, where its path is absolute and resolves to a Unix
/// socket at a path in UTF-8. Both are known by what the path resolves to.
pub proof fn docker_files_are_checked(
    name: DockerExecutableName,
    path: &HostPath,
    observation: FileObservation,
    executable: Result<DockerExecutable, DockerExecutableError>,
    endpoint: Result<DockerEndpoint, DockerEndpointError>,
)
    requires
        call_ensures(DockerExecutable::validate, (name, path, observation), executable),
        call_ensures(DockerEndpoint::validate, (path, observation), endpoint),
    ensures
        executable is Ok <==> {
            &&& is_absolute_path(path@)
            &&& observation.canonical is Ok
            &&& observation.metadata is Ok
            &&& observation.metadata->Ok_0.is_file
            &&& observation.metadata->Ok_0.mode & 0o111 != 0
        },
        executable matches Ok(accepted) ==> accepted@.name == name && accepted@.path
            == observation.canonical->Ok_0@,
        endpoint is Ok <==> {
            &&& is_absolute_path(path@)
            &&& observation.canonical is Ok
            &&& observation.metadata is Ok
            &&& observation.metadata->Ok_0.is_socket
            &&& valid_utf8(observation.canonical->Ok_0@)
        },
        endpoint matches Ok(accepted) ==> accepted@.path == observation.canonical->Ok_0@
            && accepted@.resource == "unix://"@ + decode_utf8(observation.canonical->Ok_0@),
{
}

/// The executables are called `docker` and `docker-compose`.
pub proof fn executables_are_called_by_name(name: DockerExecutableName)
    ensures
        name == DockerExecutableName::Docker ==> name.spelled() == "docker"@,
        name == DockerExecutableName::DockerCompose ==> name.spelled() == "docker-compose"@,
{
}

} // verus!
