//! Finding the Git metadata of a workspace, which commands may read but not write.
use crate::path::{
    is_absolute_path, joined_path, lemma_parent_shorter, parent_of, path_views, same_path, HostPath,
};
use crate::text::{decimal, push_decimal, readable, strip_prefix, trim, trimmed_text};
use vstd::prelude::*;
use vstd::string::StringExecFns;
use vstd::utf8::encode_utf8;

verus! {

/// How long a file that points to Git metadata may be.
pub const MAX_GIT_POINTER_BYTES: u64 = 16384;

/// A path and those that contain it, the innermost first.
pub open spec fn ancestors_of(path: Seq<u8>) -> Seq<Seq<u8>>
    decreases path.len(),
{
    match parent_of(path) {
        None => seq![path],
        Some(parent) => {
            proof {
                lemma_parent_shorter(path);
            }
            seq![path] + ancestors_of(parent)
        },
    }
}

/// Where the Git metadata of a workspace may stand: `.git` in it and in each directory above.
pub open spec fn git_candidate_paths(workspace: Seq<u8>) -> Seq<Seq<u8>> {
    let ancestors = ancestors_of(workspace);
    Seq::new(ancestors.len(), |i: int| joined_path(ancestors[i], encode_utf8(".git"@)))
}

pub fn git_candidates(workspace: &HostPath) -> (candidates: Vec<HostPath>)
    ensures
        path_views(candidates@) == git_candidate_paths(workspace@),
    decreases workspace@.len(),
{
    let mut candidates: Vec<HostPath> = Vec::new();
    candidates.push(workspace.join(&HostPath::from_text(".git")));
    match workspace.parent() {
        None => {},
        Some(parent) => {
            proof {
                lemma_parent_shorter(workspace@);
            }
            let mut above = git_candidates(&parent);
            let ghost first = candidates@;
            let ghost higher = above@;
            candidates.append(&mut above);
            proof {
                assert(path_views(candidates@) =~= path_views(first) + path_views(higher));
            }
        },
    }
    proof {
        assert(path_views(candidates@) =~= git_candidate_paths(workspace@));
    }
    candidates
}

/// What stands at a candidate.
#[derive(Debug, PartialEq, Eq)]
pub enum DotGitObservation {
    Missing,
    Directory { canonical: Result<HostPath, String> },
    File,
    Other,
    Failed(String),
}

#[derive(Debug, PartialEq, Eq)]
pub struct DotGit {
    pub observation: DotGitObservation,
    pub path: HostPath,
}

/// Where the search for Git metadata leads.
#[derive(Debug, PartialEq, Eq)]
pub enum GitDiscovery {
    /// There is none.
    NotFound,
    /// It is this directory.
    Directory(HostPath),
    /// This file points to it.
    Pointer(HostPath),
    Failed(String),
}

/// Whether `discovery` is what the candidate at hand leads to.
pub open spec fn leads_to(candidate: DotGit, discovery: GitDiscovery) -> bool {
    match candidate.observation {
        DotGitObservation::Missing => false,
        DotGitObservation::Directory { canonical } => match canonical {
            Ok(path) => discovery matches GitDiscovery::Directory(found) && found@ == path@,
            Err(error) => discovery matches GitDiscovery::Failed(words) && words@ == error@,
        },
        DotGitObservation::File => discovery matches GitDiscovery::Pointer(found) && found@
            == candidate.path@,
        DotGitObservation::Other => discovery matches GitDiscovery::Failed(words) && words@
            == readable(candidate.path@) + " is neither a file nor directory"@,
        DotGitObservation::Failed(error) => discovery matches GitDiscovery::Failed(words) && words@
            == error@,
    }
}

/// Whether `discovery` is what the candidates lead to: the innermost that is there decides.
pub open spec fn is_discovery(candidates: Seq<DotGit>, discovery: GitDiscovery) -> bool {
    ||| discovery is NotFound && forall|i: int|
        0 <= i < candidates.len() ==> (#[trigger] candidates[i]).observation is Missing
    ||| exists|at: int|
        0 <= at < candidates.len() && #[trigger] leads_to(candidates[at], discovery) && forall|
            i: int,
        |
            0 <= i < at ==> (#[trigger] candidates[i]).observation is Missing
}

/// The innermost candidate that is there decides.
pub fn discover_git_metadata(candidates: &Vec<DotGit>) -> (discovery: GitDiscovery)
    ensures
        is_discovery(candidates@, discovery),
{
    let mut index: usize = 0;
    while index < candidates.len()
        invariant
            index <= candidates@.len(),
            forall|i: int|
                0 <= i < index ==> (#[trigger] candidates@[i]).observation is Missing,
        decreases candidates.len() - index,
    {
        let candidate = &candidates[index];
        let discovery = match &candidate.observation {
            DotGitObservation::Missing => GitDiscovery::NotFound,
            DotGitObservation::Directory { canonical } => match canonical {
                Ok(path) => GitDiscovery::Directory(path.clone()),
                Err(error) => GitDiscovery::Failed(error.clone()),
            },
            DotGitObservation::File => GitDiscovery::Pointer(candidate.path.clone()),
            DotGitObservation::Other => GitDiscovery::Failed(
                candidate.path.display().concat(" is neither a file nor directory"),
            ),
            DotGitObservation::Failed(error) => GitDiscovery::Failed(error.clone()),
        };
        let missing = match &candidate.observation {
            DotGitObservation::Missing => true,
            _ => false,
        };
        if !missing {
            assert(leads_to(candidates@[index as int], discovery));
            return discovery;
        }
        index += 1;
    }
    GitDiscovery::NotFound
}

/// Refuses to read a pointer that is too long.
pub fn check_git_pointer(path: &HostPath, length: u64) -> (outcome: Result<(), String>)
    ensures
        match outcome {
            Ok(()) => length <= MAX_GIT_POINTER_BYTES,
            Err(words) => length > MAX_GIT_POINTER_BYTES && words@ == readable(path@)
                + " exceeds the "@ + decimal(MAX_GIT_POINTER_BYTES as nat)
                + "-byte Git pointer limit"@,
        },
{
    if length > MAX_GIT_POINTER_BYTES {
        let mut words = path.display().concat(" exceeds the ");
        push_decimal(&mut words, MAX_GIT_POINTER_BYTES);
        return Err(words.concat("-byte Git pointer limit"));
    }
    Ok(())
}

/// Where a pointer leads that holds `contents` and is read relative to `base`.
pub fn resolve_git_pointer_path(base: &HostPath, contents: &str) -> (path: HostPath)
    ensures
        path@ == joined_path(base@, encode_utf8(trimmed_text(contents@))),
{
    base.join(&HostPath::from_text(trim(contents).as_str()))
}

/// Where the `.git` file of a linked worktree leads.
pub fn pointed_git_directory(dot_git: &HostPath, contents: &str) -> (directory: Result<
    HostPath,
    String,
>)
    requires
        parent_of(dot_git@) is Some,
    ensures
        match directory {
            Ok(path) => "gitdir: "@.is_prefix_of(trimmed_text(contents@)) && path@ == joined_path(
                parent_of(dot_git@)->0,
                encode_utf8(trimmed_text(contents@).skip("gitdir: "@.len() as int)),
            ),
            Err(words) => !"gitdir: "@.is_prefix_of(trimmed_text(contents@)) && words@
                == "invalid .git file"@,
        },
{
    match strip_prefix(trim(contents).as_str(), "gitdir: ") {
        None => Err("invalid .git file".to_owned()),
        Some(pointed) => match dot_git.parent() {
            None => Err("invalid .git file".to_owned()),
            Some(parent) => Ok(parent.join(&HostPath::from_text(pointed.as_str()))),
        },
    }
}

/// What the host says of a linked worktree: what its paths resolve to, and whether the files
/// that tie it to its repository are there.
#[derive(Debug, PartialEq, Eq)]
pub struct LinkedWorktreeFacts {
    pub backlink: Result<HostPath, String>,
    pub common_dir: Result<HostPath, String>,
    pub dot_git: Result<HostPath, String>,
    pub git_dir: Result<HostPath, String>,
    pub has_backlink: bool,
    pub has_common_dir: bool,
}

/// A worktree is linked where its administration directory points back to it and stands in the
/// `worktrees` directory of the repository.
pub open spec fn is_linked_worktree(facts: LinkedWorktreeFacts) -> bool {
    &&& facts.git_dir is Ok
    &&& facts.dot_git is Ok
    &&& facts.has_backlink
    &&& facts.has_common_dir
    &&& facts.backlink is Ok
    &&& same_path(facts.backlink->Ok_0@, facts.dot_git->Ok_0@)
    &&& facts.common_dir is Ok
    &&& administers(facts.common_dir->Ok_0@, facts.git_dir->Ok_0@)
}

pub open spec fn administers(common_dir: Seq<u8>, git_dir: Seq<u8>) -> bool {
    parent_of(git_dir) is Some && same_path(
        parent_of(git_dir)->0,
        joined_path(common_dir, encode_utf8("worktrees"@)),
    )
}

/// Why a worktree is not accepted as linked: the first thing that does not hold.
pub open spec fn worktree_fault(dot_git: Seq<u8>, facts: LinkedWorktreeFacts) -> Seq<char> {
    match facts.git_dir {
        Err(error) => error@,
        Ok(git_dir) => match facts.dot_git {
            Err(error) => error@,
            Ok(canonical) => if !facts.has_backlink || !facts.has_common_dir {
                readable(dot_git) + " does not identify a supported linked worktree"@
            } else {
                match facts.backlink {
                    Err(error) => error@,
                    Ok(backlink) => if !same_path(backlink@, canonical@) {
                        readable(joined_path(git_dir@, encode_utf8("gitdir"@)))
                            + " does not point back to "@ + readable(dot_git)
                    } else {
                        match facts.common_dir {
                            Err(error) => error@,
                            Ok(_) => readable(git_dir@)
                                + " is outside the common Git worktree administration directory"@,
                        }
                    },
                }
            },
        },
    }
}

/// The metadata of a linked worktree: its `.git` file, its administration directory and the
/// repository.
pub fn linked_worktree_metadata(dot_git: &HostPath, facts: LinkedWorktreeFacts) -> (outcome: Result<
    Vec<HostPath>,
    String,
>)
    ensures
        match outcome {
            Ok(paths) => is_linked_worktree(facts) && path_views(paths@) == seq![
                facts.dot_git->Ok_0@,
                facts.git_dir->Ok_0@,
                facts.common_dir->Ok_0@,
            ],
            Err(words) => !is_linked_worktree(facts) && words@ == worktree_fault(dot_git@, facts),
        },
{
    let git_dir = match facts.git_dir {
        Err(error) => {
            return Err(error);
        },
        Ok(git_dir) => git_dir,
    };
    let canonical_dot_git = match facts.dot_git {
        Err(error) => {
            return Err(error);
        },
        Ok(canonical) => canonical,
    };
    if !facts.has_backlink || !facts.has_common_dir {
        return Err(
            dot_git.display().concat(" does not identify a supported linked worktree"),
        );
    }
    let backlink = match facts.backlink {
        Err(error) => {
            return Err(error);
        },
        Ok(backlink) => backlink,
    };
    if !backlink.same(&canonical_dot_git) {
        let backlink_file = git_dir.join(&HostPath::from_text("gitdir"));
        return Err(
            backlink_file.display().concat(" does not point back to ").concat(
                dot_git.display().as_str(),
            ),
        );
    }
    let common_dir = match facts.common_dir {
        Err(error) => {
            return Err(error);
        },
        Ok(common_dir) => common_dir,
    };
    let expected_worktrees = common_dir.join(&HostPath::from_text("worktrees"));
    let administered = match git_dir.parent() {
        None => false,
        Some(parent) => parent.same(&expected_worktrees),
    };
    if !administered {
        return Err(
            git_dir.display().concat(
                " is outside the common Git worktree administration directory",
            ),
        );
    }
    let mut paths: Vec<HostPath> = Vec::new();
    paths.push(canonical_dot_git);
    paths.push(git_dir);
    paths.push(common_dir);
    assert(path_views(paths@) =~= seq![
        facts.dot_git->Ok_0@,
        facts.git_dir->Ok_0@,
        facts.common_dir->Ok_0@,
    ]);
    Ok(paths)
}

/// Git metadata is looked for in the workspace first, then in the directory that contains it, and
/// so on up to the root.
pub proof fn metadata_is_looked_for_upwards(workspace: Seq<u8>)
    ensures
        git_candidate_paths(workspace).len() > 0,
        git_candidate_paths(workspace)[0] == joined_path(workspace, encode_utf8(".git"@)),
        match parent_of(workspace) {
            None => git_candidate_paths(workspace).len() == 1,
            Some(parent) => git_candidate_paths(workspace).skip(1) == git_candidate_paths(parent),
        },
{
    if let Some(parent) = parent_of(workspace) {
        lemma_parent_shorter(workspace);
        assert(ancestors_of(workspace) =~= seq![workspace] + ancestors_of(parent));
        assert(git_candidate_paths(workspace).skip(1) =~= git_candidate_paths(parent));
    }
}

/// What stands innermost decides: a directory is the metadata, a file points to it, and anything
/// else is an error. Where nothing stands anywhere, there is none.
pub proof fn innermost_metadata_decides(
    candidates: &Vec<DotGit>,
    at: int,
    discovery: GitDiscovery,
)
    requires
        call_ensures(discover_git_metadata, (candidates,), discovery),
        0 <= at <= candidates@.len(),
        forall|i: int|
            0 <= i < at ==> (#[trigger] candidates@[i]).observation is Missing,
    ensures
        at == candidates@.len() ==> discovery is NotFound,
        at < candidates@.len() ==> match candidates@[at].observation {
            DotGitObservation::Missing => true,
            DotGitObservation::Directory { canonical: Ok(path) } => discovery matches
                GitDiscovery::Directory(found) && found@ == path@,
            DotGitObservation::Directory { canonical: Err(error) } => discovery matches
                GitDiscovery::Failed(words) && words@ == error@,
            DotGitObservation::File => discovery matches GitDiscovery::Pointer(found) && found@
                == candidates@[at].path@,
            DotGitObservation::Other => discovery matches GitDiscovery::Failed(words) && words@
                == readable(candidates@[at].path@) + " is neither a file nor directory"@,
            DotGitObservation::Failed(error) => discovery matches GitDiscovery::Failed(words)
                && words@ == error@,
        },
{
    assert(is_discovery(candidates@, discovery));
    if exists|place: int|
        0 <= place < candidates@.len() && #[trigger] leads_to(candidates@[place], discovery)
            && forall|i: int|
            0 <= i < place ==> (#[trigger] candidates@[i]).observation is Missing {
        let place = choose|place: int|
            0 <= place < candidates@.len() && #[trigger] leads_to(candidates@[place], discovery)
                && forall|i: int|
                0 <= i < place ==> (#[trigger] candidates@[i]).observation is Missing;
        if at < candidates@.len() && !(candidates@[at].observation is Missing) {
            assert(place == at);
        }
        assert(place >= at);
    }
}

/// A linked worktree is exposed as its `.git` file, its own directory and the repository's, exactly
/// where its own directory points back to it and stands in the repository's `worktrees`.
pub proof fn linked_worktrees_are_exposed_whole(
    dot_git: &HostPath,
    facts: LinkedWorktreeFacts,
    outcome: Result<Vec<HostPath>, String>,
)
    requires
        call_ensures(linked_worktree_metadata, (dot_git, facts), outcome),
    ensures
        outcome is Ok <==> {
            &&& facts.git_dir is Ok
            &&& facts.dot_git is Ok
            &&& facts.has_backlink
            &&& facts.has_common_dir
            &&& facts.backlink is Ok
            &&& facts.common_dir is Ok
            &&& same_path(facts.backlink->Ok_0@, facts.dot_git->Ok_0@)
            &&& parent_of(facts.git_dir->Ok_0@) is Some
            &&& same_path(
                parent_of(facts.git_dir->Ok_0@)->0,
                joined_path(facts.common_dir->Ok_0@, encode_utf8("worktrees"@)),
            )
        },
        outcome matches Ok(paths) ==> {
            &&& paths@.len() == 3
            &&& paths@[0]@ == facts.dot_git->Ok_0@
            &&& paths@[1]@ == facts.git_dir->Ok_0@
            &&& paths@[2]@ == facts.common_dir->Ok_0@
        },
{
    if let Ok(paths) = outcome {
        let views = path_views(paths@);
        assert(views.len() == 3);
        assert(views[0] == paths@[0]@ && views[1] == paths@[1]@ && views[2] == paths@[2]@);
    }
}

/// A `.git` file leads where it says behind `gitdir: `, read from the directory in which it stands;
/// white space around it makes no difference. Any other file is refused.
pub proof fn pointers_lead_where_they_say(
    dot_git: &HostPath,
    contents: &str,
    target: Seq<char>,
    directory: Result<HostPath, String>,
)
    requires
        parent_of(dot_git@) is Some,
        call_ensures(pointed_git_directory, (dot_git, contents), directory),
    ensures
        trimmed_text(contents@) == "gitdir: "@ + target ==> directory is Ok && directory->Ok_0@
            == joined_path(parent_of(dot_git@)->0, encode_utf8(target)),
        !"gitdir: "@.is_prefix_of(trimmed_text(contents@)) ==> directory is Err,
{
    let prefix = "gitdir: "@;
    if trimmed_text(contents@) == prefix + target {
        assert(prefix =~= (prefix + target).subrange(0, prefix.len() as int));
        assert((prefix + target).skip(prefix.len() as int) =~= target);
    }
}

/// A pointer of up to sixteen kibibytes is read, and no longer one.
pub proof fn long_pointers_are_not_read(
    path: &HostPath,
    length: u64,
    outcome: Result<(), String>,
)
    requires
        call_ensures(check_git_pointer, (path, length), outcome),
    ensures
        outcome is Ok <==> length <= 16384,
{
}

/// A pointer inside the metadata leads to its path where that is absolute, and else to that path
/// read from where the pointer stands; white space around it makes no difference.
pub proof fn inner_pointers_lead_where_they_say(
    base: &HostPath,
    contents: &str,
    path: HostPath,
)
    requires
        call_ensures(resolve_git_pointer_path, (base, contents), path),
    ensures
        ({
            let target = encode_utf8(trimmed_text(contents@));
            &&& is_absolute_path(target) ==> path@ == target
            &&& target.len() > 0 && !is_absolute_path(target) && base@.len() > 0 && base@.last()
                != 47 ==> path@ == base@ + seq![47u8] + target
        }),
{
    let target = encode_utf8(trimmed_text(contents@));
    assert(base@.push(47) + target =~= base@ + seq![47u8] + target);
}

} // verus!
