//! Finding a launcher that can be trusted.
use crate::command::docker::is_executable_mode;
use crate::path::{beneath, path_views, HostPath};
use crate::text::{join, joined_texts, readable, text_views};
use vstd::prelude::*;
use vstd::string::StringExecFns;
use vstd::utf8::encode_utf8;

verus! {

/// A trusted Bubblewrap.
#[derive(Clone, Debug, PartialEq, Eq)]
pub struct BubblewrapInstallation {
    path: HostPath,
}

impl View for BubblewrapInstallation {
    type V = Seq<u8>;

    closed spec fn view(&self) -> Seq<u8> {
        self.path@
    }
}

impl BubblewrapInstallation {
    pub fn path(&self) -> (path: &HostPath)
        ensures
            path@ == self@,
    {
        &self.path
    }

    pub fn into_path(self) -> (path: HostPath)
        ensures
            path@ == self@,
    {
        self.path
    }
}

#[derive(Debug, PartialEq, Eq)]
pub enum BubblewrapResolutionError {
    NotFound { searched: Vec<HostPath> },
    Rejected { rejections: Vec<String> },
}

/// The paths as text.
pub open spec fn displayed(paths: Seq<Seq<u8>>) -> Seq<Seq<char>> {
    Seq::new(paths.len(), |i: int| readable(paths[i]))
}

pub fn display_paths(paths: &Vec<HostPath>) -> (texts: Vec<String>)
    ensures
        text_views(texts@) == displayed(path_views(paths@)),
{
    let mut texts: Vec<String> = Vec::new();
    let mut index: usize = 0;
    while index < paths.len()
        invariant
            index <= paths@.len(),
            texts@.len() == index,
            forall|i: int| 0 <= i < index ==> (#[trigger] texts@[i])@ == readable(paths@[i]@),
        decreases paths.len() - index,
    {
        texts.push(paths[index].display());
        index += 1;
    }
    assert(text_views(texts@) =~= displayed(path_views(paths@)));
    texts
}

impl BubblewrapResolutionError {
    pub open spec fn words(self) -> Seq<char> {
        match self {
            BubblewrapResolutionError::NotFound { searched } =>
                "Bubblewrap was not found at a trusted system location; checked: "@
                    + joined_texts(displayed(path_views(searched@)), ", "@),
            BubblewrapResolutionError::Rejected { rejections } =>
                "trusted Bubblewrap candidates were rejected: "@ + joined_texts(
                    text_views(rejections@),
                    "; "@,
                ),
        }
    }

    /// The error in words.
    pub fn describe(&self) -> (words: String)
        ensures
            words@ == self.words(),
    {
        match self {
            BubblewrapResolutionError::NotFound { searched } =>
                "Bubblewrap was not found at a trusted system location; checked: ".to_owned().concat(
                join(&display_paths(searched), ", ").as_str()),
            BubblewrapResolutionError::Rejected { rejections } =>
                "trusted Bubblewrap candidates were rejected: ".to_owned().concat(
                join(rejections, "; ").as_str()),
        }
    }
}

/// What stands where a launcher may be.
#[derive(Debug, PartialEq, Eq)]
pub enum CandidateObservation {
    Missing,
    Failed(String),
    Found { canonical: Result<HostPath, String>, is_file: bool, mode: u32 },
}

#[derive(Debug, PartialEq, Eq)]
pub struct BubblewrapCandidate {
    pub observation: CandidateObservation,
    pub path: HostPath,
}

/// What becomes of a candidate.
pub enum CandidateVerdict {
    Missing,
    Rejected(Seq<char>),
    Trusted(Seq<u8>),
}

pub open spec fn is_trusted_place(path: Seq<u8>, trusted_roots: Seq<Seq<u8>>) -> bool {
    exists|i: int| 0 <= i < trusted_roots.len() && beneath(path, #[trigger] trusted_roots[i])
}

/// A candidate is trusted where it is an executable file that resolves to a place beneath a
/// trusted root.
pub open spec fn verdict_on(candidate: BubblewrapCandidate, trusted_roots: Seq<Seq<u8>>) ->
    CandidateVerdict {
    let shown = readable(candidate.path@);
    match candidate.observation {
        CandidateObservation::Missing => CandidateVerdict::Missing,
        CandidateObservation::Failed(error) => CandidateVerdict::Rejected(
            shown + ": "@ + error@,
        ),
        CandidateObservation::Found { canonical, is_file, mode } => if !is_file {
            CandidateVerdict::Rejected(shown + " is not a regular file"@)
        } else if !is_executable_mode(mode) {
            CandidateVerdict::Rejected(shown + " is not executable"@)
        } else {
            match canonical {
                Err(error) => CandidateVerdict::Rejected(shown + ": "@ + error@),
                Ok(path) => if is_trusted_place(path@, trusted_roots) {
                    CandidateVerdict::Trusted(path@)
                } else {
                    CandidateVerdict::Rejected(
                        shown + " resolves outside trusted system roots to "@ + readable(path@),
                    )
                },
            }
        },
    }
}

/// The rejections of the candidates, in order.
pub open spec fn rejections_of(
    candidates: Seq<BubblewrapCandidate>,
    trusted_roots: Seq<Seq<u8>>,
) -> Seq<Seq<char>>
    decreases candidates.len(),
{
    if candidates.len() == 0 {
        Seq::empty()
    } else {
        let before = rejections_of(candidates.drop_last(), trusted_roots);
        match verdict_on(candidates.last(), trusted_roots) {
            CandidateVerdict::Rejected(words) => before.push(words),
            _ => before,
        }
    }
}

/// None of the first `count` candidates is trusted.
pub open spec fn none_trusted(
    candidates: Seq<BubblewrapCandidate>,
    trusted_roots: Seq<Seq<u8>>,
    count: int,
) -> bool {
    forall|i: int|
        0 <= i < count ==> !(#[trigger] verdict_on(candidates[i], trusted_roots) is Trusted)
}

/// Whether `outcome` is what the candidates come to: the first that is trusted, or every
/// rejection, or that there is none.
pub open spec fn is_resolution(
    candidates: Seq<BubblewrapCandidate>,
    trusted_roots: Seq<Seq<u8>>,
    outcome: Result<BubblewrapInstallation, BubblewrapResolutionError>,
) -> bool {
    match outcome {
        Ok(installation) => exists|at: int|
            0 <= at < candidates.len() && none_trusted(candidates, trusted_roots, at)
                && #[trigger] verdict_on(candidates[at], trusted_roots)
                == CandidateVerdict::Trusted(installation@),
        Err(BubblewrapResolutionError::Rejected { rejections }) => {
            &&& none_trusted(candidates, trusted_roots, candidates.len() as int)
            &&& rejections_of(candidates, trusted_roots).len() > 0
            &&& text_views(rejections@) == rejections_of(candidates, trusted_roots)
        },
        Err(BubblewrapResolutionError::NotFound { searched }) => {
            &&& none_trusted(candidates, trusted_roots, candidates.len() as int)
            &&& rejections_of(candidates, trusted_roots).len() == 0
            &&& path_views(searched@) == Seq::new(
                candidates.len(),
                |i: int| candidates[i].path@,
            )
        },
    }
}

fn resolves_to_trusted_place(path: &HostPath, trusted_roots: &Vec<HostPath>) -> (trusted: bool)
    ensures
        trusted == is_trusted_place(path@, path_views(trusted_roots@)),
{
    let ghost views = path_views(trusted_roots@);
    let mut index: usize = 0;
    while index < trusted_roots.len()
        invariant
            index <= trusted_roots@.len(),
            views == path_views(trusted_roots@),
            forall|i: int| 0 <= i < index ==> !beneath(path@, #[trigger] views[i]),
        decreases trusted_roots.len() - index,
    {
        assert(views[index as int] == trusted_roots@[index as int]@);
        if path.starts_with(&trusted_roots[index]) {
            return true;
        }
        index += 1;
    }
    false
}

/// Judges a candidate: nothing where it is missing, the installation where it is trusted, and why
/// it is rejected otherwise.
fn judge_candidate(candidate: &BubblewrapCandidate, trusted_roots: &Vec<HostPath>) -> (judged: Option<
    Result<BubblewrapInstallation, String>,
>)
    ensures
        match verdict_on(*candidate, path_views(trusted_roots@)) {
            CandidateVerdict::Missing => judged is None,
            CandidateVerdict::Rejected(words) => judged is Some && judged->0 is Err
                && judged->0->Err_0@ == words,
            CandidateVerdict::Trusted(path) => judged is Some && judged->0 is Ok
                && judged->0->Ok_0@ == path,
        },
{
    let shown = candidate.path.display();
    match &candidate.observation {
        CandidateObservation::Missing => None,
        CandidateObservation::Failed(error) => Some(
            Err(shown.concat(": ").concat(error.as_str())),
        ),
        CandidateObservation::Found { canonical, is_file, mode } => if !*is_file {
            Some(Err(shown.concat(" is not a regular file")))
        } else if *mode & 0o111 == 0 {
            Some(Err(shown.concat(" is not executable")))
        } else {
            match canonical {
                Err(error) => Some(Err(shown.concat(": ").concat(error.as_str()))),
                Ok(path) => if resolves_to_trusted_place(path, trusted_roots) {
                    Some(Ok(BubblewrapInstallation { path: path.clone() }))
                } else {
                    Some(
                        Err(
                            shown.concat(" resolves outside trusted system roots to ").concat(
                                path.display().as_str(),
                            ),
                        ),
                    )
                },
            }
        },
    }
}

/// The first candidate that can be trusted.
pub fn resolve_bubblewrap_from(
    candidates: &Vec<BubblewrapCandidate>,
    trusted_roots: &Vec<HostPath>,
) -> (outcome: Result<BubblewrapInstallation, BubblewrapResolutionError>)
    ensures
        is_resolution(candidates@, path_views(trusted_roots@), outcome),
{
    let ghost roots = path_views(trusted_roots@);
    let mut rejections: Vec<String> = Vec::new();
    let mut searched: Vec<HostPath> = Vec::new();
    let mut index: usize = 0;
    proof {
        assert(candidates@.take(0) =~= Seq::empty());
        assert(text_views(rejections@) =~= Seq::empty());
    }
    while index < candidates.len()
        invariant
            index <= candidates@.len(),
            roots == path_views(trusted_roots@),
            none_trusted(candidates@, roots, index as int),
            text_views(rejections@) == rejections_of(candidates@.take(index as int), roots),
            searched@.len() == index,
            forall|i: int|
                0 <= i < index ==> (#[trigger] searched@[i])@ == candidates@[i].path@,
        decreases candidates.len() - index,
    {
        let candidate = &candidates[index];
        let ghost before = text_views(rejections@);
        proof {
            let here = candidates@.take(index + 1);
            assert(here.drop_last() =~= candidates@.take(index as int));
            assert(here.last() == *candidate);
        }
        match judge_candidate(candidate, trusted_roots) {
            None => {},
            Some(Ok(installation)) => {
                assert(verdict_on(candidates@[index as int], roots) == CandidateVerdict::Trusted(
                    installation@,
                ));
                return Ok(installation);
            },
            Some(Err(words)) => {
                rejections.push(words);
                assert(text_views(rejections@) =~= before.push(words@));
            },
        }
        searched.push(candidate.path.clone());
        index += 1;
    }
    assert(candidates@.take(candidates@.len() as int) =~= candidates@);
    if rejections.len() > 0 {
        assert(text_views(rejections@).len() > 0);
        return Err(BubblewrapResolutionError::Rejected { rejections });
    }
    assert(text_views(rejections@).len() == 0);
    assert(path_views(searched@) =~= Seq::new(
        candidates@.len(),
        |i: int| candidates@[i].path@,
    ));
    Err(BubblewrapResolutionError::NotFound { searched })
}

/// Where a launcher may stand.
pub open spec fn launcher_places() -> Seq<Seq<u8>> {
    seq![
        encode_utf8("/usr/bin/bwrap"@),
        encode_utf8("/bin/bwrap"@),
        encode_utf8("/run/current-system/sw/bin/bwrap"@),
    ]
}

pub fn trusted_candidates() -> (paths: Vec<HostPath>)
    ensures
        path_views(paths@) == launcher_places(),
{
    let paths = vec![
        HostPath::from_text("/usr/bin/bwrap"),
        HostPath::from_text("/bin/bwrap"),
        HostPath::from_text("/run/current-system/sw/bin/bwrap"),
    ];
    assert(path_views(paths@) =~= launcher_places());
    paths
}

/// The roots beneath which a launcher is trusted, before they are resolved.
pub open spec fn launcher_roots() -> Seq<Seq<u8>> {
    seq![encode_utf8("/usr/bin"@), encode_utf8("/bin"@), encode_utf8("/nix/store"@)]
}

pub fn trusted_target_roots() -> (paths: Vec<HostPath>)
    ensures
        path_views(paths@) == launcher_roots(),
{
    let paths = vec![
        HostPath::from_text("/usr/bin"),
        HostPath::from_text("/bin"),
        HostPath::from_text("/nix/store"),
    ];
    assert(path_views(paths@) =~= launcher_roots());
    paths
}

/// Whether the candidates are what was observed at some places, in order.
pub open spec fn observed_at(
    candidates: Seq<BubblewrapCandidate>,
    places: Seq<Seq<u8>>,
    observations: Seq<CandidateObservation>,
) -> bool {
    &&& candidates.len() == places.len() == observations.len()
    &&& forall|i: int|
        0 <= i < places.len() ==> (#[trigger] candidates[i]).path@ == places[i]
            && candidates[i].observation == observations[i]
}

/// What was observed in the places where a launcher may stand, and what the trusted roots resolve
/// to, where they do.
#[derive(Debug)]
pub struct LauncherObservations {
    pub bin: CandidateObservation,
    pub current_system: CandidateObservation,
    pub roots: Vec<HostPath>,
    pub usr_bin: CandidateObservation,
}

/// The launcher to use.
pub fn resolve_bubblewrap(observed: LauncherObservations) -> (outcome: Result<
    BubblewrapInstallation,
    BubblewrapResolutionError,
>)
    ensures
        exists|candidates: Seq<BubblewrapCandidate>|
            observed_at(
                candidates,
                launcher_places(),
                seq![observed.usr_bin, observed.bin, observed.current_system],
            ) && #[trigger] is_resolution(candidates, path_views(observed.roots@), outcome),
{
    let ghost observations = seq![observed.usr_bin, observed.bin, observed.current_system];
    let candidates = vec![
        BubblewrapCandidate {
            observation: observed.usr_bin,
            path: HostPath::from_text("/usr/bin/bwrap"),
        },
        BubblewrapCandidate { observation: observed.bin, path: HostPath::from_text("/bin/bwrap") },
        BubblewrapCandidate {
            observation: observed.current_system,
            path: HostPath::from_text("/run/current-system/sw/bin/bwrap"),
        },
    ];
    assert(observed_at(candidates@, launcher_places(), observations));
    resolve_bubblewrap_from(&candidates, &observed.roots)
}

/// A launcher is only ever resolved beneath a trusted root.
pub proof fn resolved_launchers_are_trusted(
    candidates: Seq<BubblewrapCandidate>,
    trusted_roots: Seq<Seq<u8>>,
    installation: BubblewrapInstallation,
)
    requires
        is_resolution(candidates, trusted_roots, Ok(installation)),
    ensures
        is_trusted_place(installation@, trusted_roots),
{
}

/// Whether what was observed is a launcher that can be trusted: an executable file that resolves
/// to a place beneath a root.
pub open spec fn is_sound_launcher(
    observation: CandidateObservation,
    roots: Seq<HostPath>,
) -> bool {
    observation matches CandidateObservation::Found { canonical: Ok(path), is_file, mode }
        && is_file && mode & 0o111 != 0 && exists|i: int|
        0 <= i < roots.len() && beneath(path@, (#[trigger] roots[i])@)
}

proof fn lemma_sound_launcher(candidate: BubblewrapCandidate, roots: Seq<HostPath>)
    ensures
        verdict_on(candidate, path_views(roots)) is Trusted <==> is_sound_launcher(
            candidate.observation,
            roots,
        ),
        verdict_on(candidate, path_views(roots)) matches CandidateVerdict::Trusted(path) ==> path
            == candidate.observation->canonical->Ok_0@,
        verdict_on(candidate, path_views(roots)) is Missing <==> candidate.observation is Missing,
{
    if let CandidateObservation::Found { canonical: Ok(path), is_file, mode } =
        candidate.observation {
        if is_trusted_place(path@, path_views(roots)) {
            let i = choose|i: int|
                0 <= i < path_views(roots).len() && beneath(
                    path@,
                    #[trigger] path_views(roots)[i],
                );
            assert(beneath(path@, roots[i]@));
        }
        if exists|i: int| 0 <= i < roots.len() && beneath(path@, (#[trigger] roots[i])@) {
            let i = choose|i: int|
                0 <= i < roots.len() && beneath(path@, (#[trigger] roots[i])@);
            assert(beneath(path@, path_views(roots)[i]));
        }
    }
}

/// The launcher in `/usr/bin` is taken where it is sound, else the one in `/bin`, else that of the
/// current system; where none is sound, there is none.
pub proof fn sound_launchers_are_taken_in_order(
    observed: LauncherObservations,
    outcome: Result<BubblewrapInstallation, BubblewrapResolutionError>,
)
    requires
        call_ensures(resolve_bubblewrap, (observed,), outcome),
    ensures
        ({
            let roots = observed.roots@;
            if is_sound_launcher(observed.usr_bin, roots) {
                outcome is Ok && outcome->Ok_0@ == observed.usr_bin->canonical->Ok_0@
            } else if is_sound_launcher(observed.bin, roots) {
                outcome is Ok && outcome->Ok_0@ == observed.bin->canonical->Ok_0@
            } else if is_sound_launcher(observed.current_system, roots) {
                outcome is Ok && outcome->Ok_0@ == observed.current_system->canonical->Ok_0@
            } else {
                outcome is Err
            }
        }),
        observed.usr_bin is Missing && observed.bin is Missing && observed.current_system is Missing
            ==> (outcome matches Err(BubblewrapResolutionError::NotFound { searched })
            && path_views(searched@) == seq![
            encode_utf8("/usr/bin/bwrap"@),
            encode_utf8("/bin/bwrap"@),
            encode_utf8("/run/current-system/sw/bin/bwrap"@),
        ]),
{
    let roots = path_views(observed.roots@);
    let observations = seq![observed.usr_bin, observed.bin, observed.current_system];
    let candidates = choose|candidates: Seq<BubblewrapCandidate>|
        observed_at(candidates, launcher_places(), observations) && #[trigger] is_resolution(
            candidates,
            roots,
            outcome,
        );
    assert(candidates.len() == 3);
    assert(candidates[0].observation == observations[0]);
    assert(candidates[1].observation == observations[1]);
    assert(candidates[2].observation == observations[2]);
    lemma_sound_launcher(candidates[0], observed.roots@);
    lemma_sound_launcher(candidates[1], observed.roots@);
    lemma_sound_launcher(candidates[2], observed.roots@);
    if let Ok(installation) = outcome {
        let at = choose|at: int|
            0 <= at < candidates.len() && none_trusted(candidates, roots, at)
                && #[trigger] verdict_on(candidates[at], roots) == CandidateVerdict::Trusted(
                installation@,
            );
        assert(at == 0 || at == 1 || at == 2);
        if at > 0 {
            assert(!(verdict_on(candidates[0], roots) is Trusted));
        }
        if at > 1 {
            assert(!(verdict_on(candidates[1], roots) is Trusted));
        }
    } else {
        assert(!(verdict_on(candidates[0], roots) is Trusted));
        assert(!(verdict_on(candidates[1], roots) is Trusted));
        assert(!(verdict_on(candidates[2], roots) is Trusted));
    }
    if observed.usr_bin is Missing && observed.bin is Missing
        && observed.current_system is Missing {
        reveal_with_fuel(rejections_of, 4);
        assert(candidates.last() == candidates[2]);
        assert(candidates.drop_last().last() == candidates[1]);
        assert(candidates.drop_last().drop_last().last() == candidates[0]);
        assert(rejections_of(candidates, roots).len() == 0);
        assert(Seq::new(candidates.len(), |i: int| candidates[i].path@) =~= launcher_places());
    }
}

/// A candidate that is there and is not sound is rejected with the reason.
pub proof fn unsound_launchers_are_named(
    candidate: BubblewrapCandidate,
    trusted_roots: Seq<Seq<u8>>,
)
    ensures
        ({
            let shown = readable(candidate.path@);
            let verdict = verdict_on(candidate, trusted_roots);
            match candidate.observation {
                CandidateObservation::Missing => verdict is Missing,
                CandidateObservation::Failed(error) => verdict == CandidateVerdict::Rejected(
                    shown + ": "@ + error@,
                ),
                CandidateObservation::Found { is_file: false, .. } => verdict
                    == CandidateVerdict::Rejected(shown + " is not a regular file"@),
                CandidateObservation::Found { canonical, is_file: true, mode } => {
                    &&& mode & 0o111 == 0 ==> verdict == CandidateVerdict::Rejected(
                        shown + " is not executable"@,
                    )
                    &&& mode & 0o111 != 0 && canonical is Err ==> verdict
                        == CandidateVerdict::Rejected(shown + ": "@ + canonical->Err_0@)
                    &&& mode & 0o111 != 0 && canonical is Ok && !(verdict is Trusted) ==> verdict
                        == CandidateVerdict::Rejected(
                        shown + " resolves outside trusted system roots to "@ + readable(
                            canonical->Ok_0@,
                        ),
                    )
                },
            }
        }),
{
}

/// A launcher is trusted beneath the system's own directories and the store, and nowhere else.
pub proof fn trusted_roots_are_the_systems(roots: Vec<HostPath>)
    requires
        call_ensures(trusted_target_roots, (), roots),
    ensures
        path_views(roots@) == seq![
            encode_utf8("/usr/bin"@),
            encode_utf8("/bin"@),
            encode_utf8("/nix/store"@),
        ],
{
}

} // verus!
