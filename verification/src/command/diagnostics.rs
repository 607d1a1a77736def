//! What the host offers for sandboxed commands, and how that is reported.
use crate::command::linux::diagnosis::{
    diagnose_linux_sandbox, diagnoses, LinuxHostFacts, SandboxDiagnosticInput,
    PROBE_CAPABILITY_COUNT,
};
use crate::command::policy::{
    grant_views, CommandSandboxPolicy, GrantView, PolicyView, SandboxPathGrant,
};
use crate::path::{path_views, HostPath};
use crate::text::{decode_lossily, readable};
use vstd::prelude::*;
use vstd::string::StringExecFns;

verus! {

#[derive(Clone, Copy, Debug, PartialEq, Eq, Structural)]
pub enum DiagnosticImportance {
    Mandatory,
    Optional,
}

#[derive(Clone, Copy, Debug, PartialEq, Eq, Structural)]
pub enum DiagnosticStatus {
    Failed,
    Passed,
}

/// One thing that was looked at.
#[derive(Clone, Debug, PartialEq, Eq)]
pub struct SandboxDiagnosticFinding {
    pub detail: String,
    pub importance: DiagnosticImportance,
    pub name: String,
    pub status: DiagnosticStatus,
}

pub struct FindingView {
    pub detail: Seq<char>,
    pub importance: DiagnosticImportance,
    pub name: Seq<char>,
    pub status: DiagnosticStatus,
}

impl View for SandboxDiagnosticFinding {
    type V = FindingView;

    open spec fn view(&self) -> FindingView {
        FindingView {
            detail: self.detail@,
            importance: self.importance,
            name: self.name@,
            status: self.status,
        }
    }
}

pub open spec fn finding_views(findings: Seq<SandboxDiagnosticFinding>) -> Seq<FindingView> {
    Seq::new(findings.len(), |i: int| findings[i]@)
}

pub open spec fn required(name: Seq<char>, status: DiagnosticStatus, detail: Seq<char>) -> FindingView {
    FindingView { detail, importance: DiagnosticImportance::Mandatory, name, status }
}

impl SandboxDiagnosticFinding {
    pub fn mandatory(name: &str, status: DiagnosticStatus, detail: &str) -> (finding: Self)
        ensures
            finding@ == required(name@, status, detail@),
    {
        SandboxDiagnosticFinding {
            detail: detail.to_owned(),
            importance: DiagnosticImportance::Mandatory,
            name: name.to_owned(),
            status,
        }
    }

    pub fn optional(name: &str, status: DiagnosticStatus, detail: &str) -> (finding: Self)
        ensures
            finding@ == (FindingView {
                detail: detail@,
                importance: DiagnosticImportance::Optional,
                name: name@,
                status,
            }),
    {
        SandboxDiagnosticFinding {
            detail: detail.to_owned(),
            importance: DiagnosticImportance::Optional,
            name: name.to_owned(),
            status,
        }
    }
}

/// What was found out about sandboxing on this host.
#[derive(Clone, Debug, PartialEq, Eq)]
pub struct SandboxDiagnosticReport {
    pub backend: String,
    pub bubblewrap_path: Option<HostPath>,
    pub bubblewrap_version: Option<String>,
    pub findings: Vec<SandboxDiagnosticFinding>,
    pub platform: String,
    pub policy: Option<CommandSandboxPolicy>,
}

/// Sandboxing is supported where everything that is required was found.
pub open spec fn all_required_passed(findings: Seq<FindingView>) -> bool {
    forall|i: int|
        0 <= i < findings.len() ==> (#[trigger] findings[i]).importance
            == DiagnosticImportance::Optional || findings[i].status == DiagnosticStatus::Passed
}

pub open spec fn finding_line(finding: FindingView) -> Seq<char> {
    "  ["@ + (match finding.status {
        DiagnosticStatus::Failed => "FAIL"@,
        DiagnosticStatus::Passed => "ok"@,
    }) + "] "@ + finding.name + " ("@ + (match finding.importance {
        DiagnosticImportance::Mandatory => "required"@,
        DiagnosticImportance::Optional => "optional"@,
    }) + "): "@ + finding.detail + "\n"@
}

pub open spec fn finding_lines(findings: Seq<FindingView>) -> Seq<char>
    decreases findings.len(),
{
    if findings.len() == 0 {
        Seq::empty()
    } else {
        finding_lines(findings.drop_last()) + finding_line(findings.last())
    }
}

pub open spec fn grant_line(grant: GrantView) -> Seq<char> {
    "    "@ + grant.access.spelled() + " "@ + grant.purpose.spelled() + ": "@ + readable(
        grant.path,
    ) + "\n"@
}

pub open spec fn grant_lines(grants: Seq<GrantView>) -> Seq<char>
    decreases grants.len(),
{
    if grants.len() == 0 {
        Seq::empty()
    } else {
        grant_lines(grants.drop_last()) + grant_line(grants.last())
    }
}

/// The directories as one `PATH`; none where one of them holds a colon.
pub open spec fn search_path(paths: Seq<Seq<u8>>) -> Option<Seq<u8>>
    decreases paths.len(),
{
    if paths.len() == 0 {
        Some(Seq::empty())
    } else {
        match search_path(paths.drop_last()) {
            None => None,
            Some(before) => if paths.last().contains(58) {
                None
            } else if paths.len() == 1 {
                Some(paths.last())
            } else {
                Some(before.push(58) + paths.last())
            },
        }
    }
}

pub open spec fn search_path_text(paths: Seq<Seq<u8>>) -> Seq<char> {
    match search_path(paths) {
        None => "<not representable>"@,
        Some(bytes) => readable(bytes),
    }
}

pub open spec fn policy_text(policy: PolicyView) -> Seq<char> {
    "  exposed roots:\n"@ + grant_lines(policy.grants) + "  command PATH: "@ + search_path_text(
        policy.executable_path,
    ) + "\n"@
}

/// The report as text.
pub open spec fn report_lines(report: SandboxDiagnosticReport) -> Seq<char> {
    "Sandbox\n  platform: "@ + report.platform@ + "\n  backend: "@ + report.backend@
        + "\n  bubblewrap: "@ + (match report.bubblewrap_path {
        None => "not resolved"@,
        Some(path) => readable(path@),
    }) + "\n  version: "@ + (match report.bubblewrap_version {
        None => "unavailable"@,
        Some(version) => version@,
    }) + "\n"@ + finding_lines(finding_views(report.findings@)) + (match report.policy {
        None => Seq::empty(),
        Some(policy) => policy_text(policy@),
    })
}

fn holds_colon(bytes: &[u8]) -> (holds: bool)
    ensures
        holds == bytes@.contains(58),
{
    let mut index: usize = 0;
    while index < bytes.len()
        invariant
            index <= bytes@.len(),
            forall|i: int| 0 <= i < index ==> bytes@[i] != 58,
        decreases bytes.len() - index,
    {
        if bytes[index] == 58 {
            return true;
        }
        index += 1;
    }
    false
}

proof fn lemma_colon_stays(paths: Seq<Seq<u8>>, count: int)
    requires
        0 <= count <= paths.len(),
        search_path(paths.take(count)) is None,
    ensures
        search_path(paths) is None,
    decreases paths.len(),
{
    if count == paths.len() {
        assert(paths.take(count) =~= paths);
    } else {
        assert(paths.drop_last().take(count) =~= paths.take(count));
        lemma_colon_stays(paths.drop_last(), count);
    }
}

/// The directories as one `PATH`.
pub fn join_search_path(paths: &[HostPath]) -> (joined: Option<Vec<u8>>)
    ensures
        match search_path(path_views(paths@)) {
            None => joined is None,
            Some(bytes) => joined is Some && joined->0@ == bytes,
        },
{
    let ghost views = path_views(paths@);
    let mut joined: Vec<u8> = Vec::new();
    let mut index: usize = 0;
    assert(views.take(0) =~= Seq::empty());
    while index < paths.len()
        invariant
            index <= paths@.len(),
            views == path_views(paths@),
            search_path(views.take(index as int)) == Some(joined@),
            index == 0 ==> joined@.len() == 0,
        decreases paths.len() - index,
    {
        let ghost here = views.take(index + 1);
        let bytes = paths[index].as_bytes();
        let ghost before = joined@;
        proof {
            assert(here.drop_last() =~= views.take(index as int));
            assert(here.last() == bytes@);
        }
        if holds_colon(bytes) {
            proof {
                lemma_colon_stays(views, index + 1);
            }
            return None;
        }
        if index > 0 {
            joined.push(58);
        }
        joined.extend_from_slice(bytes);
        proof {
            if index > 0 {
                assert(joined@ =~= before.push(58) + bytes@);
            } else {
                assert(joined@ =~= bytes@);
            }
        }
        index += 1;
    }
    assert(views.take(views.len() as int) =~= views);
    Some(joined)
}

fn push_finding(rendered: &mut String, finding: &SandboxDiagnosticFinding)
    ensures
        final(rendered)@ == old(rendered)@ + finding_line(finding@),
{
    let status = match finding.status {
        DiagnosticStatus::Failed => "FAIL",
        DiagnosticStatus::Passed => "ok",
    };
    let importance = match finding.importance {
        DiagnosticImportance::Mandatory => "required",
        DiagnosticImportance::Optional => "optional",
    };
    let line = "  [".to_owned().concat(status).concat("] ").concat(finding.name.as_str()).concat(
        " (",
    ).concat(importance).concat("): ").concat(finding.detail.as_str()).concat("\n");
    rendered.append(line.as_str());
}

fn push_grant(rendered: &mut String, grant: &SandboxPathGrant)
    ensures
        final(rendered)@ == old(rendered)@ + grant_line(grant@),
{
    let line = "    ".to_owned().concat(grant.access.name()).concat(" ").concat(
        grant.purpose.name(),
    ).concat(": ").concat(grant.path.display().as_str()).concat("\n");
    rendered.append(line.as_str());
}

fn render_findings(findings: &Vec<SandboxDiagnosticFinding>) -> (rendered: String)
    ensures
        rendered@ == finding_lines(finding_views(findings@)),
{
    let ghost views = finding_views(findings@);
    let mut rendered = String::new();
    let mut index: usize = 0;
    assert(views.take(0) =~= Seq::empty());
    while index < findings.len()
        invariant
            index <= findings@.len(),
            views == finding_views(findings@),
            rendered@ == finding_lines(views.take(index as int)),
        decreases findings.len() - index,
    {
        proof {
            let here = views.take(index + 1);
            assert(here.drop_last() =~= views.take(index as int));
            assert(here.last() == findings@[index as int]@);
        }
        push_finding(&mut rendered, &findings[index]);
        index += 1;
    }
    assert(views.take(views.len() as int) =~= views);
    rendered
}

fn render_grants(grants: &[SandboxPathGrant]) -> (rendered: String)
    ensures
        rendered@ == grant_lines(grant_views(grants@)),
{
    let ghost views = grant_views(grants@);
    let mut rendered = String::new();
    let mut index: usize = 0;
    assert(views.take(0) =~= Seq::empty());
    while index < grants.len()
        invariant
            index <= grants@.len(),
            views == grant_views(grants@),
            rendered@ == grant_lines(views.take(index as int)),
        decreases grants.len() - index,
    {
        proof {
            let here = views.take(index + 1);
            assert(here.drop_last() =~= views.take(index as int));
            assert(here.last() == grants@[index as int]@);
        }
        push_grant(&mut rendered, &grants[index]);
        index += 1;
    }
    assert(views.take(views.len() as int) =~= views);
    rendered
}

fn render_policy(policy: &CommandSandboxPolicy) -> (rendered: String)
    ensures
        rendered@ == policy_text(policy@),
{
    let path = match join_search_path(policy.executable_path()) {
        None => "<not representable>".to_owned(),
        Some(bytes) => decode_lossily(bytes.as_slice()),
    };
    "  exposed roots:\n".to_owned().concat(render_grants(policy.grants()).as_str()).concat(
        "  command PATH: ",
    ).concat(path.as_str()).concat("\n")
}

impl SandboxDiagnosticReport {
    pub fn is_supported(&self) -> (supported: bool)
        ensures
            supported == all_required_passed(finding_views(self.findings@)),
    {
        let ghost views = finding_views(self.findings@);
        let mut index: usize = 0;
        while index < self.findings.len()
            invariant
                index <= self.findings@.len(),
                views == finding_views(self.findings@),
                forall|i: int|
                    0 <= i < index ==> (#[trigger] views[i]).importance
                        == DiagnosticImportance::Optional || views[i].status
                        == DiagnosticStatus::Passed,
            decreases self.findings.len() - index,
        {
            let finding = &self.findings[index];
            assert(views[index as int] == finding@);
            if finding.importance != DiagnosticImportance::Optional && finding.status
                != DiagnosticStatus::Passed {
                return false;
            }
            index += 1;
        }
        true
    }

    /// The report as text, a line for each finding and each exposed root.
    pub fn render(&self) -> (rendered: String)
        ensures
            rendered@ == report_lines(*self),
    {
        let bubblewrap = match &self.bubblewrap_path {
            None => "not resolved".to_owned(),
            Some(path) => path.display(),
        };
        let version = match &self.bubblewrap_version {
            None => "unavailable",
            Some(version) => version.as_str(),
        };
        let mut rendered = "Sandbox\n  platform: ".to_owned();
        rendered.append(self.platform.as_str());
        rendered.append("\n  backend: ");
        rendered.append(self.backend.as_str());
        rendered.append("\n  bubblewrap: ");
        rendered.append(bubblewrap.as_str());
        rendered.append("\n  version: ");
        rendered.append(version);
        rendered.append("\n");
        rendered.append(render_findings(&self.findings).as_str());
        match &self.policy {
            None => {
                assert(rendered@ + Seq::<char>::empty() =~= rendered@);
            },
            Some(policy) => {
                rendered.append(render_policy(policy).as_str());
            },
        }
        rendered
    }
}

/// What is found of a platform on which there is no sandbox.
pub open spec fn platform_finding() -> FindingView {
    required(
        "platform"@,
        DiagnosticStatus::Failed,
        "sandboxed shell enforcement is currently available only on Linux"@,
    )
}

/// The report says that there is no sandbox on this platform.
pub open spec fn is_unsupported(report: SandboxDiagnosticReport, platform: Seq<char>) -> bool {
    &&& report.backend@ == "unavailable"@
    &&& report.bubblewrap_path is None
    &&& report.bubblewrap_version is None
    &&& finding_views(report.findings@) == seq![platform_finding()]
    &&& report.platform@ == platform
    &&& report.policy is None
}

/// The report on a platform on which there is no sandbox.
pub fn unsupported_report(platform: &str) -> (report: SandboxDiagnosticReport)
    ensures
        is_unsupported(report, platform@),
{
    let mut findings: Vec<SandboxDiagnosticFinding> = Vec::new();
    findings.push(
        SandboxDiagnosticFinding::mandatory(
            "platform",
            DiagnosticStatus::Failed,
            "sandboxed shell enforcement is currently available only on Linux",
        ),
    );
    let report = SandboxDiagnosticReport {
        backend: "unavailable".to_owned(),
        bubblewrap_path: None,
        bubblewrap_version: None,
        findings,
        platform: platform.to_owned(),
        policy: None,
    };
    assert(finding_views(report.findings@) =~= seq![platform_finding()]);
    report
}

/// The host that is to run commands in a sandbox.
#[derive(Debug)]
pub enum SandboxHost {
    Linux(LinuxHostFacts),
    /// Any other platform, by its name.
    Other(String),
}

/// Diagnoses a host from what was found on it.
pub fn diagnose_sandbox(input: SandboxDiagnosticInput, host: SandboxHost) -> (report:
    SandboxDiagnosticReport)
    requires
        match host {
            SandboxHost::Linux(facts) => facts.launcher is Ok
                ==> facts.capability_probes@.len() == PROBE_CAPABILITY_COUNT,
            SandboxHost::Other(_) => true,
        },
    ensures
        match host {
            SandboxHost::Linux(facts) => diagnoses(report, input, facts),
            SandboxHost::Other(platform) => is_unsupported(report, platform@),
        },
{
    match host {
        SandboxHost::Linux(facts) => diagnose_linux_sandbox(input, facts),
        SandboxHost::Other(platform) => unsupported_report(platform.as_str()),
    }
}

/// A platform without a sandbox is never taken for one that supports it.
pub proof fn other_platforms_are_unsupported(report: SandboxDiagnosticReport, platform: Seq<char>)
    requires
        is_unsupported(report, platform),
    ensures
        !all_required_passed(finding_views(report.findings@)),
{
    a_failed_requirement_decides(finding_views(report.findings@), 0);
}

/// A finding that is not required makes no difference to whether sandboxing is supported.
pub proof fn optional_findings_do_not_decide(findings: Seq<FindingView>, finding: FindingView)
    requires
        finding.importance == DiagnosticImportance::Optional,
    ensures
        all_required_passed(findings.push(finding)) == all_required_passed(findings),
{
    let longer = findings.push(finding);
    if all_required_passed(longer) {
        assert forall|i: int| 0 <= i < findings.len() implies (#[trigger] findings[i]).importance
            == DiagnosticImportance::Optional || findings[i].status
            == DiagnosticStatus::Passed by {
            assert(longer[i] == findings[i]);
        }
    }
}

/// A required finding that failed rules sandboxing out, whatever else was found.
pub proof fn a_failed_requirement_decides(findings: Seq<FindingView>, at: int)
    requires
        0 <= at < findings.len(),
        findings[at].importance == DiagnosticImportance::Mandatory,
        findings[at].status == DiagnosticStatus::Failed,
    ensures
        !all_required_passed(findings),
{
}

/// The report tells every finding and every grant on a line of its own, in order.
pub proof fn findings_are_told_in_order(
    findings: Seq<FindingView>,
    finding: FindingView,
    grants: Seq<GrantView>,
    grant: GrantView,
)
    ensures
        finding_lines(Seq::<FindingView>::empty()).len() == 0,
        finding_lines(findings.push(finding)) == finding_lines(findings) + ("  ["@ + (if finding.status
            == DiagnosticStatus::Passed {
            "ok"@
        } else {
            "FAIL"@
        }) + "] "@ + finding.name + " ("@ + (if finding.importance
            == DiagnosticImportance::Mandatory {
            "required"@
        } else {
            "optional"@
        }) + "): "@ + finding.detail + "\n"@),
        grant_lines(Seq::<GrantView>::empty()).len() == 0,
        grant_lines(grants.push(grant)) == grant_lines(grants) + ("    "@ + grant.access.spelled()
            + " "@ + grant.purpose.spelled() + ": "@ + readable(grant.path) + "\n"@),
{
    assert(findings.push(finding).drop_last() =~= findings);
    assert(grants.push(grant).drop_last() =~= grants);
}

/// The directories of a search path stand in it in order, with a colon between each and the next,
/// unless one of them holds a colon itself.
pub proof fn search_paths_keep_their_order(paths: Seq<Seq<u8>>, last: Seq<u8>)
    ensures
        search_path(Seq::<Seq<u8>>::empty()) == Some(Seq::<u8>::empty()),
        search_path(paths) is None || last.contains(58) ==> search_path(paths.push(last)) is None,
        search_path(paths) is Some && !last.contains(58) ==> search_path(paths.push(last)) == Some(
            if paths.len() == 0 {
                last
            } else {
                search_path(paths)->0 + seq![58u8] + last
            },
        ),
{
    assert(paths.push(last).drop_last() =~= paths);
    if search_path(paths) is Some {
        let before = search_path(paths)->0;
        assert(before.push(58) + last =~= before + seq![58u8] + last);
    }
}

/// The report names the platform, the backend, the launcher and its version, and then what was
/// found and what is exposed.
pub proof fn reports_name_what_was_resolved(report: SandboxDiagnosticReport)
    ensures
        report_lines(report) == "Sandbox\n  platform: "@ + report.platform@ + "\n  backend: "@
            + report.backend@ + "\n  bubblewrap: "@ + (match report.bubblewrap_path {
            None => "not resolved"@,
            Some(path) => readable(path@),
        }) + "\n  version: "@ + (match report.bubblewrap_version {
            None => "unavailable"@,
            Some(version) => version@,
        }) + "\n"@ + finding_lines(finding_views(report.findings@)) + (match report.policy {
            None => Seq::empty(),
            Some(policy) => "  exposed roots:\n"@ + grant_lines(policy@.grants)
                + "  command PATH: "@ + search_path_text(policy@.executable_path) + "\n"@,
        }),
{
}

} // verus!
