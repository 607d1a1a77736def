use cane::command::diagnostics::{
    diagnose_sandbox, DiagnosticImportance, DiagnosticStatus, SandboxDiagnosticFinding,
    SandboxDiagnosticReport, SandboxHost,
};
use cane::command::linux::diagnosis::SandboxDiagnosticInput;
use cane::command::policy::ObservedPath;
use cane::path::HostPath;

fn finding(
    importance: DiagnosticImportance,
    status: DiagnosticStatus,
) -> SandboxDiagnosticFinding {
    SandboxDiagnosticFinding {
        detail: "detail".to_string(),
        importance,
        name: "finding".to_string(),
        status,
    }
}

#[test]
fn optional_failures_do_not_make_the_sandbox_unsupported() {
    let report = SandboxDiagnosticReport {
        backend: "bubblewrap".to_string(),
        bubblewrap_path: None,
        bubblewrap_version: None,
        findings: vec![
            finding(DiagnosticImportance::Mandatory, DiagnosticStatus::Passed),
            finding(DiagnosticImportance::Optional, DiagnosticStatus::Failed),
        ],
        platform: "linux".to_string(),
        policy: None,
    };

    let supported = report.is_supported();

    assert!(supported);
}

#[test]
fn mandatory_failures_make_the_sandbox_unsupported_and_render_distinctly() {
    let report = SandboxDiagnosticReport {
        backend: "bubblewrap".to_string(),
        bubblewrap_path: None,
        bubblewrap_version: None,
        findings: vec![finding(
            DiagnosticImportance::Mandatory,
            DiagnosticStatus::Failed,
        )],
        platform: "linux".to_string(),
        policy: None,
    };

    let supported = report.is_supported();
    let rendered = report.render();

    assert!(!supported);
    assert!(rendered.contains("[FAIL] finding (required): detail"));
    assert!(rendered.contains("bubblewrap: not resolved"));
}

#[test]
fn a_report_renders_every_finding_with_its_importance() {
    let report = SandboxDiagnosticReport {
        backend: "bubblewrap".to_string(),
        bubblewrap_path: None,
        bubblewrap_version: None,
        findings: vec![
            SandboxDiagnosticFinding::mandatory("network", DiagnosticStatus::Passed, "isolated"),
            SandboxDiagnosticFinding::optional("docker", DiagnosticStatus::Failed, "no socket"),
        ],
        platform: "linux".to_string(),
        policy: None,
    };

    let rendered = report.render();

    assert!(report.is_supported());
    assert!(rendered.contains("[ok] network (required): isolated"));
    assert!(rendered.contains("[FAIL] docker (optional): no socket"));
}

#[test]
fn there_is_no_sandbox_but_on_linux() {
    let workspace = ObservedPath {
        canonical: None,
        is_directory: false,
        is_symlink: false,
        path: HostPath::from_text("/workspace"),
        unavailable: None,
    };
    let input = SandboxDiagnosticInput {
        docker_endpoint: None,
        inherited_path: Vec::new(),
        pass_through_roots: Vec::new(),
        toolchain_roots: Vec::new(),
        workspace,
    };

    let report = diagnose_sandbox(input, SandboxHost::Other("macos".to_string()));

    assert!(!report.is_supported());
    assert_eq!(
        report.render(),
        "Sandbox\n\
         \x20 platform: macos\n\
         \x20 backend: unavailable\n\
         \x20 bubblewrap: not resolved\n\
         \x20 version: unavailable\n\
         \x20 [FAIL] platform (required): sandboxed shell enforcement is currently available only \
         on Linux\n"
    );
}
