use cane::approval::{
    resolve_reply, ApprovalAuthorization, ApprovalCheck, ApprovalGate, ApprovalOutcome,
    ApprovalReply,
};
use cane::journal::id::ApprovalId;
use cane::protocol::{
    AgentExit, ApprovalDecision, ApprovalLifetime, ApprovalRequirement, ApprovalSubject, NamedCapability,
};

fn approval_id() -> ApprovalId {
    "appr_01ARZ3NDEKTSV4RRFFQ69G5FAY".parse().unwrap()
}

fn offered_lifetimes() -> Vec<ApprovalLifetime> {
    vec![ApprovalLifetime::Invocation, ApprovalLifetime::Run]
}

fn subject(call_id: &str, tool_name: &str) -> ApprovalSubject {
    ApprovalSubject::tool_call(call_id, tool_name)
}

#[test]
fn check_returns_not_required_for_tools_that_do_not_require_approval() {
    let gate = ApprovalGate::new();
    let subject = subject("read-1", "read_file");

    let result = gate.check(ApprovalRequirement::NotRequired, &subject);

    assert_eq!(
        result,
        ApprovalCheck::Authorized(ApprovalAuthorization::NotRequired)
    );
}

#[test]
fn check_requires_a_decision_when_the_tool_has_no_run_approval() {
    let gate = ApprovalGate::new();
    let subject = subject("write-1", "write_file");

    let result = gate.check(ApprovalRequirement::Required, &subject);

    assert_eq!(result, ApprovalCheck::RequiresDecision);
}

#[test]
fn run_approvals_authorize_only_the_matching_tool() {
    let mut gate = ApprovalGate::new();
    let approved_subject = subject("write-1", "write_file");
    let run_grant = approved_subject.grant(ApprovalLifetime::Run);
    let decision = ApprovalDecision::Grant(run_grant.clone());
    let outcome = gate.apply_decision(
        &offered_lifetimes(),
        approval_id(),
        &decision,
        &approved_subject,
    );
    let matching_subject = subject("write-2", "write_file");
    let other_subject = subject("edit-1", "edit_file");

    let matching = gate.check(ApprovalRequirement::Required, &matching_subject);
    let other = gate.check(ApprovalRequirement::Required, &other_subject);

    assert_eq!(
        outcome,
        ApprovalOutcome::Authorized(ApprovalAuthorization::Granted {
            approval_id: approval_id(),
            grant: run_grant.clone(),
        })
    );
    assert_eq!(
        matching,
        ApprovalCheck::Authorized(ApprovalAuthorization::Granted {
            approval_id: approval_id(),
            grant: run_grant,
        })
    );
    assert_eq!(other, ApprovalCheck::RequiresDecision);
}

#[test]
fn run_capability_approvals_follow_the_exact_resource_across_tool_calls() {
    let mut gate = ApprovalGate::new();
    let capability = NamedCapability::docker_daemon("unix:///run/user/1000/docker.sock");
    let approved_subject = ApprovalSubject::capability(capability.clone(), "shell-1", "shell");
    let run_grant = approved_subject.grant(ApprovalLifetime::Run);
    let decision = ApprovalDecision::Grant(run_grant.clone());
    let outcome = gate.apply_decision(
        &[ApprovalLifetime::Run],
        approval_id(),
        &decision,
        &approved_subject,
    );
    let same_endpoint = ApprovalSubject::capability(capability, "shell-2", "shell");
    let changed_endpoint = ApprovalSubject::capability(
        NamedCapability::docker_daemon("unix:///var/run/docker.sock"),
        "shell-3",
        "shell",
    );

    let reused = gate.check(ApprovalRequirement::Required, &same_endpoint);
    let changed = gate.check(ApprovalRequirement::Required, &changed_endpoint);

    assert_eq!(
        outcome,
        ApprovalOutcome::Authorized(ApprovalAuthorization::Granted {
            approval_id: approval_id(),
            grant: run_grant.clone(),
        })
    );
    assert_eq!(
        reused,
        ApprovalCheck::Authorized(ApprovalAuthorization::Granted {
            approval_id: approval_id(),
            grant: run_grant,
        })
    );
    assert_eq!(changed, ApprovalCheck::RequiresDecision);
}

#[test]
fn configured_workspace_grants_retain_their_source_and_match_exactly() {
    let mut gate = ApprovalGate::new();
    let configured = ApprovalSubject::capability(
        NamedCapability::docker_daemon("unix:///configured.sock"),
        "seed",
        "shell",
    )
    .grant(ApprovalLifetime::Workspace);
    gate.seed_workspace_grants(vec![configured.clone()]);
    let matching = ApprovalSubject::capability(
        NamedCapability::docker_daemon("unix:///configured.sock"),
        "shell-1",
        "shell",
    );
    let different = ApprovalSubject::capability(
        NamedCapability::docker_daemon("unix:///other.sock"),
        "shell-2",
        "shell",
    );

    let authorized = gate.check(ApprovalRequirement::Required, &matching);
    let requires_decision = gate.check(ApprovalRequirement::Required, &different);

    assert_eq!(
        authorized,
        ApprovalCheck::Authorized(ApprovalAuthorization::WorkspaceConfigured {
            grant: configured,
        })
    );
    assert_eq!(requires_decision, ApprovalCheck::RequiresDecision);
}

#[test]
fn applying_decisions_preserves_the_authorizing_approval() {
    let mut gate = ApprovalGate::new();
    let lifetimes = offered_lifetimes();
    let once_subject = subject("write-1", "write_file");
    let run_subject = subject("edit-1", "edit_file");
    let denied_subject = subject("glob-1", "glob");
    let once_grant = once_subject.grant(ApprovalLifetime::Invocation);
    let run_grant = run_subject.grant(ApprovalLifetime::Run);
    let once_decision = ApprovalDecision::Grant(once_grant.clone());
    let run_decision = ApprovalDecision::Grant(run_grant.clone());
    let deny_decision = ApprovalDecision::Deny {
        reason: "not now".to_string(),
    };

    let once = gate.apply_decision(&lifetimes, approval_id(), &once_decision, &once_subject);
    let run = gate.apply_decision(&lifetimes, approval_id(), &run_decision, &run_subject);
    let denied =
        gate.apply_decision(&lifetimes, approval_id(), &deny_decision, &denied_subject);

    assert_eq!(
        once,
        ApprovalOutcome::Authorized(ApprovalAuthorization::Granted {
            approval_id: approval_id(),
            grant: once_grant,
        })
    );
    assert_eq!(
        run,
        ApprovalOutcome::Authorized(ApprovalAuthorization::Granted {
            approval_id: approval_id(),
            grant: run_grant.clone(),
        })
    );
    assert_eq!(
        gate.check(
            ApprovalRequirement::Required,
            &subject("edit-2", "edit_file")
        ),
        ApprovalCheck::Authorized(ApprovalAuthorization::Granted {
            approval_id: approval_id(),
            grant: run_grant,
        })
    );
    assert_eq!(
        denied,
        ApprovalOutcome::Denied {
            reason: "not now".to_string(),
        }
    );
}

#[test]
fn applying_a_grant_rejects_unoffered_lifetimes_and_mismatched_subjects() {
    let mut gate = ApprovalGate::new();
    let requested = subject("write-1", "write_file");
    let other = subject("edit-1", "edit_file");
    let workspace_decision =
        ApprovalDecision::Grant(requested.grant(ApprovalLifetime::Workspace));
    let other_decision = ApprovalDecision::Grant(other.grant(ApprovalLifetime::Invocation));

    let unavailable = gate.apply_decision(
        &offered_lifetimes(),
        approval_id(),
        &workspace_decision,
        &requested,
    );
    let mismatched = gate.apply_decision(
        &offered_lifetimes(),
        approval_id(),
        &other_decision,
        &requested,
    );

    assert!(matches!(
        unavailable,
        ApprovalOutcome::InvalidGrant { reason }
            if reason.contains("lifetime")
    ));
    assert!(matches!(
        mismatched,
        ApprovalOutcome::InvalidGrant { reason }
            if reason.contains("subject")
    ));
}

#[test]
fn a_reply_is_a_decision_or_the_reason_to_leave() {
    let decision = || ApprovalDecision::Deny { reason: "no".to_string() };

    assert!(matches!(resolve_reply(ApprovalReply::Cancelled), Err(AgentExit::Cancelled)));
    assert!(matches!(
        resolve_reply(ApprovalReply::Disconnected),
        Err(AgentExit::Disconnected)
    ));
    assert!(matches!(
        resolve_reply(ApprovalReply::Decided(decision())),
        Ok(decided) if decided == decision()
    ));
}
