//! What stands between a tool call and its execution: what was granted so far, and what a decision
//! adds to it.
use crate::journal::id::ApprovalId;
use crate::protocol::{
    AgentExit, ApprovalDecision, ApprovalGrant, ApprovalGrantView, ApprovalLifetime,
    ApprovalRequirement, ApprovalScopeView, ApprovalSubject, ApprovalSubjectView,
};
use vstd::prelude::*;

verus! {

/// Why a tool call may run.
#[derive(Debug, PartialEq, Eq)]
pub enum ApprovalAuthorization {
    Granted { approval_id: ApprovalId, grant: ApprovalGrant },
    WorkspaceConfigured { grant: ApprovalGrant },
    NotRequired,
}

pub enum ApprovalAuthorizationView {
    Granted { approval_id: ApprovalId, grant: ApprovalGrantView },
    WorkspaceConfigured { grant: ApprovalGrantView },
    NotRequired,
}

impl View for ApprovalAuthorization {
    type V = ApprovalAuthorizationView;

    open spec fn view(&self) -> ApprovalAuthorizationView {
        match self {
            ApprovalAuthorization::Granted { approval_id, grant } =>
                ApprovalAuthorizationView::Granted { approval_id: *approval_id, grant: grant@ },
            ApprovalAuthorization::WorkspaceConfigured { grant } =>
                ApprovalAuthorizationView::WorkspaceConfigured { grant: grant@ },
            ApprovalAuthorization::NotRequired => ApprovalAuthorizationView::NotRequired,
        }
    }
}

impl ApprovalAuthorizationView {
    /// Whether the authorization rests on a grant that covers `subject`.
    pub open spec fn covers(self, subject: ApprovalSubjectView) -> bool {
        match self {
            ApprovalAuthorizationView::Granted { grant, .. } => grant.covers(subject),
            ApprovalAuthorizationView::WorkspaceConfigured { grant } => grant.covers(subject),
            ApprovalAuthorizationView::NotRequired => false,
        }
    }
}

impl Clone for ApprovalAuthorization {
    fn clone(&self) -> (copy: Self)
        ensures
            copy@ == self@,
    {
        match self {
            ApprovalAuthorization::Granted { approval_id, grant } =>
                ApprovalAuthorization::Granted {
                    approval_id: *approval_id,
                    grant: grant.clone(),
                },
            ApprovalAuthorization::WorkspaceConfigured { grant } =>
                ApprovalAuthorization::WorkspaceConfigured { grant: grant.clone() },
            ApprovalAuthorization::NotRequired => ApprovalAuthorization::NotRequired,
        }
    }
}

impl ApprovalAuthorization {
    fn authorizes(&self, subject: &ApprovalSubject) -> (authorizes: bool)
        ensures
            authorizes == self@.covers(subject@),
    {
        match self {
            ApprovalAuthorization::Granted { grant, .. } => grant.authorizes(subject),
            ApprovalAuthorization::WorkspaceConfigured { grant } => grant.authorizes(subject),
            ApprovalAuthorization::NotRequired => false,
        }
    }
}

/// Whether a call may run as it is, or has to be asked for.
#[derive(Clone, Debug, PartialEq, Eq)]
pub enum ApprovalCheck {
    Authorized(ApprovalAuthorization),
    RequiresDecision,
}

pub enum ApprovalCheckView {
    Authorized(ApprovalAuthorizationView),
    RequiresDecision,
}

impl View for ApprovalCheck {
    type V = ApprovalCheckView;

    open spec fn view(&self) -> ApprovalCheckView {
        match self {
            ApprovalCheck::Authorized(authorization) =>
                ApprovalCheckView::Authorized(authorization@),
            ApprovalCheck::RequiresDecision => ApprovalCheckView::RequiresDecision,
        }
    }
}

/// What came of a decision.
#[derive(Clone, Debug, PartialEq, Eq)]
pub enum ApprovalOutcome {
    Authorized(ApprovalAuthorization),
    Denied { reason: String },
    InvalidGrant { reason: String },
}

pub enum ApprovalOutcomeView {
    Authorized(ApprovalAuthorizationView),
    Denied { reason: Seq<char> },
    InvalidGrant { reason: Seq<char> },
}

impl View for ApprovalOutcome {
    type V = ApprovalOutcomeView;

    open spec fn view(&self) -> ApprovalOutcomeView {
        match self {
            ApprovalOutcome::Authorized(authorization) =>
                ApprovalOutcomeView::Authorized(authorization@),
            ApprovalOutcome::Denied { reason } =>
                ApprovalOutcomeView::Denied { reason: reason@ },
            ApprovalOutcome::InvalidGrant { reason } =>
                ApprovalOutcomeView::InvalidGrant { reason: reason@ },
        }
    }
}

pub enum ApprovalDecisionView {
    Grant(ApprovalGrantView),
    Deny { reason: Seq<char> },
}

impl View for ApprovalDecision {
    type V = ApprovalDecisionView;

    open spec fn view(&self) -> ApprovalDecisionView {
        match self {
            ApprovalDecision::Grant(grant) => ApprovalDecisionView::Grant(grant@),
            ApprovalDecision::Deny { reason } => ApprovalDecisionView::Deny { reason: reason@ },
        }
    }
}

/// The first of the retained authorizations that covers a subject.
pub open spec fn first_covering(
    retained: Seq<ApprovalAuthorizationView>,
    subject: ApprovalSubjectView,
) -> Option<ApprovalAuthorizationView>
    decreases retained.len(),
{
    if retained.len() == 0 {
        None
    } else {
        match first_covering(retained.drop_last(), subject) {
            Some(authorization) => Some(authorization),
            None => if retained.last().covers(subject) {
                Some(retained.last())
            } else {
                None
            },
        }
    }
}

/// Whether a call may run: it needs no approval, or a retained authorization covers it, or
/// a decision is due.
pub open spec fn gate_check(
    retained: Seq<ApprovalAuthorizationView>,
    requirement: ApprovalRequirement,
    subject: ApprovalSubjectView,
) -> ApprovalCheckView {
    match requirement {
        ApprovalRequirement::NotRequired => ApprovalCheckView::Authorized(
            ApprovalAuthorizationView::NotRequired,
        ),
        ApprovalRequirement::Required => match first_covering(retained, subject) {
            Some(authorization) => ApprovalCheckView::Authorized(authorization),
            None => ApprovalCheckView::RequiresDecision,
        },
    }
}

/// What a decision on a subject comes to: a grant counts where its lifetime was offered and it
/// covers the subject.
pub open spec fn gate_outcome(
    offered: Seq<ApprovalLifetime>,
    approval_id: ApprovalId,
    decision: ApprovalDecisionView,
    subject: ApprovalSubjectView,
) -> ApprovalOutcomeView {
    match decision {
        ApprovalDecisionView::Deny { reason } => ApprovalOutcomeView::Denied { reason },
        ApprovalDecisionView::Grant(grant) => if !offered.contains(grant.scope.lasts()) {
            ApprovalOutcomeView::InvalidGrant {
                reason: "approval grant uses a lifetime that was not offered"@,
            }
        } else if !grant.covers(subject) {
            ApprovalOutcomeView::InvalidGrant {
                reason: "approval grant does not authorize the requested subject"@,
            }
        } else {
            ApprovalOutcomeView::Authorized(
                ApprovalAuthorizationView::Granted { approval_id, grant },
            )
        },
    }
}

/// What is retained after an outcome: besides what it had, an authorization that outlasts
/// the one call.
pub open spec fn retained_after(
    retained: Seq<ApprovalAuthorizationView>,
    outcome: ApprovalOutcomeView,
) -> Seq<ApprovalAuthorizationView> {
    match outcome {
        ApprovalOutcomeView::Authorized(authorization) => match authorization {
            ApprovalAuthorizationView::Granted { grant, .. } => if grant.scope.lasts()
                != ApprovalLifetime::Invocation {
                retained.push(authorization)
            } else {
                retained
            },
            _ => retained,
        },
        _ => retained,
    }
}

/// Authorizations, by their views.
pub open spec fn authorization_views(authorizations: Seq<ApprovalAuthorization>) -> Seq<
    ApprovalAuthorizationView,
> {
    Seq::new(authorizations.len(), |i: int| authorizations[i]@)
}

/// What was approved for longer than one call.
pub struct ApprovalGate {
    run_approvals: Vec<ApprovalAuthorization>,
}

impl View for ApprovalGate {
    type V = Seq<ApprovalAuthorizationView>;

    closed spec fn view(&self) -> Seq<ApprovalAuthorizationView> {
        authorization_views(self.run_approvals@)
    }
}

/// A covering authorization among the first `count` stays the first one.
proof fn lemma_first_stays(
    retained: Seq<ApprovalAuthorizationView>,
    subject: ApprovalSubjectView,
    count: int,
)
    requires
        0 <= count <= retained.len(),
        first_covering(retained.take(count), subject) is Some,
    ensures
        first_covering(retained, subject) == first_covering(retained.take(count), subject),
    decreases retained.len() - count,
{
    if count < retained.len() {
        assert(retained.take(count + 1).drop_last() =~= retained.take(count));
        lemma_first_stays(retained, subject, count + 1);
    } else {
        assert(retained.take(count) =~= retained);
    }
}

impl ApprovalGate {
    pub fn new() -> (gate: Self)
        ensures
            gate@ == Seq::<ApprovalAuthorizationView>::empty(),
    {
        let gate = ApprovalGate { run_approvals: Vec::new() };
        assert(gate@ =~= Seq::<ApprovalAuthorizationView>::empty());
        gate
    }

    pub fn check(
        &self,
        requirement: ApprovalRequirement,
        subject: &ApprovalSubject,
    ) -> (check: ApprovalCheck)
        ensures
            check@ == gate_check(self@, requirement, subject@),
    {
        if requirement == ApprovalRequirement::NotRequired {
            return ApprovalCheck::Authorized(ApprovalAuthorization::NotRequired);
        }
        let ghost retained = self@;
        assert(retained.take(0) =~= Seq::empty());
        let mut index: usize = 0;
        while index < self.run_approvals.len()
            invariant
                retained == self@,
                index <= self.run_approvals@.len(),
                first_covering(retained.take(index as int), subject@) is None,
                requirement == ApprovalRequirement::Required,
            decreases self.run_approvals@.len() - index,
        {
            assert(retained.take(index + 1).drop_last() =~= retained.take(index as int));
            assert(retained.take(index + 1).last() == self.run_approvals@[index as int]@);
            if self.run_approvals[index].authorizes(subject) {
                proof {
                    lemma_first_stays(retained, subject@, index + 1);
                }
                return ApprovalCheck::Authorized(self.run_approvals[index].clone());
            }
            index += 1;
        }
        assert(retained.take(index as int) =~= retained);
        ApprovalCheck::RequiresDecision
    }

    pub fn apply_decision(
        &mut self,
        available_lifetimes: &[ApprovalLifetime],
        approval_id: ApprovalId,
        decision: &ApprovalDecision,
        subject: &ApprovalSubject,
    ) -> (outcome: ApprovalOutcome)
        ensures
            outcome@ == gate_outcome(available_lifetimes@, approval_id, decision@, subject@),
            final(self)@ == retained_after(old(self)@, outcome@),
    {
        match decision {
            ApprovalDecision::Grant(grant) => {
                if !offers(available_lifetimes, grant.lifetime()) {
                    return ApprovalOutcome::InvalidGrant {
                        reason: "approval grant uses a lifetime that was not offered".to_owned(),
                    };
                }
                if !grant.authorizes(subject) {
                    return ApprovalOutcome::InvalidGrant {
                        reason: "approval grant does not authorize the requested subject"
                            .to_owned(),
                    };
                }
                let authorization = ApprovalAuthorization::Granted {
                    approval_id,
                    grant: grant.clone(),
                };
                if grant.lifetime() != ApprovalLifetime::Invocation {
                    let ghost before = self@;
                    self.run_approvals.push(authorization.clone());
                    assert(self@ =~= before.push(authorization@));
                }
                ApprovalOutcome::Authorized(authorization)
            },
            ApprovalDecision::Deny { reason } => ApprovalOutcome::Denied {
                reason: reason.clone(),
            },
        }
    }

    /// Adds the grants that the workspace's configuration makes, in order.
    pub fn seed_workspace_grants(&mut self, grants: Vec<ApprovalGrant>)
        ensures
            final(self)@ == old(self)@ + Seq::new(
                grants@.len(),
                |i: int| ApprovalAuthorizationView::WorkspaceConfigured { grant: grants@[i]@ },
            ),
    {
        let ghost before = self@;
        let ghost given = grants@;
        for grant in iterator: grants
            invariant
                iterator.seq() == given,
                self@ == before + Seq::new(
                    iterator.index() as nat,
                    |i: int| ApprovalAuthorizationView::WorkspaceConfigured { grant: given[i]@ },
                ),
        {
            let ghost added = self@;
            self.run_approvals.push(ApprovalAuthorization::WorkspaceConfigured { grant });
            assert(self@ =~= added.push(
                ApprovalAuthorizationView::WorkspaceConfigured { grant: grant@ },
            ));
        }
    }
}

/// Whether a lifetime is among those on offer.
pub fn offers(available: &[ApprovalLifetime], lifetime: ApprovalLifetime) -> (offered: bool)
    ensures
        offered == available@.contains(lifetime),
{
    let mut index: usize = 0;
    while index < available.len()
        invariant
            index <= available@.len(),
            forall|i: int| 0 <= i < index ==> available@[i] != lifetime,
        decreases available@.len() - index,
    {
        if available[index] == lifetime {
            assert(available@[index as int] == lifetime);
            return true;
        }
        index += 1;
    }
    false
}

/// What ended the wait for a decision.
#[derive(Debug, PartialEq)]
pub enum ApprovalReply {
    /// The run was cancelled.
    Cancelled,
    /// The frontend went away, or dropped the request without an answer.
    Disconnected,
    Decided(ApprovalDecision),
}

/// The decision that was waited for, or the reason to leave the turn.
pub fn resolve_reply(reply: ApprovalReply) -> (resolved: Result<ApprovalDecision, AgentExit>)
    ensures
        match reply {
            ApprovalReply::Cancelled => resolved == Err::<ApprovalDecision, AgentExit>(
                AgentExit::Cancelled,
            ),
            ApprovalReply::Disconnected => resolved == Err::<ApprovalDecision, AgentExit>(
                AgentExit::Disconnected,
            ),
            ApprovalReply::Decided(decision) => resolved == Ok::<ApprovalDecision, AgentExit>(
                decision,
            ),
        },
{
    match reply {
        ApprovalReply::Cancelled => Err(AgentExit::Cancelled),
        ApprovalReply::Disconnected => Err(AgentExit::Disconnected),
        ApprovalReply::Decided(decision) => Ok(decision),
    }
}

proof fn lemma_found_covers(
    retained: Seq<ApprovalAuthorizationView>,
    subject: ApprovalSubjectView,
)
    ensures
        first_covering(retained, subject) matches Some(found) ==> found.covers(subject)
            && retained.contains(found),
        first_covering(retained, subject) is None ==> forall|i: int|
            0 <= i < retained.len() ==> !(#[trigger] retained[i]).covers(subject),
    decreases retained.len(),
{
    if retained.len() > 0 {
        let before = retained.drop_last();
        lemma_found_covers(before, subject);
        assert(retained[retained.len() - 1] == retained.last());
        match first_covering(before, subject) {
            Some(found) => {
                let i = choose|i: int| 0 <= i < before.len() && before[i] == found;
                assert(retained[i] == found);
            },
            None => {
                assert forall|i: int| 0 <= i < retained.len() - 1 implies !(
                #[trigger] retained[i]).covers(subject) by {
                    assert(before[i] == retained[i]);
                }
            },
        }
    }
}

/// A call that requires approval is authorized exactly where something that was retained covers
/// it.
pub proof fn authorization_needs_a_covering_grant(
    retained: Seq<ApprovalAuthorizationView>,
    subject: ApprovalSubjectView,
)
    ensures
        gate_check(retained, ApprovalRequirement::Required, subject) is Authorized <==> exists|
            i: int,
        |
            0 <= i < retained.len() && (#[trigger] retained[i]).covers(subject),
        gate_check(
            retained,
            ApprovalRequirement::Required,
            subject,
        ) matches ApprovalCheckView::Authorized(found) ==> found.covers(subject)
            && retained.contains(found),
{
    lemma_found_covers(retained, subject);
    match first_covering(retained, subject) {
        Some(found) => {
            let i = choose|i: int| 0 <= i < retained.len() && retained[i] == found;
            assert(retained[i].covers(subject));
        },
        None => {},
    }
}

/// A grant that outlasts one call authorizes every later subject that it covers, without another
/// decision.
pub proof fn lasting_grants_carry_over(
    retained: Seq<ApprovalAuthorizationView>,
    offered: Seq<ApprovalLifetime>,
    approval_id: ApprovalId,
    grant: ApprovalGrantView,
    subject: ApprovalSubjectView,
    later: ApprovalSubjectView,
)
    requires
        offered.contains(grant.scope.lasts()),
        grant.scope.lasts() != ApprovalLifetime::Invocation,
        grant.covers(subject),
        grant.covers(later),
    ensures
        gate_check(
            retained_after(
                retained,
                gate_outcome(offered, approval_id, ApprovalDecisionView::Grant(grant), subject),
            ),
            ApprovalRequirement::Required,
            later,
        ) is Authorized,
{
    let after = retained_after(
        retained,
        gate_outcome(offered, approval_id, ApprovalDecisionView::Grant(grant), subject),
    );
    assert(after.last().covers(later));
}

/// A grant for one call, a denial and a grant that does not count add nothing.
pub proof fn other_decisions_add_nothing(
    retained: Seq<ApprovalAuthorizationView>,
    offered: Seq<ApprovalLifetime>,
    approval_id: ApprovalId,
    decision: ApprovalDecisionView,
    subject: ApprovalSubjectView,
)
    requires
        match decision {
            ApprovalDecisionView::Deny { .. } => true,
            ApprovalDecisionView::Grant(grant) => grant.scope.lasts()
                == ApprovalLifetime::Invocation || !offered.contains(grant.scope.lasts())
                || !grant.covers(subject),
        },
    ensures
        retained_after(retained, gate_outcome(offered, approval_id, decision, subject))
            == retained,
{
}

/// A call that needs no approval runs; one that needs it runs by the first retained
/// authorization that covers it, and otherwise waits for a decision.
pub proof fn retained_approvals_are_used_in_order(
    retained: Seq<ApprovalAuthorizationView>,
    subject: ApprovalSubjectView,
    at: int,
)
    requires
        0 <= at <= retained.len(),
        forall|i: int| 0 <= i < at ==> !(#[trigger] retained[i]).covers(subject),
    ensures
        gate_check(retained, ApprovalRequirement::NotRequired, subject)
            == ApprovalCheckView::Authorized(ApprovalAuthorizationView::NotRequired),
        at < retained.len() && retained[at].covers(subject) ==> gate_check(
            retained,
            ApprovalRequirement::Required,
            subject,
        ) == ApprovalCheckView::Authorized(retained[at]),
        at == retained.len() ==> gate_check(retained, ApprovalRequirement::Required, subject)
            is RequiresDecision,
    decreases retained.len(),
{
    lemma_found_covers(retained, subject);
    if at < retained.len() && retained[at].covers(subject) {
        let first = retained.take(at + 1);
        lemma_found_covers(first.drop_last(), subject);
        assert(first.drop_last() =~= retained.take(at));
        if let Some(found) = first_covering(first.drop_last(), subject) {
            let i = choose|i: int| 0 <= i < at && first.drop_last()[i] == found;
            assert(retained[i] == found);
        }
        assert(first.last() == retained[at]);
        lemma_first_stays(retained, subject, at + 1);
    }
}

/// A denial is passed on with its reason. A grant counts exactly where its lifetime was offered
/// and it covers what was asked, and then for the request to which it is the answer.
pub proof fn decisions_count_for_what_was_asked(
    offered: Seq<ApprovalLifetime>,
    approval_id: ApprovalId,
    decision: ApprovalDecisionView,
    subject: ApprovalSubjectView,
)
    ensures
        match decision {
            ApprovalDecisionView::Deny { reason } => gate_outcome(
                offered,
                approval_id,
                decision,
                subject,
            ) == (ApprovalOutcomeView::Denied { reason }),
            ApprovalDecisionView::Grant(grant) => {
                let outcome = gate_outcome(offered, approval_id, decision, subject);
                let lifetime = match grant.scope {
                    ApprovalScopeView::Invocation { .. } => ApprovalLifetime::Invocation,
                    ApprovalScopeView::Run => ApprovalLifetime::Run,
                    ApprovalScopeView::Workspace => ApprovalLifetime::Workspace,
                };
                &&& offered.contains(lifetime) && grant.covers(subject) <==> outcome is Authorized
                &&& outcome is Authorized ==> outcome == ApprovalOutcomeView::Authorized(
                    ApprovalAuthorizationView::Granted { approval_id, grant },
                )
                &&& !offered.contains(lifetime) ==> outcome == (ApprovalOutcomeView::InvalidGrant {
                    reason: "approval grant uses a lifetime that was not offered"@,
                })
                &&& offered.contains(lifetime) && !grant.covers(subject) ==> outcome == (
                ApprovalOutcomeView::InvalidGrant {
                    reason: "approval grant does not authorize the requested subject"@,
                })
            },
        },
{
}

/// What is granted for the run or the workspace is retained behind what was there, and nothing
/// else is.
pub proof fn lasting_grants_are_retained(
    retained: Seq<ApprovalAuthorizationView>,
    approval_id: ApprovalId,
    grant: ApprovalGrantView,
)
    ensures
        ({
            let authorization = ApprovalAuthorizationView::Granted { approval_id, grant };
            let after = retained_after(retained, ApprovalOutcomeView::Authorized(authorization));
            &&& grant.scope is Run || grant.scope is Workspace ==> after == retained.push(
                authorization,
            )
            &&& grant.scope is Invocation ==> after == retained
        }),
{
}

} // verus!
