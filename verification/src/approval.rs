//! Human approval of suspended tool calls: how an answer becomes an outcome,
//! when a decision is pinned as a rule, and which parked asks a freshly
//! pinned rule settles on its own. Parking waiters and waking them is the
//! caller's.

use vstd::prelude::*;

use crate::json::Json;
use crate::permission::{Decision, PermissionPolicy, Rule, evaluate};
use crate::status::ActivityStatus;

verus! {

broadcast use vstd::std_specs::vec::group_vec_axioms;

/// A human's answer to an ask.
#[derive(Debug, Clone, Copy, PartialEq, Eq, Structural)]
pub enum ApprovalDecision {
    Approve,
    Reject,
}

/// How far a decision reaches.
#[derive(Debug, Clone, Copy, PartialEq, Eq, Structural)]
pub enum ApprovalScope {
    /// This call only.
    Once,
    /// Pinned as a rule for the rest of the session.
    Session,
    /// Pinned and persisted into the profile.
    Profile,
    /// Pinned and persisted gateway-wide.
    Gateway,
}

/// How an ask was resolved.
#[derive(Debug, Clone, Copy, PartialEq, Eq, Structural)]
pub enum ApprovalResolution {
    Approved,
    RejectedByUser,
    /// Settled by a rule a decision pinned, not by a human answer.
    PinnedByRule { approved: bool },
    /// The waiter went away without an answer: denied (fail-closed).
    AutoDenied,
}

/// An ask's resolution and, when answered, the answer's scope.
#[derive(Debug, Clone, Copy, PartialEq, Eq, Structural)]
pub struct ApprovalOutcome {
    pub resolution: ApprovalResolution,
    pub scope: Option<ApprovalScope>,
}

/// The answer delivered to a parked ask.
#[derive(Debug, Clone, Copy, PartialEq, Eq, Structural)]
pub struct PendingAnswer {
    pub decision: ApprovalDecision,
    pub scope: ApprovalScope,
    /// Whether a pinned rule (not a human) produced this answer.
    pub pinned_by_rule: bool,
}

/// A decision that reached past this call, handed on for persisting.
#[derive(Debug, Clone)]
pub struct ScopedDecision {
    pub decision: ApprovalDecision,
    pub scope: ApprovalScope,
    pub rule: Rule,
}

/// The outcome an ask ends with: no answer (the waiter was dropped) is
/// denied; a human answer is approved or rejected; an answer from a pinned
/// rule says so.
pub open spec fn outcome_spec(answer: Option<PendingAnswer>) -> ApprovalOutcome {
    match answer {
        None => ApprovalOutcome { resolution: ApprovalResolution::AutoDenied, scope: None },
        Some(a) => ApprovalOutcome {
            resolution: if a.pinned_by_rule {
                ApprovalResolution::PinnedByRule { approved: a.decision == ApprovalDecision::Approve }
            } else if a.decision == ApprovalDecision::Approve {
                ApprovalResolution::Approved
            } else {
                ApprovalResolution::RejectedByUser
            },
            scope: Some(a.scope),
        },
    }
}

/// The outcome an ask ends with (see [`outcome_spec`]).
pub fn outcome_of(answer: Option<PendingAnswer>) -> (r: ApprovalOutcome)
    ensures
        r == outcome_spec(answer),
{
    match answer {
        None => ApprovalOutcome { resolution: ApprovalResolution::AutoDenied, scope: None },
        Some(a) => {
            let resolution = match (a.decision, a.pinned_by_rule) {
                (ApprovalDecision::Approve, false) => ApprovalResolution::Approved,
                (ApprovalDecision::Reject, false) => ApprovalResolution::RejectedByUser,
                (ApprovalDecision::Approve, true) => ApprovalResolution::PinnedByRule { approved: true },
                (ApprovalDecision::Reject, true) => ApprovalResolution::PinnedByRule { approved: false },
            };
            ApprovalOutcome { resolution, scope: Some(a.scope) }
        },
    }
}

/// Whether an answer is pinned as a rule: a human answer that reaches past
/// this call.
pub fn pins_rule(answer: PendingAnswer) -> (r: bool)
    ensures
        r == (answer.scope != ApprovalScope::Once && !answer.pinned_by_rule),
{
    !matches!(answer.scope, ApprovalScope::Once) && !answer.pinned_by_rule
}

/// Whether a pinned decision is also persisted (profile or gateway scope).
pub fn persists(scope: ApprovalScope) -> (r: bool)
    ensures
        r == (scope == ApprovalScope::Profile || scope == ApprovalScope::Gateway),
{
    matches!(scope, ApprovalScope::Profile | ApprovalScope::Gateway)
}

/// The answer a policy gives an ask on its own: allow approves, deny
/// rejects, ask leaves it to a human.
pub open spec fn auto_decision(d: Decision) -> Option<ApprovalDecision> {
    match d {
        Decision::Allow => Some(ApprovalDecision::Approve),
        Decision::Deny => Some(ApprovalDecision::Reject),
        Decision::Ask => None,
    }
}

/// A parked ask: its call id, tool name and input.
#[derive(Debug)]
pub struct PendingAsk {
    pub call_id: String,
    pub tool_name: String,
    pub input: Json,
}

/// The asks, among the first `n`, that the policy now settles, with their
/// answers (marked as pinned by rule, at `scope`), in order.
pub open spec fn settled_asks(
    p: crate::permission::PolicyV,
    asks: Seq<PendingAsk>,
    scope: ApprovalScope,
    n: int,
) -> Seq<(Seq<char>, PendingAnswer)>
    decreases n,
{
    if n <= 0 || n > asks.len() {
        Seq::empty()
    } else {
        let rest = settled_asks(p, asks, scope, n - 1);
        match auto_decision(evaluate(p, asks[n - 1].tool_name@, asks[n - 1].input@)) {
            Some(d) => rest.push(
                (asks[n - 1].call_id@, PendingAnswer { decision: d, scope, pinned_by_rule: true }),
            ),
            None => rest,
        }
    }
}

/// The parked asks a policy settles on its own after a rule was pinned,
/// with their answers; the others stay parked for a human.
pub fn resolve_pending_by_rule(
    policy: &PermissionPolicy,
    asks: &Vec<PendingAsk>,
    scope: ApprovalScope,
) -> (r: Vec<(String, PendingAnswer)>)
    ensures
        r@.map_values(|x: (String, PendingAnswer)| (x.0@, x.1)) == settled_asks(policy@, asks@, scope, asks@.len() as int),
{
    let mut out: Vec<(String, PendingAnswer)> = Vec::new();
    let mut i: usize = 0;
    while i < asks.len()
        invariant
            i <= asks@.len(),
            out@.map_values(|x: (String, PendingAnswer)| (x.0@, x.1)) == settled_asks(policy@, asks@, scope, i as int),
        decreases asks.len() - i,
    {
        let ask = &asks[i];
        let ghost prev = out@;
        let auto = match policy.evaluate(ask.tool_name.as_str(), &ask.input) {
            Decision::Allow => Some(ApprovalDecision::Approve),
            Decision::Deny => Some(ApprovalDecision::Reject),
            Decision::Ask => None,
        };
        match auto {
            Some(d) => {
                out.push((ask.call_id.clone(), PendingAnswer { decision: d, scope, pinned_by_rule: true }));
                assert(out@.map_values(|x: (String, PendingAnswer)| (x.0@, x.1)) =~= prev.map_values(
                    |x: (String, PendingAnswer)| (x.0@, x.1),
                ).push((ask.call_id@, PendingAnswer { decision: d, scope, pinned_by_rule: true })));
            },
            None => {},
        }
        i += 1;
    }
    out
}

/// The session's activity once an ask is resolved: running again when no
/// other ask is parked, still awaiting approval otherwise.
pub fn status_after_ask(no_pending: bool) -> (r: ActivityStatus)
    ensures
        r == if no_pending {
            ActivityStatus::Running
        } else {
            ActivityStatus::AwaitingApproval
        },
{
    if no_pending {
        ActivityStatus::Running
    } else {
        ActivityStatus::AwaitingApproval
    }
}

/// A pending approval with no one left to answer it resolves as refused.
pub proof fn law_unanswered_ask_is_denied()
    ensures
        outcome_spec(None).resolution == ApprovalResolution::AutoDenied,
{
}

/// A rule-pinned answer is never pinned again, and a once-scoped answer is
/// never pinned at all.
pub proof fn law_pinning_needs_a_reaching_human_answer(a: PendingAnswer)
    ensures
        a.pinned_by_rule ==> !(a.scope != ApprovalScope::Once && !a.pinned_by_rule),
        a.scope == ApprovalScope::Once ==> !(a.scope != ApprovalScope::Once && !a.pinned_by_rule),
{
}

} // verus!
