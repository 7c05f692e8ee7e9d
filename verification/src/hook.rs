//! Hooks: the points where they fire, the priority-ordered registry, the
//! before-chain decision procedure, and the shell hook's protocol.
//!
//! Before hooks may pass, rewrite the payload, or block; after hooks only
//! observe. The registry decides and records; running a hook (a built-in
//! check or a shell command) is the caller's work: it hands each hook's
//! decision to a [`BeforeRun`], which threads rewrites into the next
//! request and says when the chain must stop.

use vstd::prelude::*;

use crate::json::{
    Json, JsonV, json_clone, json_get, json_text, json_text_value, json_to_text, json_view, parse_json,
};
use crate::permission::{clone_opt, opt_view};
use crate::text::{append_chars, chars_of, str_eq, string_of, trim, trim_chars};

verus! {

broadcast use vstd::std_specs::vec::group_vec_axioms;

// ── Points ────────────────────────────────────────────────────────────────

/// A point in the agent pipeline where hooks may fire.
#[derive(Debug, Clone, Copy, PartialEq, Eq, Hash, Structural)]
pub enum HookPoint {
    TurnStart,
    TurnEnd,
    ToolInvokeBefore,
    ToolInvokeAfter,
}

/// The string form of a point, used in configuration and event logs.
pub open spec fn point_name(p: HookPoint) -> Seq<char> {
    match p {
        HookPoint::TurnStart => "turn:start"@,
        HookPoint::TurnEnd => "turn:end"@,
        HookPoint::ToolInvokeBefore => "tool:invoke:before"@,
        HookPoint::ToolInvokeAfter => "tool:invoke:after"@,
    }
}

/// The point a string names, if it is one of the wired points.
pub open spec fn point_of_name(s: Seq<char>) -> Option<HookPoint> {
    if s == "turn:start"@ {
        Some(HookPoint::TurnStart)
    } else if s == "turn:end"@ {
        Some(HookPoint::TurnEnd)
    } else if s == "tool:invoke:before"@ {
        Some(HookPoint::ToolInvokeBefore)
    } else if s == "tool:invoke:after"@ {
        Some(HookPoint::ToolInvokeAfter)
    } else {
        None
    }
}

/// Whether hooks at a point run before a step (and may block it).
pub open spec fn point_is_before(p: HookPoint) -> bool {
    p == HookPoint::TurnStart || p == HookPoint::ToolInvokeBefore
}

impl HookPoint {
    /// The string form used in configuration and event logs.
    pub fn as_str(self) -> (r: &'static str)
        ensures
            r@ == point_name(self),
    {
        match self {
            HookPoint::TurnStart => "turn:start",
            HookPoint::TurnEnd => "turn:end",
            HookPoint::ToolInvokeBefore => "tool:invoke:before",
            HookPoint::ToolInvokeAfter => "tool:invoke:after",
        }
    }

    /// Parse a point from its string form; points that are not wired yet
    /// (such as `model:request:before`) give `None`.
    pub fn parse(s: &str) -> (r: Option<HookPoint>)
        ensures
            r == point_of_name(s@),
    {
        if str_eq(s, "turn:start") {
            Some(HookPoint::TurnStart)
        } else if str_eq(s, "turn:end") {
            Some(HookPoint::TurnEnd)
        } else if str_eq(s, "tool:invoke:before") {
            Some(HookPoint::ToolInvokeBefore)
        } else if str_eq(s, "tool:invoke:after") {
            Some(HookPoint::ToolInvokeAfter)
        } else {
            None
        }
    }

    /// Whether hooks at this point run before the step (synchronously, able
    /// to block it): `turn:start` and `tool:invoke:before`.
    pub fn is_before(self) -> (r: bool)
        ensures
            r == point_is_before(self),
    {
        match self {
            HookPoint::TurnStart | HookPoint::ToolInvokeBefore => true,
            _ => false,
        }
    }
}

/// The names of distinct points differ.
proof fn lemma_point_names_distinct()
    ensures
        point_name(HookPoint::TurnStart) != point_name(HookPoint::TurnEnd),
        point_name(HookPoint::TurnStart) != point_name(HookPoint::ToolInvokeBefore),
        point_name(HookPoint::TurnStart) != point_name(HookPoint::ToolInvokeAfter),
        point_name(HookPoint::TurnEnd) != point_name(HookPoint::ToolInvokeBefore),
        point_name(HookPoint::TurnEnd) != point_name(HookPoint::ToolInvokeAfter),
        point_name(HookPoint::ToolInvokeBefore) != point_name(HookPoint::ToolInvokeAfter),
{
    reveal_strlit("turn:start");
    reveal_strlit("turn:end");
    reveal_strlit("tool:invoke:before");
    reveal_strlit("tool:invoke:after");
    assert(point_name(HookPoint::TurnStart).len() != point_name(HookPoint::TurnEnd).len());
    assert(point_name(HookPoint::TurnStart)[1] != point_name(HookPoint::ToolInvokeBefore)[1]);
    assert(point_name(HookPoint::TurnStart)[1] != point_name(HookPoint::ToolInvokeAfter)[1]);
    assert(point_name(HookPoint::TurnEnd)[1] != point_name(HookPoint::ToolInvokeBefore)[1]);
    assert(point_name(HookPoint::TurnEnd)[1] != point_name(HookPoint::ToolInvokeAfter)[1]);
    assert(point_name(HookPoint::ToolInvokeBefore).len() != point_name(
        HookPoint::ToolInvokeAfter,
    ).len());
}

/// Every point's string form parses back to that point.
pub proof fn law_point_name_round_trips(p: HookPoint)
    ensures
        point_of_name(point_name(p)) == Some(p),
{
    lemma_point_names_distinct();
}

/// What the pipeline does when a hook errors, times out or answers badly.
#[derive(Debug, Clone, Copy, PartialEq, Eq, Structural)]
pub enum FailureMode {
    /// Continue the pipeline (logging and metrics hooks).
    Open,
    /// Block the pipeline and surface the error (security hooks).
    Closed,
}

impl Default for FailureMode {
    fn default() -> (r: Self)
        ensures
            r == FailureMode::Open,
    {
        FailureMode::Open
    }
}

// ── Records ───────────────────────────────────────────────────────────────

/// How one hook execution ended, as recorded in the event log.
#[derive(Debug, Clone, PartialEq, Eq)]
pub enum HookOutcome {
    Pass,
    Modified,
    Blocked { reason: String },
    Failed { error: String },
    Observed,
}

/// The mathematical form of a [`HookOutcome`].
pub enum HookOutcomeV {
    Pass,
    Modified,
    Blocked { reason: Seq<char> },
    Failed { error: Seq<char> },
    Observed,
}

impl View for HookOutcome {
    type V = HookOutcomeV;

    open spec fn view(&self) -> HookOutcomeV {
        match self {
            HookOutcome::Pass => HookOutcomeV::Pass,
            HookOutcome::Modified => HookOutcomeV::Modified,
            HookOutcome::Blocked { reason } => HookOutcomeV::Blocked { reason: reason@ },
            HookOutcome::Failed { error } => HookOutcomeV::Failed { error: error@ },
            HookOutcome::Observed => HookOutcomeV::Observed,
        }
    }
}

/// One hook's execution at a point.
#[derive(Debug, Clone, PartialEq, Eq)]
pub struct HookExecution {
    pub hook_name: String,
    pub hook_point: HookPoint,
    pub outcome: HookOutcome,
    pub duration_ms: u64,
}

/// The mathematical form of a [`HookExecution`].
pub struct ExecutionV {
    pub hook_name: Seq<char>,
    pub hook_point: HookPoint,
    pub outcome: HookOutcomeV,
    pub duration_ms: u64,
}

impl View for HookExecution {
    type V = ExecutionV;

    open spec fn view(&self) -> ExecutionV {
        ExecutionV {
            hook_name: self.hook_name@,
            hook_point: self.hook_point,
            outcome: self.outcome@,
            duration_ms: self.duration_ms,
        }
    }
}

/// The views of a list of executions.
pub open spec fn executions_view(v: Seq<HookExecution>) -> Seq<ExecutionV> {
    v.map_values(|e: HookExecution| e@)
}

/// A before hook's decision. `Failed` (the hook erred) is kept apart from
/// `Block` (the hook refused); the failure mode decides what a failure does.
#[derive(Debug, PartialEq, Eq)]
pub enum BeforeDecision {
    Pass,
    Modify(Json),
    Block { reason: String },
    Failed { error: String },
}

/// The mathematical form of a [`BeforeDecision`].
pub enum DecisionV {
    Pass,
    Modify(JsonV),
    Block { reason: Seq<char> },
    Failed { error: Seq<char> },
}

impl View for BeforeDecision {
    type V = DecisionV;

    open spec fn view(&self) -> DecisionV {
        match self {
            BeforeDecision::Pass => DecisionV::Pass,
            BeforeDecision::Modify(p) => DecisionV::Modify(p@),
            BeforeDecision::Block { reason } => DecisionV::Block { reason: reason@ },
            BeforeDecision::Failed { error } => DecisionV::Failed { error: error@ },
        }
    }
}

/// What a before chain decided for the pipeline.
#[derive(Debug, PartialEq, Eq)]
pub enum BeforeEffect {
    /// Proceed with this (possibly rewritten) payload.
    Proceed(Json),
    /// Stop the step; `by` names the hook that blocked (or failed closed).
    Block { reason: String, by: String },
}

/// The mathematical form of a [`BeforeEffect`].
pub enum EffectV {
    Proceed(JsonV),
    Block { reason: Seq<char>, by: Seq<char> },
}

impl View for BeforeEffect {
    type V = EffectV;

    open spec fn view(&self) -> EffectV {
        match self {
            BeforeEffect::Proceed(p) => EffectV::Proceed(p@),
            BeforeEffect::Block { reason, by } => EffectV::Block { reason: reason@, by: by@ },
        }
    }
}

/// Every execution record of a before chain, and the chain's effect.
#[derive(Debug)]
pub struct BeforeOutcome {
    pub executions: Vec<HookExecution>,
    pub effect: BeforeEffect,
}

/// What a hook is handed: the point, the payload it may inspect or rewrite,
/// and the tool name at tool-scoped points.
#[derive(Debug, PartialEq, Eq)]
pub struct HookRequest {
    pub hook_point: HookPoint,
    pub payload: Json,
    pub tool_name: Option<String>,
}


// ── Registry ──────────────────────────────────────────────────────────────

/// A registered hook: the point it fires at and its priority (lower runs
/// first).
#[derive(Debug)]
pub struct Registered<H> {
    pub point: HookPoint,
    pub priority: u32,
    pub hook: H,
}

/// Whether entries are in ascending priority order.
pub open spec fn sorted_by_priority<H>(s: Seq<Registered<H>>) -> bool {
    forall|i: int, j: int| 0 <= i < j < s.len() ==> #[trigger] s[i].priority <= #[trigger] s[j].priority
}

/// Where a hook of priority `p` goes: after every entry of priority `p` or
/// lower, before the first of higher priority (counting from `i`).
pub open spec fn insert_position<H>(s: Seq<Registered<H>>, p: u32, i: int) -> int
    decreases s.len() - i,
{
    if i < 0 || i >= s.len() {
        s.len() as int
    } else if s[i].priority > p {
        i
    } else {
        insert_position(s, p, i + 1)
    }
}

/// `s` with `e` registered: inserted at its priority's position, so equal
/// priorities keep registration order.
pub open spec fn insert_sorted<H>(s: Seq<Registered<H>>, e: Registered<H>) -> Seq<Registered<H>> {
    s.insert(insert_position(s, e.priority, 0), e)
}

/// The hooks registered at `point`, in chain order.
pub open spec fn chain_of<H>(s: Seq<Registered<H>>, point: HookPoint) -> Seq<H>
    decreases s.len(),
{
    if s.len() == 0 {
        Seq::empty()
    } else if s.last().point == point {
        chain_of(s.drop_last(), point).push(s.last().hook)
    } else {
        chain_of(s.drop_last(), point)
    }
}

/// Before and after hooks, each list kept in ascending priority order; the
/// chain at a point is the list's entries for that point.
pub struct HookRegistry<B, A> {
    before: Vec<Registered<B>>,
    after: Vec<Registered<A>>,
}

impl<B, A> HookRegistry<B, A> {
    /// The registered before hooks, in priority order.
    pub closed spec fn befores(&self) -> Seq<Registered<B>> {
        self.before@
    }

    /// The registered after hooks, in priority order.
    pub closed spec fn afters(&self) -> Seq<Registered<A>> {
        self.after@
    }

    /// A registry with no hook.
    pub fn new() -> (r: Self)
        ensures
            r.befores() == Seq::<Registered<B>>::empty(),
            r.afters() == Seq::<Registered<A>>::empty(),
    {
        HookRegistry { before: Vec::new(), after: Vec::new() }
    }

    /// Whether no hook is registered at all.
    pub fn is_empty(&self) -> (r: bool)
        ensures
            r == (self.befores().len() == 0 && self.afters().len() == 0),
    {
        self.before.len() == 0 && self.after.len() == 0
    }

    /// Register a before hook at `point`; the chain stays in ascending
    /// priority order, equal priorities in registration order.
    pub fn register_before(&mut self, point: HookPoint, priority: u32, hook: B)
        ensures
            final(self).befores() == insert_sorted(
                old(self).befores(),
                Registered { point, priority, hook },
            ),
            final(self).afters() == old(self).afters(),
    {
        let pos = find_insert_position(&self.before, priority);
        self.before.insert(pos, Registered { point, priority, hook });
    }

    /// Register an after hook at `point`, in the same order as before hooks.
    pub fn register_after(&mut self, point: HookPoint, priority: u32, hook: A)
        ensures
            final(self).afters() == insert_sorted(
                old(self).afters(),
                Registered { point, priority, hook },
            ),
            final(self).befores() == old(self).befores(),
    {
        let pos = find_insert_position(&self.after, priority);
        self.after.insert(pos, Registered { point, priority, hook });
    }

    /// The before hooks at `point`, in the order they run.
    pub fn before_chain(&self, point: HookPoint) -> (r: Vec<&B>)
        ensures
            r@.map_values(|h: &B| *h) == chain_of(self.befores(), point),
    {
        chain_at(&self.before, point)
    }

    /// The after hooks at `point`, in the order they run.
    pub fn after_chain(&self, point: HookPoint) -> (r: Vec<&A>)
        ensures
            r@.map_values(|h: &A| *h) == chain_of(self.afters(), point),
    {
        chain_at(&self.after, point)
    }
}

fn find_insert_position<H>(v: &Vec<Registered<H>>, p: u32) -> (r: usize)
    ensures
        r == insert_position(v@, p, 0),
        r <= v@.len(),
{
    let mut i: usize = 0;
    while i < v.len()
        invariant
            i <= v@.len(),
            insert_position(v@, p, 0) == insert_position(v@, p, i as int),
        decreases v.len() - i,
    {
        if v[i].priority > p {
            return i;
        }
        i += 1;
    }
    i
}

fn chain_at<H>(v: &Vec<Registered<H>>, point: HookPoint) -> (r: Vec<&H>)
    ensures
        r@.map_values(|h: &H| *h) == chain_of(v@, point),
{
    let mut out: Vec<&H> = Vec::new();
    let mut i: usize = 0;
    while i < v.len()
        invariant
            i <= v@.len(),
            out@.map_values(|h: &H| *h) == chain_of(v@.subrange(0, i as int), point),
        decreases v.len() - i,
    {
        assert(v@.subrange(0, i + 1).drop_last() =~= v@.subrange(0, i as int));
        let ghost prev = out@;
        if v[i].point == point {
            out.push(&v[i].hook);
            assert(out@.map_values(|h: &H| *h) =~= prev.map_values(|h: &H| *h).push(v@[i as int].hook));
        }
        i += 1;
    }
    assert(v@.subrange(0, v@.len() as int) =~= v@);
    out
}

proof fn lemma_insert_position_bounds<H>(s: Seq<Registered<H>>, p: u32, i: int)
    requires
        0 <= i <= s.len(),
        sorted_by_priority(s),
    ensures
        i <= insert_position(s, p, i) <= s.len(),
        forall|k: int| i <= k < insert_position(s, p, i) ==> #[trigger] s[k].priority <= p,
        forall|k: int| insert_position(s, p, i) <= k < s.len() ==> #[trigger] s[k].priority > p,
    decreases s.len() - i,
{
    if i < s.len() && s[i].priority <= p {
        lemma_insert_position_bounds(s, p, i + 1);
    }
}

/// Registering keeps a chain in ascending priority order, and places the
/// new hook after every hook of the same or lower priority (equal priorities
/// run in registration order) and before every hook of higher priority.
pub proof fn law_registration_keeps_priority_order<H>(s: Seq<Registered<H>>, e: Registered<H>)
    requires
        sorted_by_priority(s),
    ensures
        sorted_by_priority(insert_sorted(s, e)),
        insert_sorted(s, e).len() == s.len() + 1,
        insert_sorted(s, e)[insert_position(s, e.priority, 0)] == e,
        forall|k: int|
            0 <= k < insert_position(s, e.priority, 0) ==> #[trigger] s[k].priority <= e.priority,
        forall|k: int|
            insert_position(s, e.priority, 0) <= k < s.len() ==> #[trigger] s[k].priority
                > e.priority,
{
    lemma_insert_position_bounds(s, e.priority, 0);
    let pos = insert_position(s, e.priority, 0);
    let t = insert_sorted(s, e);
    assert forall|i: int, j: int| 0 <= i < j < t.len() implies #[trigger] t[i].priority
        <= #[trigger] t[j].priority by {
        if j < pos {
            assert(t[i] == s[i] && t[j] == s[j]);
        } else if j == pos {
            assert(t[i] == s[i]);
        } else if i < pos {
            assert(t[i] == s[i] && t[j] == s[j - 1]);
        } else if i == pos {
            assert(t[j] == s[j - 1]);
        } else {
            assert(t[i] == s[i - 1] && t[j] == s[j - 1]);
        }
    }
}

/// An empty registry's chains are sorted.
pub proof fn law_empty_chain_is_sorted<H>()
    ensures
        sorted_by_priority(Seq::<Registered<H>>::empty()),
{
}


// ── The before chain ──────────────────────────────────────────────────────

/// The state of a before chain in progress: the point, the payload the next
/// hook will see, the tool name, the executions so far, and — once a hook
/// stopped the chain — the block's reason and the blocking hook's name.
pub struct RunV {
    pub point: HookPoint,
    pub payload: JsonV,
    pub tool_name: Option<Seq<char>>,
    pub executions: Seq<ExecutionV>,
    pub blocked: Option<(Seq<char>, Seq<char>)>,
}

/// The reason recorded when a hook fails under the closed failure mode.
pub open spec fn failed_closed_reason(name: Seq<char>, error: Seq<char>) -> Seq<char> {
    "hook `"@ + name + "` failed: "@ + error
}

/// One hook's decision applied to a running chain: the execution is
/// recorded; a rewrite becomes the payload the next hook sees; a block, or a
/// failure under the closed mode, stops the chain (the `bool`).
pub open spec fn record_spec(
    s: RunV,
    name: Seq<char>,
    mode: FailureMode,
    d: DecisionV,
    duration_ms: u64,
) -> (RunV, bool) {
    let exec = |o: HookOutcomeV| ExecutionV { hook_name: name, hook_point: s.point, outcome: o, duration_ms };
    match d {
        DecisionV::Pass => (RunV { executions: s.executions.push(exec(HookOutcomeV::Pass)), ..s }, false),
        DecisionV::Modify(p) => (
            RunV { executions: s.executions.push(exec(HookOutcomeV::Modified)), payload: p, ..s },
            false,
        ),
        DecisionV::Block { reason } => (
            RunV {
                executions: s.executions.push(exec(HookOutcomeV::Blocked { reason })),
                blocked: Some((reason, name)),
                ..s
            },
            true,
        ),
        DecisionV::Failed { error } => {
            let s1 = RunV { executions: s.executions.push(exec(HookOutcomeV::Failed { error })), ..s };
            if mode == FailureMode::Closed {
                (RunV { blocked: Some((failed_closed_reason(name, error), name)), ..s1 }, true)
            } else {
                (s1, false)
            }
        },
    }
}

/// What a finished chain decided: the block, or the (possibly rewritten)
/// payload to proceed with.
pub open spec fn effect_of(s: RunV) -> EffectV {
    match s.blocked {
        Some((reason, by)) => EffectV::Block { reason, by },
        None => EffectV::Proceed(s.payload),
    }
}

/// A before chain in progress. The caller walks the chain at a point (see
/// [`HookRegistry::before_chain`]), skips the hooks that do not match
/// [`request`](Self::request), runs each other hook on that request and
/// hands its decision to [`record`](Self::record), stopping as soon as
/// `record` says so; [`finish`](Self::finish) then gives the outcome.
pub struct BeforeRun {
    point: HookPoint,
    payload: Json,
    tool_name: Option<String>,
    executions: Vec<HookExecution>,
    blocked: Option<(String, String)>,
}

impl View for BeforeRun {
    type V = RunV;

    closed spec fn view(&self) -> RunV {
        RunV {
            point: self.point,
            payload: self.payload@,
            tool_name: opt_view(self.tool_name),
            executions: executions_view(self.executions@),
            blocked: match self.blocked {
                Some((r, b)) => Some((r@, b@)),
                None => None,
            },
        }
    }
}

impl BeforeRun {
    /// Start a chain at `point` with the step's payload and tool name.
    pub fn new(point: HookPoint, payload: Json, tool_name: Option<String>) -> (r: Self)
        ensures
            r@ == (RunV {
                point,
                payload: payload@,
                tool_name: opt_view(tool_name),
                executions: Seq::empty(),
                blocked: None,
            }),
    {
        let r = BeforeRun { point, payload, tool_name, executions: Vec::new(), blocked: None };
        assert(r@.executions =~= Seq::<ExecutionV>::empty());
        r
    }

    /// Whether a hook has stopped the chain.
    pub fn is_stopped(&self) -> (r: bool)
        ensures
            r == (self@.blocked is Some),
    {
        self.blocked.is_some()
    }

    /// The request the next hook is handed: the point, the current payload
    /// and the tool name.
    pub fn request(&self) -> (r: HookRequest)
        ensures
            r.hook_point == self@.point,
            r.payload@ == self@.payload,
            opt_view(r.tool_name) == self@.tool_name,
    {
        HookRequest {
            hook_point: self.point,
            payload: json_clone(&self.payload),
            tool_name: clone_opt(&self.tool_name),
        }
    }

    /// Record one hook's decision; returns whether the chain stops here.
    pub fn record(
        &mut self,
        hook_name: &str,
        failure_mode: FailureMode,
        decision: BeforeDecision,
        duration_ms: u64,
    ) -> (stop: bool)
        requires
            old(self)@.blocked is None,
        ensures
            (final(self)@, stop) == record_spec(
                old(self)@,
                hook_name@,
                failure_mode,
                decision@,
                duration_ms,
            ),
    {
        let ghost s0 = self@;
        let name = crate::text::owned(hook_name);
        let point = self.point;
        match decision {
            BeforeDecision::Pass => {
                self.executions.push(
                    HookExecution { hook_name: name, hook_point: point, outcome: HookOutcome::Pass, duration_ms },
                );
                assert(self@.executions =~= record_spec(s0, hook_name@, failure_mode, decision@, duration_ms).0.executions);
                false
            },
            BeforeDecision::Modify(p) => {
                self.executions.push(
                    HookExecution { hook_name: name, hook_point: point, outcome: HookOutcome::Modified, duration_ms },
                );
                self.payload = p;
                assert(self@.executions =~= record_spec(s0, hook_name@, failure_mode, decision@, duration_ms).0.executions);
                false
            },
            BeforeDecision::Block { reason } => {
                let by = crate::text::owned(hook_name);
                let r2 = reason.clone();
                self.executions.push(
                    HookExecution {
                        hook_name: name,
                        hook_point: point,
                        outcome: HookOutcome::Blocked { reason: r2 },
                        duration_ms,
                    },
                );
                self.blocked = Some((reason, by));
                assert(self@.executions =~= record_spec(s0, hook_name@, failure_mode, decision@, duration_ms).0.executions);
                true
            },
            BeforeDecision::Failed { error } => {
                let mut msg: Vec<char> = Vec::new();
                append_chars(&mut msg, "hook `");
                append_chars(&mut msg, hook_name);
                append_chars(&mut msg, "` failed: ");
                append_chars(&mut msg, error.as_str());
                let e2 = error.clone();
                self.executions.push(
                    HookExecution {
                        hook_name: name,
                        hook_point: point,
                        outcome: HookOutcome::Failed { error: e2 },
                        duration_ms,
                    },
                );
                assert(self@.executions =~= record_spec(s0, hook_name@, failure_mode, decision@, duration_ms).0.executions);
                match failure_mode {
                    FailureMode::Closed => {
                        self.blocked = Some((string_of(&msg), crate::text::owned(hook_name)));
                        true
                    },
                    FailureMode::Open => false,
                }
            },
        }
    }

    /// The executions recorded and the chain's effect.
    pub fn finish(self) -> (r: BeforeOutcome)
        ensures
            executions_view(r.executions@) == self@.executions,
            r.effect@ == effect_of(self@),
    {
        let effect = match self.blocked {
            Some((reason, by)) => BeforeEffect::Block { reason, by },
            None => BeforeEffect::Proceed(self.payload),
        };
        BeforeOutcome { executions: self.executions, effect }
    }
}

/// One step of a chain as the caller saw it: the hook's name, its failure
/// mode, its decision and how long it took.
pub struct StepV {
    pub name: Seq<char>,
    pub mode: FailureMode,
    pub decision: DecisionV,
    pub duration_ms: u64,
}

/// The first `n` steps applied to a chain, each recorded until one stops it
/// (the caller runs no hook after that).
pub open spec fn run_steps(s: RunV, steps: Seq<StepV>, n: int) -> RunV
    decreases n,
{
    if n <= 0 || n > steps.len() {
        s
    } else {
        let prev = run_steps(s, steps, n - 1);
        if prev.blocked is Some {
            prev
        } else {
            let st = steps[n - 1];
            record_spec(prev, st.name, st.mode, st.decision, st.duration_ms).0
        }
    }
}

/// Whether a step stops the chain: a block, or a failure under the closed
/// mode.
pub open spec fn step_stops(st: StepV) -> bool {
    st.decision is Block || (st.decision is Failed && st.mode == FailureMode::Closed)
}

/// The payload after the first `n` steps' rewrites (the last rewrite wins).
pub open spec fn rewritten_payload(init: JsonV, steps: Seq<StepV>, n: int) -> JsonV
    decreases n,
{
    if n <= 0 || n > steps.len() {
        init
    } else {
        match steps[n - 1].decision {
            DecisionV::Modify(p) => p,
            _ => rewritten_payload(init, steps, n - 1),
        }
    }
}

/// A chain in which no step stops records every step, in order, and
/// proceeds with the last rewrite of the payload (the initial payload if no
/// hook rewrote it): failures under the open mode are recorded and skipped.
pub proof fn law_unstopped_chain_records_all_and_proceeds(s: RunV, steps: Seq<StepV>, n: int)
    requires
        s.blocked is None,
        0 <= n <= steps.len(),
        forall|k: int| 0 <= k < n ==> !step_stops(#[trigger] steps[k]),
    ensures
        run_steps(s, steps, n).blocked is None,
        run_steps(s, steps, n).executions.len() == s.executions.len() + n,
        forall|k: int|
            0 <= k < n ==> (#[trigger] run_steps(s, steps, n).executions[s.executions.len() + k]).hook_name
                == steps[k].name,
        effect_of(run_steps(s, steps, n)) == EffectV::Proceed(rewritten_payload(s.payload, steps, n)),
    decreases n,
{
    if n > 0 {
        law_unstopped_chain_records_all_and_proceeds(s, steps, n - 1);
        let prev = run_steps(s, steps, n - 1);
        let st = steps[n - 1];
        assert(!step_stops(st));
        let next = run_steps(s, steps, n);
        assert forall|k: int| 0 <= k < n implies (#[trigger] next.executions[s.executions.len() + k]).hook_name
            == steps[k].name by {
            if k < n - 1 {
                assert(next.executions[s.executions.len() + k] == prev.executions[s.executions.len() + k]);
            }
        }
    }
}

/// The first step that stops a chain ends it: it is the last execution
/// recorded, it names the blocking hook, and no later step changes anything.
pub proof fn law_stopping_step_ends_the_chain(s: RunV, steps: Seq<StepV>, k: int, n: int)
    requires
        s.blocked is None,
        0 <= k < n <= steps.len(),
        forall|j: int| 0 <= j < k ==> !step_stops(#[trigger] steps[j]),
        step_stops(steps[k]),
    ensures
        run_steps(s, steps, n) == run_steps(s, steps, k + 1),
        run_steps(s, steps, n).executions.len() == s.executions.len() + k + 1,
        run_steps(s, steps, n).blocked matches Some((_, by)) && by == steps[k].name,
    decreases n,
{
    if n > k + 1 {
        law_stopping_step_ends_the_chain(s, steps, k, n - 1);
    } else {
        law_unstopped_chain_records_all_and_proceeds(s, steps, k);
    }
}

/// The execution an after hook's run is recorded as: observed, or failed
/// with the hook's error. After hooks never affect the pipeline.
pub fn after_execution(
    hook_name: &str,
    point: HookPoint,
    result: Result<(), String>,
    duration_ms: u64,
) -> (r: HookExecution)
    ensures
        r@ == (ExecutionV {
            hook_name: hook_name@,
            hook_point: point,
            outcome: match result {
                Ok(()) => HookOutcomeV::Observed,
                Err(e) => HookOutcomeV::Failed { error: e@ },
            },
            duration_ms,
        }),
{
    let outcome = match result {
        Ok(()) => HookOutcome::Observed,
        Err(error) => HookOutcome::Failed { error },
    };
    HookExecution { hook_name: crate::text::owned(hook_name), hook_point: point, outcome, duration_ms }
}


// ── Shell hooks ───────────────────────────────────────────────────────────

/// One configured shell hook.
#[derive(Debug, Clone, PartialEq, Eq)]
pub struct HookSpec {
    /// Unique name; namespaces the hook in logs.
    pub name: String,
    /// The pipeline point, such as `"tool:invoke:before"`.
    pub hook_point: String,
    /// Fire only for this tool (tool-scoped points only).
    pub match_tool: Option<String>,
    /// The shell command to run.
    pub command: String,
    /// Lower runs first; 100 when not configured.
    pub priority: u32,
    pub failure_mode: FailureMode,
    /// Execution budget; 5 s for before hooks and 30 s for after hooks when
    /// not configured.
    pub timeout_ms: Option<u64>,
}

impl HookSpec {
    /// A copy of this spec.
    pub fn duplicate(&self) -> (r: Self)
        ensures
            r == *self,
    {
        HookSpec {
            name: self.name.clone(),
            hook_point: self.hook_point.clone(),
            match_tool: clone_opt(&self.match_tool),
            command: self.command.clone(),
            priority: self.priority,
            failure_mode: self.failure_mode,
            timeout_ms: self.timeout_ms,
        }
    }
}

/// The priority a hook gets when its configuration names none.
pub fn default_priority() -> (r: u32)
    ensures
        r == 100,
{
    100
}

/// A user hook backed by a shell command, speaking JSON over stdin/stdout:
/// the host writes a request object to stdin; a before hook writes its
/// action to stdout, an after hook writes nothing.
#[derive(Debug)]
pub struct ShellHook {
    spec: HookSpec,
    point: HookPoint,
}

/// The shell hook built from a spec for a point.
pub closed spec fn shell_hook(spec: HookSpec, point: HookPoint) -> ShellHook {
    ShellHook { spec, point }
}

/// Whether a hook filtered to `match_tool` fires for a request naming
/// `tool`: with no filter it always does, with one only for that tool.
pub open spec fn tool_filter_admits(match_tool: Option<Seq<char>>, tool: Option<Seq<char>>) -> bool {
    match match_tool {
        None => true,
        Some(want) => tool == Some(want),
    }
}

/// The JSON request a shell hook reads on stdin.
pub open spec fn stdin_request_spec(point: HookPoint, payload: JsonV) -> JsonV {
    JsonV::Object(seq![("hook_point"@, JsonV::Str(point_name(point))), ("payload"@, payload)])
}

impl ShellHook {
    /// The spec this hook was built from.
    pub closed spec fn config(&self) -> HookSpec {
        self.spec
    }

    /// The point this hook fires at.
    pub closed spec fn fires_at(&self) -> HookPoint {
        self.point
    }

    pub fn new(spec: HookSpec, point: HookPoint) -> (r: Self)
        ensures
            r == shell_hook(spec, point),
            r.config() == spec,
            r.fires_at() == point,
    {
        ShellHook { spec, point }
    }

    pub fn name(&self) -> (r: &str)
        ensures
            r@ == self.config().name@,
    {
        self.spec.name.as_str()
    }

    pub fn priority(&self) -> (r: u32)
        ensures
            r == self.config().priority,
    {
        self.spec.priority
    }

    pub fn failure_mode(&self) -> (r: FailureMode)
        ensures
            r == self.config().failure_mode,
    {
        self.spec.failure_mode
    }

    /// The command to run.
    pub fn command(&self) -> (r: &str)
        ensures
            r@ == self.config().command@,
    {
        self.spec.command.as_str()
    }

    /// The point this hook fires at.
    pub fn point(&self) -> (r: HookPoint)
        ensures
            r == self.fires_at(),
    {
        self.point
    }

    /// Whether the hook applies to `req`: a `match_tool` filter only fires
    /// when the request names that tool.
    pub fn matches(&self, req: &HookRequest) -> (r: bool)
        ensures
            r == tool_filter_admits(opt_view(self.config().match_tool), opt_view(req.tool_name)),
    {
        match &self.spec.match_tool {
            None => true,
            Some(want) => match &req.tool_name {
                Some(t) => str_eq(t.as_str(), want.as_str()),
                None => false,
            },
        }
    }

    /// The execution budget in milliseconds: the configured one, else 5000
    /// for a before hook and 30000 for an after hook.
    pub fn timeout(&self) -> (r: u64)
        ensures
            r == match self.config().timeout_ms {
                Some(ms) => ms,
                None => if point_is_before(self.fires_at()) {
                    5000u64
                } else {
                    30000u64
                },
            },
    {
        match self.spec.timeout_ms {
            Some(ms) => ms,
            None => if self.point.is_before() {
                5000
            } else {
                30000
            },
        }
    }

    /// The request object written to the command's stdin: the point's name
    /// and the payload.
    pub fn stdin_request(&self, req: &HookRequest) -> (r: Json)
        ensures
            r@ == stdin_request_spec(self.fires_at(), req.payload@),
    {
        let mut members: Vec<(String, Json)> = Vec::new();
        members.push((crate::text::owned("hook_point"), Json::Str(crate::text::owned(self.point.as_str()))));
        members.push((crate::text::owned("payload"), json_clone(&req.payload)));
        proof {
            reveal_strlit("hook_point");
            reveal_strlit("payload");
            assert(members@.len() == 2);
            assert(json_view(members@[0].1) == JsonV::Str(point_name(self.point)));
            assert(json_view(members@[1].1) == req.payload@);
        }
        let r = Json::Object(members);
        assert(r@ =~= stdin_request_spec(self.fires_at(), req.payload@)) by {
            if let JsonV::Object(ms) = r@ {
                assert(ms =~= seq![("hook_point"@, JsonV::Str(point_name(self.point))), ("payload"@, req.payload@)]);
            }
        }
        r
    }

    /// The text written to the command's stdin: the request object as
    /// compact JSON text.
    pub fn stdin_text(&self, req: &HookRequest) -> (r: String)
        ensures
            r@ == json_text(stdin_request_spec(self.fires_at(), req.payload@)),
    {
        let request = self.stdin_request(req);
        json_to_text(&request)
    }
}

/// The Rust debug form of a string (quoted, with escapes), as `{:?}`
/// formats it.
pub uninterp spec fn str_debug(s: Seq<char>) -> Seq<char>;

/// Formats a string with `{:?}`; the contract claims only that the result
/// is that debug form of exactly this string.
#[verifier::external_body]
fn debug_quoted(s: &str) -> (r: String)
    ensures
        r@ == str_debug(s@),
{
    format!("{s:?}")
}

/// The string value at `key` of a JSON object, if it is one.
pub open spec fn str_member(v: JsonV, key: Seq<char>) -> Option<Seq<char>> {
    match json_get(v, key) {
        Some(JsonV::Str(s)) => Some(s),
        _ => None,
    }
}

/// A before hook's decision from its (trimmed, non-empty) stdout and the
/// JSON value that text denotes (`None` when it is not JSON): the `action`
/// member selects pass, modify (with the `payload` member), or block (with
/// the `reason` member, or a default reason); anything else is a failure.
pub open spec fn decision_of(stdout: Seq<char>, value: Option<JsonV>) -> DecisionV {
    match value {
        None => DecisionV::Failed { error: "invalid JSON on stdout: "@ + stdout },
        Some(v) => match str_member(v, "action"@) {
            Some(a) => if a == "pass"@ {
                DecisionV::Pass
            } else if a == "modify"@ {
                match json_get(v, "payload"@) {
                    Some(p) => DecisionV::Modify(p),
                    None => DecisionV::Failed { error: "modify action missing `payload`"@ },
                }
            } else if a == "block"@ {
                DecisionV::Block {
                    reason: match str_member(v, "reason"@) {
                        Some(r) => r,
                        None => "blocked by hook"@,
                    },
                }
            } else {
                DecisionV::Failed { error: "unknown action: Some("@ + str_debug(a) + ")"@ }
            },
            None => DecisionV::Failed { error: "unknown action: None"@ },
        },
    }
}

fn string_of_str(s: &str) -> (r: String)
    ensures
        r@ == s@,
{
    crate::text::owned(s)
}

/// The decision a before hook's stdout expresses, given the stdout (trimmed
/// and non-empty) and the JSON value parsed from it (see [`decision_of`]).
pub fn decision_from_value(stdout: &str, value: Option<Json>) -> (r: BeforeDecision)
    ensures
        r@ == decision_of(stdout@, match value {
            Some(v) => Some(v@),
            None => None,
        }),
{
    proof {
        reveal_strlit("action");
        reveal_strlit("pass");
        reveal_strlit("modify");
        reveal_strlit("block");
    }
    match value {
        None => {
            let mut msg: Vec<char> = Vec::new();
            append_chars(&mut msg, "invalid JSON on stdout: ");
            append_chars(&mut msg, stdout);
            BeforeDecision::Failed { error: string_of(&msg) }
        },
        Some(v) => {
            let action: Option<&String> = match v.get("action") {
                Some(a) => a.as_str(),
                None => None,
            };
            match action {
                None => BeforeDecision::Failed { error: string_of_str("unknown action: None") },
                Some(a) => {
                    if str_eq(a.as_str(), "pass") {
                        BeforeDecision::Pass
                    } else if str_eq(a.as_str(), "modify") {
                        match v.get("payload") {
                            Some(p) => BeforeDecision::Modify(json_clone(p)),
                            None => BeforeDecision::Failed {
                                error: string_of_str("modify action missing `payload`"),
                            },
                        }
                    } else if str_eq(a.as_str(), "block") {
                        let reason = match v.get("reason") {
                            Some(r) => match r.as_str() {
                                Some(t) => t.clone(),
                                None => string_of_str("blocked by hook"),
                            },
                            None => string_of_str("blocked by hook"),
                        };
                        BeforeDecision::Block { reason }
                    } else {
                        let mut msg: Vec<char> = Vec::new();
                        append_chars(&mut msg, "unknown action: Some(");
                        append_chars(&mut msg, debug_quoted(a.as_str()).as_str());
                        append_chars(&mut msg, ")");
                        BeforeDecision::Failed { error: string_of(&msg) }
                    }
                },
            }
        },
    }
}

/// The decision a before hook's raw stdout expresses: empty output (after
/// trimming) passes; otherwise the trimmed text is parsed as JSON and read
/// with [`decision_from_value`].
pub fn decision_from_stdout(raw: &str) -> (r: BeforeDecision)
    ensures
        trim(raw@).len() == 0 ==> r@ == DecisionV::Pass,
        trim(raw@).len() > 0 ==> r@ == decision_of(trim(raw@), json_text_value(trim(raw@))),
{
    let t = string_of(&trim_chars(&chars_of(raw)));
    if t.as_str().is_empty() {
        return BeforeDecision::Pass;
    }
    let value = parse_json(t.as_str());
    decision_from_value(t.as_str(), value)
}

// ── Configuration ─────────────────────────────────────────────────────────

/// The configured shell hooks (each `[[hooks]]` table).
#[derive(Debug, Clone, PartialEq, Eq)]
pub struct HookConfig {
    pub hooks: Vec<HookSpec>,
}

impl Default for HookConfig {
    fn default() -> (r: Self)
        ensures
            r.hooks@.len() == 0,
    {
        HookConfig { hooks: Vec::new() }
    }
}

/// Whether some hook in `acc` has this name.
pub open spec fn has_hook_named(acc: Seq<HookSpec>, name: Seq<char>) -> bool {
    exists|i: int| 0 <= i < acc.len() && (#[trigger] acc[i]).name@ == name
}

/// The first `n` hooks with every later duplicate of a name dropped: the
/// first occurrence of a name wins.
pub open spec fn first_by_name(hooks: Seq<HookSpec>, n: int) -> Seq<HookSpec>
    decreases n,
{
    if n <= 0 || n > hooks.len() {
        Seq::empty()
    } else {
        let acc = first_by_name(hooks, n - 1);
        if has_hook_named(acc, hooks[n - 1].name@) {
            acc
        } else {
            acc.push(hooks[n - 1])
        }
    }
}

/// All hooks of the first `n` layers, in order.
pub open spec fn layer_hooks(layers: Seq<HookConfig>, n: int) -> Seq<HookSpec>
    decreases n,
{
    if n <= 0 || n > layers.len() {
        Seq::empty()
    } else {
        layer_hooks(layers, n - 1) + layers[n - 1].hooks@
    }
}

/// One routing step: a spec at a wired point becomes a shell hook in the
/// before or after list; a spec at an unknown point is skipped with a
/// warning naming it.
pub open spec fn route_spec(
    acc: (Seq<Registered<ShellHook>>, Seq<Registered<ShellHook>>, Seq<Seq<char>>),
    h: HookSpec,
) -> (Seq<Registered<ShellHook>>, Seq<Registered<ShellHook>>, Seq<Seq<char>>) {
    match point_of_name(h.hook_point@) {
        None => (
            acc.0,
            acc.1,
            acc.2.push(
                "hook: skipping `"@ + h.name@ + "` — unknown hook_point `"@ + h.hook_point@ + "`"@,
            ),
        ),
        Some(p) => {
            let e = Registered { point: p, priority: h.priority, hook: shell_hook(h, p) };
            if point_is_before(p) {
                (insert_sorted(acc.0, e), acc.1, acc.2)
            } else {
                (acc.0, insert_sorted(acc.1, e), acc.2)
            }
        },
    }
}

/// The first `n` specs routed in order.
pub open spec fn routed(specs: Seq<HookSpec>, n: int) -> (
    Seq<Registered<ShellHook>>,
    Seq<Registered<ShellHook>>,
    Seq<Seq<char>>,
)
    decreases n,
{
    if n <= 0 || n > specs.len() {
        (Seq::empty(), Seq::empty(), Seq::empty())
    } else {
        route_spec(routed(specs, n - 1), specs[n - 1])
    }
}

impl HookConfig {
    /// Merge configuration layers, highest priority first: a hook name in a
    /// higher layer shadows the same name in a lower one; otherwise hooks
    /// keep their order.
    pub fn merged(layers: &Vec<HookConfig>) -> (r: HookConfig)
        ensures
            r.hooks@ == first_by_name(
                layer_hooks(layers@, layers@.len() as int),
                layer_hooks(layers@, layers@.len() as int).len() as int,
            ),
    {
        let mut all: Vec<HookSpec> = Vec::new();
        let mut i: usize = 0;
        while i < layers.len()
            invariant
                i <= layers@.len(),
                all@ == layer_hooks(layers@, i as int),
            decreases layers.len() - i,
        {
            let hooks = &layers[i].hooks;
            let ghost before = all@;
            let mut j: usize = 0;
            while j < hooks.len()
                invariant
                    j <= hooks@.len(),
                    all@ == before + hooks@.subrange(0, j as int),
                decreases hooks.len() - j,
            {
                all.push(hooks[j].duplicate());
                j += 1;
                assert(all@ =~= before + hooks@.subrange(0, j as int));
            }
            assert(hooks@.subrange(0, hooks@.len() as int) =~= hooks@);
            i += 1;
        }
        let mut kept: Vec<HookSpec> = Vec::new();
        let mut k: usize = 0;
        while k < all.len()
            invariant
                k <= all@.len(),
                kept@ == first_by_name(all@, k as int),
            decreases all.len() - k,
        {
            let mut seen = false;
            let mut m: usize = 0;
            while m < kept.len()
                invariant
                    m <= kept@.len(),
                    k < all@.len(),
                    seen == exists|x: int| 0 <= x < m && (#[trigger] kept@[x]).name@ == all@[k as int].name@,
                decreases kept.len() - m,
            {
                if str_eq(kept[m].name.as_str(), all[k].name.as_str()) {
                    seen = true;
                }
                m += 1;
            }
            if !seen {
                kept.push(all[k].duplicate());
            }
            k += 1;
        }
        HookConfig { hooks: kept }
    }

    /// Build a registry from the configured shell hooks, in order: a hook at
    /// a before point joins the before list, one at an after point the after
    /// list; a hook at an unknown point is skipped, and a warning naming it
    /// is returned.
    pub fn into_registry(self) -> (r: (HookRegistry<ShellHook, ShellHook>, Vec<String>))
        ensures
            r.0.befores() == routed(self.hooks@, self.hooks@.len() as int).0,
            r.0.afters() == routed(self.hooks@, self.hooks@.len() as int).1,
            r.1@.map_values(|w: String| w@) == routed(self.hooks@, self.hooks@.len() as int).2,
    {
        let mut registry: HookRegistry<ShellHook, ShellHook> = HookRegistry::new();
        let mut warnings: Vec<String> = Vec::new();
        let hooks = self.hooks;
        let mut i: usize = 0;
        proof {
            assert(warnings@.map_values(|w: String| w@) =~= Seq::<Seq<char>>::empty());
        }
        while i < hooks.len()
            invariant
                i <= hooks@.len(),
                registry.befores() == routed(hooks@, i as int).0,
                registry.afters() == routed(hooks@, i as int).1,
                warnings@.map_values(|w: String| w@) == routed(hooks@, i as int).2,
            decreases hooks.len() - i,
        {
            let spec = hooks[i].duplicate();
            match HookPoint::parse(spec.hook_point.as_str()) {
                None => {
                    let mut msg: Vec<char> = Vec::new();
                    append_chars(&mut msg, "hook: skipping `");
                    append_chars(&mut msg, spec.name.as_str());
                    append_chars(&mut msg, "` — unknown hook_point `");
                    append_chars(&mut msg, spec.hook_point.as_str());
                    append_chars(&mut msg, "`");
                    let ghost prev = warnings@;
                    warnings.push(string_of(&msg));
                    assert(warnings@.map_values(|w: String| w@) =~= prev.map_values(|w: String| w@).push(msg@));
                },
                Some(point) => {
                    let priority = spec.priority;
                    let hook = ShellHook::new(spec, point);
                    if point.is_before() {
                        registry.register_before(point, priority, hook);
                    } else {
                        registry.register_after(point, priority, hook);
                    }
                },
            }
            i += 1;
        }
        (registry, warnings)
    }
}


/// No hook before index `k` has the name of hook `k`.
pub open spec fn first_occurrence(hooks: Seq<HookSpec>, k: int) -> bool {
    forall|k2: int| 0 <= k2 < k ==> (#[trigger] hooks[k2]).name@ != hooks[k].name@
}

/// Merging keeps exactly one hook per name, and it is the name's first
/// occurrence: a hook in a higher layer shadows every later hook of the same
/// name, and every configured name survives.
pub proof fn law_merge_keeps_first_hook_per_name(hooks: Seq<HookSpec>, n: int)
    requires
        0 <= n <= hooks.len(),
    ensures
        forall|i: int, j: int|
            0 <= i < j < first_by_name(hooks, n).len() ==> (#[trigger] first_by_name(hooks, n)[i]).name@
                != (#[trigger] first_by_name(hooks, n)[j]).name@,
        forall|k: int| 0 <= k < n ==> has_hook_named(first_by_name(hooks, n), (#[trigger] hooks[k]).name@),
        forall|i: int|
            #![trigger first_by_name(hooks, n)[i]]
            0 <= i < first_by_name(hooks, n).len() ==> exists|k: int|
                0 <= k < n && #[trigger] hooks[k] == first_by_name(hooks, n)[i]
                    && first_occurrence(hooks, k),
    decreases n,
{
    if n > 0 {
        law_merge_keeps_first_hook_per_name(hooks, n - 1);
        let acc = first_by_name(hooks, n - 1);
        let r = first_by_name(hooks, n);
        if !has_hook_named(acc, hooks[n - 1].name@) {
            assert forall|k: int| 0 <= k < n implies has_hook_named(r, (#[trigger] hooks[k]).name@) by {
                if k < n - 1 {
                    let x = choose|x: int| 0 <= x < acc.len() && (#[trigger] acc[x]).name@ == hooks[k].name@;
                    assert(r[x] == acc[x]);
                } else {
                    assert(r[acc.len() as int] == hooks[n - 1]);
                }
            }
            assert forall|i: int| #![trigger r[i]] 0 <= i < r.len() implies exists|k: int|
                0 <= k < n && #[trigger] hooks[k] == r[i] && first_occurrence(hooks, k) by {
                if i == acc.len() {
                    assert forall|k2: int| 0 <= k2 < n - 1 implies (#[trigger] hooks[k2]).name@
                        != hooks[n - 1].name@ by {
                        assert(has_hook_named(acc, hooks[k2].name@));
                    }
                    assert(hooks[n - 1] == r[i]);
                } else {
                    assert(r[i] == acc[i]);
                }
            }
        }
    }
}

} // verus!
