//! Plan cards: the checklist a `plan` tool call builds (`init`) and then edits
//! in place (`ops`), as the conversation view renders it.

use vstd::prelude::*;

use crate::json::{Json, JsonV, json_get};
use crate::text::{decimal, decimal_string, parse_u64, parse_u64_exec, reversed, str_eq};
use crate::permission::{clone_opt, opt_view};

verus! {

broadcast use vstd::std_specs::vec::group_vec_axioms;

/// A plan step's status.
#[derive(Debug, Clone, Copy, PartialEq, Eq, Structural)]
pub enum ViewPlanStatus {
    Pending,
    InProgress,
    Completed,
    Cancelled,
    Blocked,
}

/// One plan step as the conversation view renders it.
#[derive(Debug, Clone, PartialEq, Eq)]
pub struct ViewPlanStep {
    pub id: String,
    pub content: String,
    pub status: ViewPlanStatus,
    pub reason: Option<String>,
}

/// The mathematical form of a [`ViewPlanStep`].
pub struct StepV {
    pub id: Seq<char>,
    pub content: Seq<char>,
    pub status: ViewPlanStatus,
    pub reason: Option<Seq<char>>,
}

impl View for ViewPlanStep {
    type V = StepV;

    open spec fn view(&self) -> StepV {
        StepV { id: self.id@, content: self.content@, status: self.status, reason: opt_view(self.reason) }
    }
}

/// The views of a list of steps.
pub open spec fn steps_view(v: Seq<ViewPlanStep>) -> Seq<StepV> {
    v.map_values(|s: ViewPlanStep| s@)
}

/// One edit of a plan.
#[derive(Debug, PartialEq, Eq)]
pub enum LeafOp {
    Start { id: String },
    Complete { id: String },
    Cancel { id: String, reason: String },
    Block { id: String, reason: String },
    Add { content: String, after_id: Option<String> },
}

/// A `plan` tool call: a fresh checklist, or edits to the latest one.
#[derive(Debug, PartialEq, Eq)]
pub enum PlanOp {
    Init { steps: Vec<String> },
    Ops { ops: Vec<LeafOp> },
}

/// The mathematical form of a [`LeafOp`].
pub enum LeafOpV {
    Start { id: Seq<char> },
    Complete { id: Seq<char> },
    Cancel { id: Seq<char>, reason: Seq<char> },
    Block { id: Seq<char>, reason: Seq<char> },
    Add { content: Seq<char>, after_id: Option<Seq<char>> },
}

/// The mathematical form of a [`PlanOp`].
pub enum PlanOpV {
    Init { steps: Seq<Seq<char>> },
    Ops { ops: Seq<LeafOpV> },
}

impl View for LeafOp {
    type V = LeafOpV;

    open spec fn view(&self) -> LeafOpV {
        match self {
            LeafOp::Start { id } => LeafOpV::Start { id: id@ },
            LeafOp::Complete { id } => LeafOpV::Complete { id: id@ },
            LeafOp::Cancel { id, reason } => LeafOpV::Cancel { id: id@, reason: reason@ },
            LeafOp::Block { id, reason } => LeafOpV::Block { id: id@, reason: reason@ },
            LeafOp::Add { content, after_id } => LeafOpV::Add {
                content: content@,
                after_id: opt_view(*after_id),
            },
        }
    }
}

impl View for PlanOp {
    type V = PlanOpV;

    open spec fn view(&self) -> PlanOpV {
        match self {
            PlanOp::Init { steps } => PlanOpV::Init { steps: steps@.map_values(|s: String| s@) },
            PlanOp::Ops { ops } => PlanOpV::Ops { ops: ops@.map_values(|o: LeafOp| o@) },
        }
    }
}

// ── Reading a plan call's JSON arguments ──────────────────────────────────

/// The text of member `key` when it is a JSON string.
pub open spec fn str_member(v: JsonV, key: Seq<char>) -> Option<Seq<char>> {
    match json_get(v, key) {
        Some(JsonV::Str(s)) => Some(s),
        _ => None,
    }
}

/// An optional string member: absent or `null` reads as `None`, a string as
/// `Some`, anything else is malformed (outer `None`).
pub open spec fn opt_str_member(v: JsonV, key: Seq<char>) -> Option<Option<Seq<char>>> {
    match json_get(v, key) {
        None => Some(None),
        Some(JsonV::Null) => Some(None),
        Some(JsonV::Str(s)) => Some(Some(s)),
        _ => None,
    }
}

/// One leaf op, tagged by its `op` member.
pub open spec fn leaf_of_json(v: JsonV) -> Option<LeafOpV> {
    match str_member(v, "op"@) {
        Some(op) => if op == "start"@ {
            match str_member(v, "id"@) {
                Some(id) => Some(LeafOpV::Start { id }),
                None => None,
            }
        } else if op == "complete"@ {
            match str_member(v, "id"@) {
                Some(id) => Some(LeafOpV::Complete { id }),
                None => None,
            }
        } else if op == "cancel"@ {
            match (str_member(v, "id"@), str_member(v, "reason"@)) {
                (Some(id), Some(reason)) => Some(LeafOpV::Cancel { id, reason }),
                _ => None,
            }
        } else if op == "block"@ {
            match (str_member(v, "id"@), str_member(v, "reason"@)) {
                (Some(id), Some(reason)) => Some(LeafOpV::Block { id, reason }),
                _ => None,
            }
        } else if op == "add"@ {
            match (str_member(v, "content"@), opt_str_member(v, "after_id"@)) {
                (Some(content), Some(after_id)) => Some(LeafOpV::Add { content, after_id }),
                _ => None,
            }
        } else {
            None
        },
        None => None,
    }
}

/// The first `n` items of `items` as leaf ops, when all are well formed.
pub open spec fn leaves_of(items: Seq<JsonV>, n: int) -> Option<Seq<LeafOpV>>
    decreases n,
{
    if n <= 0 || n > items.len() {
        if n == 0 {
            Some(Seq::empty())
        } else {
            None
        }
    } else {
        match (leaves_of(items, n - 1), leaf_of_json(items[n - 1])) {
            (Some(prev), Some(op)) => Some(prev.push(op)),
            _ => None,
        }
    }
}

/// The `content` texts of the first `n` step objects, when all are well formed.
pub open spec fn step_contents_of(items: Seq<JsonV>, n: int) -> Option<Seq<Seq<char>>>
    decreases n,
{
    if n <= 0 || n > items.len() {
        if n == 0 {
            Some(Seq::empty())
        } else {
            None
        }
    } else {
        match (step_contents_of(items, n - 1), str_member(items[n - 1], "content"@)) {
            (Some(prev), Some(c)) => Some(prev.push(c)),
            _ => None,
        }
    }
}

/// A plan call's arguments: `{"op":"init","steps":[{"content":..},..]}` starts
/// a checklist; `{"ops":[..]}` edits the latest one; anything else is
/// malformed.
pub open spec fn plan_of_json(v: JsonV) -> Option<PlanOpV> {
    if init_of_json(v) is Some {
        init_of_json(v)
    } else {
        match json_get(v, "ops"@) {
            Some(JsonV::Array(items)) => match leaves_of(items, items.len() as int) {
                Some(ops) => Some(PlanOpV::Ops { ops }),
                None => None,
            },
            _ => None,
        }
    }
}

/// The `init` reading of a plan call's arguments.
pub open spec fn init_of_json(v: JsonV) -> Option<PlanOpV> {
    match (str_member(v, "op"@), json_get(v, "steps"@)) {
        (Some(op), Some(JsonV::Array(items))) => if op == "init"@ {
            match step_contents_of(items, items.len() as int) {
                Some(steps) => Some(PlanOpV::Init { steps }),
                None => None,
            }
        } else {
            None
        },
        _ => None,
    }
}

/// The text of member `key` when it is a string.
fn string_member(v: &Json, key: &str) -> (r: Option<String>)
    ensures
        opt_view(r) == str_member(v@, key@),
{
    match v.get(key) {
        Some(m) => match m.as_str() {
            Some(s) => Some(s.clone()),
            None => None,
        },
        None => None,
    }
}

/// An optional string member (see [`opt_str_member`]).
fn optional_string_member(v: &Json, key: &str) -> (r: Option<Option<String>>)
    ensures
        match r {
            Some(o) => opt_str_member(v@, key@) == Some(opt_view(o)),
            None => opt_str_member(v@, key@) is None,
        },
{
    match v.get(key) {
        None => Some(None),
        Some(Json::Null) => Some(None),
        Some(Json::Str(s)) => Some(Some(s.clone())),
        Some(_) => None,
    }
}

/// Reads one leaf op.
pub fn leaf_from_json(v: &Json) -> (r: Option<LeafOp>)
    ensures
        match r {
            Some(op) => leaf_of_json(v@) == Some(op@),
            None => leaf_of_json(v@) is None,
        },
{
    let op = match string_member(v, "op") {
        Some(op) => op,
        None => return None,
    };
    proof {
        reveal_strlit("start");
        reveal_strlit("complete");
        reveal_strlit("cancel");
        reveal_strlit("block");
        reveal_strlit("add");
    }
    if str_eq(&op, "start") {
        match string_member(v, "id") {
            Some(id) => Some(LeafOp::Start { id }),
            None => None,
        }
    } else if str_eq(&op, "complete") {
        match string_member(v, "id") {
            Some(id) => Some(LeafOp::Complete { id }),
            None => None,
        }
    } else if str_eq(&op, "cancel") {
        match (string_member(v, "id"), string_member(v, "reason")) {
            (Some(id), Some(reason)) => Some(LeafOp::Cancel { id, reason }),
            _ => None,
        }
    } else if str_eq(&op, "block") {
        match (string_member(v, "id"), string_member(v, "reason")) {
            (Some(id), Some(reason)) => Some(LeafOp::Block { id, reason }),
            _ => None,
        }
    } else if str_eq(&op, "add") {
        match (string_member(v, "content"), optional_string_member(v, "after_id")) {
            (Some(content), Some(after_id)) => Some(LeafOp::Add { content, after_id }),
            _ => None,
        }
    } else {
        None
    }
}

/// Reads a plan call's arguments (see [`plan_of_json`]).
pub fn plan_from_json(v: &Json) -> (r: Option<PlanOp>)
    ensures
        match r {
            Some(op) => plan_of_json(v@) == Some(op@),
            None => plan_of_json(v@) is None,
        },
{
    proof {
        reveal_strlit("init");
    }
    let op = string_member(v, "op");
    let is_init = match &op {
        Some(o) => str_eq(o, "init"),
        None => false,
    };
    if is_init {
        if let Some(Json::Array(items)) = v.get("steps") {
            let ghost jitems = match json_get(v@, "steps"@) {
                Some(JsonV::Array(js)) => js,
                _ => Seq::empty(),
            };
            let mut steps: Vec<String> = Vec::new();
            let mut i: usize = 0;
            let mut ok = true;
            while ok && i < items.len()
                invariant
                    i <= items.len(),
                    jitems.len() == items.len(),
                    forall|k: int| 0 <= k < items.len() ==> #[trigger] jitems[k] == items@[k]@,
                    ok ==> steps.len() == i,
                    ok ==> step_contents_of(jitems, i as int) == Some(
                        steps@.map_values(|s: String| s@),
                    ),
                    !ok ==> step_contents_of(jitems, items.len() as int) is None,
                decreases items.len() - i,
            {
                match string_member(&items[i], "content") {
                    Some(c) => {
                        let ghost prev = steps@;
                        steps.push(c);
                        assert(steps@.map_values(|s: String| s@) =~= prev.map_values(
                            |s: String| s@,
                        ).push(steps@[i as int]@));
                    },
                    None => {
                        ok = false;
                        proof {
                            lemma_step_contents_stay_none(jitems, i as int + 1, items.len() as int);
                        }
                    },
                }
                i += 1;
            }
            if ok {
                return Some(PlanOp::Init { steps });
            }
        }
    }
    let ghost no_init = init_of_json(v@) is None;
    assert(no_init);
    match v.get("ops") {
        Some(Json::Array(items)) => {
            let ghost jitems = match json_get(v@, "ops"@) {
                Some(JsonV::Array(js)) => js,
                _ => Seq::empty(),
            };
            let mut ops: Vec<LeafOp> = Vec::new();
            let mut i: usize = 0;
            while i < items.len()
                invariant
                    i <= items.len(),
                    init_of_json(v@) is None,
                    json_get(v@, "ops"@) == Some(JsonV::Array(jitems)),
                    jitems.len() == items.len(),
                    forall|k: int| 0 <= k < items.len() ==> #[trigger] jitems[k] == items@[k]@,
                    ops.len() == i,
                    leaves_of(jitems, i as int) == Some(ops@.map_values(|o: LeafOp| o@)),
                decreases items.len() - i,
            {
                match leaf_from_json(&items[i]) {
                    Some(op) => {
                        let ghost prev = ops@;
                        ops.push(op);
                        assert(ops@.map_values(|o: LeafOp| o@) =~= prev.map_values(
                            |o: LeafOp| o@,
                        ).push(ops@[i as int]@));
                    },
                    None => {
                        proof {
                            lemma_leaves_stay_none(jitems, i as int + 1, items.len() as int);
                        }
                        return None;
                    },
                }
                i += 1;
            }
            Some(PlanOp::Ops { ops })
        },
        _ => None,
    }
}

// ── Applying plan calls ───────────────────────────────────────────────────

/// The index of the first step with `id` at or after `i`, or `-1`.
pub open spec fn first_step(steps: Seq<StepV>, id: Seq<char>, i: int) -> int
    decreases steps.len() - i,
{
    if i < 0 || i >= steps.len() {
        -1
    } else if steps[i].id == id {
        i
    } else {
        first_step(steps, id, i + 1)
    }
}

/// Set the first step with `id` to `status`; a given `reason` replaces the
/// step's reason, an absent one keeps it. Unknown ids change nothing.
pub open spec fn set_status_spec(
    steps: Seq<StepV>,
    id: Seq<char>,
    status: ViewPlanStatus,
    reason: Option<Seq<char>>,
) -> Seq<StepV> {
    let k = first_step(steps, id, 0);
    if 0 <= k < steps.len() {
        steps.update(
            k,
            StepV {
                id: steps[k].id,
                content: steps[k].content,
                status,
                reason: if reason is Some {
                    reason
                } else {
                    steps[k].reason
                },
            },
        )
    } else {
        steps
    }
}

/// The largest step id that reads as a `u64`, or 0.
pub open spec fn max_step_id(steps: Seq<StepV>) -> u64
    decreases steps.len(),
{
    if steps.len() == 0 {
        0
    } else {
        let m = max_step_id(steps.drop_last());
        match parse_u64(steps.last().id) {
            Some(n) => if n > m {
                n
            } else {
                m
            },
            None => m,
        }
    }
}

/// The id an added step gets: one more than the largest numeric id (wrapping
/// at `u64::MAX`).
pub open spec fn next_step_id(steps: Seq<StepV>) -> Seq<char> {
    let m = max_step_id(steps);
    decimal(
        if m == u64::MAX {
            0nat
        } else {
            (m + 1) as nat
        },
    )
}

/// Apply one leaf op to a step list.
pub open spec fn apply_leaf_spec(steps: Seq<StepV>, op: LeafOpV) -> Seq<StepV> {
    match op {
        LeafOpV::Start { id } => set_status_spec(steps, id, ViewPlanStatus::InProgress, None),
        LeafOpV::Complete { id } => set_status_spec(steps, id, ViewPlanStatus::Completed, None),
        LeafOpV::Cancel { id, reason } => set_status_spec(
            steps,
            id,
            ViewPlanStatus::Cancelled,
            Some(reason),
        ),
        LeafOpV::Block { id, reason } => set_status_spec(
            steps,
            id,
            ViewPlanStatus::Blocked,
            Some(reason),
        ),
        LeafOpV::Add { content, after_id } => {
            let step = StepV {
                id: next_step_id(steps),
                content,
                status: ViewPlanStatus::Pending,
                reason: None,
            };
            let pos = match after_id {
                Some(a) => first_step(steps, a, 0),
                None => -1,
            };
            if 0 <= pos < steps.len() {
                steps.insert(pos + 1, step)
            } else {
                steps.push(step)
            }
        },
    }
}

/// Apply leaf ops in order.
pub open spec fn apply_leaves_spec(steps: Seq<StepV>, ops: Seq<LeafOpV>) -> Seq<StepV>
    decreases ops.len(),
{
    if ops.len() == 0 {
        steps
    } else {
        apply_leaf_spec(apply_leaves_spec(steps, ops.drop_last()), ops.last())
    }
}

/// A fresh checklist: ids "1".."N", all pending.
pub open spec fn init_steps_spec(contents: Seq<Seq<char>>) -> Seq<StepV> {
    Seq::new(
        contents.len(),
        |i: int|
            StepV {
                id: decimal((i + 1) as nat),
                content: contents[i],
                status: ViewPlanStatus::Pending,
                reason: None,
            },
    )
}

/// The index of the first step with `id`, if any.
fn find_step(steps: &Vec<ViewPlanStep>, id: &str) -> (r: Option<usize>)
    ensures
        match r {
            Some(k) => first_step(steps_view(steps@), id@, 0) == k as int && k < steps.len(),
            None => first_step(steps_view(steps@), id@, 0) == -1,
        },
{
    let ghost sv = steps_view(steps@);
    let mut i: usize = 0;
    while i < steps.len()
        invariant
            i <= steps.len(),
            sv == steps_view(steps@),
            first_step(sv, id@, 0) == first_step(sv, id@, i as int),
        decreases steps.len() - i,
    {
        if str_eq(&steps[i].id, id) {
            assert(sv[i as int] == steps@[i as int]@);
            return Some(i);
        }
        assert(sv[i as int] == steps@[i as int]@);
        i += 1;
    }
    None
}

/// Set a step's status (see [`set_status_spec`]).
pub fn set_status(
    steps: &mut Vec<ViewPlanStep>,
    id: &str,
    status: ViewPlanStatus,
    reason: Option<String>,
)
    ensures
        steps_view(final(steps)@) == set_status_spec(
            steps_view(old(steps)@),
            id@,
            status,
            opt_view(reason),
        ),
{
    if let Some(k) = find_step(steps, id) {
        let mut step = ViewPlanStep {
            id: String::new(),
            content: String::new(),
            status: ViewPlanStatus::Pending,
            reason: None,
        };
        steps.set_and_swap(k, &mut step);
        let new_reason = match reason {
            Some(r) => Some(r),
            None => step.reason,
        };
        let updated = ViewPlanStep { id: step.id, content: step.content, status, reason: new_reason };
        steps.set(k, updated);
        assert(steps_view(steps@) =~= set_status_spec(
            steps_view(old(steps)@),
            id@,
            status,
            opt_view(reason),
        ));
    }
}

/// The largest numeric step id, or 0.
fn max_id(steps: &Vec<ViewPlanStep>) -> (r: u64)
    ensures
        r == max_step_id(steps_view(steps@)),
{
    let mut m: u64 = 0;
    let mut i: usize = 0;
    while i < steps.len()
        invariant
            i <= steps.len(),
            m == max_step_id(steps_view(steps@).subrange(0, i as int)),
        decreases steps.len() - i,
    {
        let ghost pre = steps_view(steps@).subrange(0, i + 1);
        assert(pre.drop_last() =~= steps_view(steps@).subrange(0, i as int));
        assert(pre.last() == steps@[i as int]@);
        match parse_u64_exec(&steps[i].id) {
            Some(n) => {
                if n > m {
                    m = n;
                }
            },
            None => {},
        }
        i += 1;
    }
    assert(steps_view(steps@).subrange(0, steps.len() as int) =~= steps_view(steps@));
    m
}

/// Apply one leaf op (see [`apply_leaf_spec`]).
pub fn apply_leaf(steps: &mut Vec<ViewPlanStep>, op: LeafOp)
    ensures
        steps_view(final(steps)@) == apply_leaf_spec(steps_view(old(steps)@), op@),
{
    match op {
        LeafOp::Start { id } => set_status(steps, &id, ViewPlanStatus::InProgress, None),
        LeafOp::Complete { id } => set_status(steps, &id, ViewPlanStatus::Completed, None),
        LeafOp::Cancel { id, reason } => set_status(
            steps,
            &id,
            ViewPlanStatus::Cancelled,
            Some(reason),
        ),
        LeafOp::Block { id, reason } => set_status(
            steps,
            &id,
            ViewPlanStatus::Blocked,
            Some(reason),
        ),
        LeafOp::Add { content, after_id } => {
            let m = max_id(steps);
            let next: u64 = if m == u64::MAX {
                0
            } else {
                m + 1
            };
            let step = ViewPlanStep {
                id: decimal_string(next),
                content,
                status: ViewPlanStatus::Pending,
                reason: None,
            };
            let pos = match &after_id {
                Some(a) => find_step(steps, a),
                None => None,
            };
            match pos {
                Some(k) => {
                    steps.insert(k + 1, step);
                },
                None => {
                    steps.push(step);
                },
            }
            assert(steps_view(steps@) =~= apply_leaf_spec(
                steps_view(old(steps)@),
                op@,
            ));
        },
    }
}

/// Apply leaf ops in order.
pub fn apply_leaves(steps: &mut Vec<ViewPlanStep>, ops: Vec<LeafOp>)
    ensures
        steps_view(final(steps)@) == apply_leaves_spec(
            steps_view(old(steps)@),
            ops@.map_values(|o: LeafOp| o@),
        ),
{
    let ghost all = ops@.map_values(|o: LeafOp| o@);
    let ghost start = steps_view(steps@);
    let mut rest = reversed(ops);
    proof {
        assert(all.subrange(0, 0) =~= Seq::<LeafOpV>::empty());
    }
    let mut i: usize = 0;
    let n = rest.len();
    while rest.len() > 0
        invariant
            i + rest.len() == n,
            n == all.len(),
            forall|k: int| 0 <= k < rest.len() ==> #[trigger] rest@[k]@ == all[n - 1 - k],
            steps_view(steps@) == apply_leaves_spec(start, all.subrange(0, i as int)),
        decreases rest.len(),
    {
        let op = rest.pop().unwrap();
        let ghost before = steps_view(steps@);
        assert(op@ == all[i as int]);
        apply_leaf(steps, op);
        assert(all.subrange(0, i + 1).drop_last() =~= all.subrange(0, i as int));
        i += 1;
    }
    assert(all.subrange(0, n as int) =~= all);
}

/// A fresh checklist from step contents.
pub fn init_steps(contents: Vec<String>) -> (r: Vec<ViewPlanStep>)
    ensures
        steps_view(r@) == init_steps_spec(contents@.map_values(|s: String| s@)),
{
    let ghost cv = contents@.map_values(|s: String| s@);
    let mut out: Vec<ViewPlanStep> = Vec::new();
    let mut rest = reversed(contents);
    let n = rest.len();
    let mut i: usize = 0;
    while rest.len() > 0
        invariant
            i + rest.len() == n,
            n == cv.len(),
            forall|k: int| 0 <= k < rest.len() ==> #[trigger] rest@[k]@ == cv[n - 1 - k],
            out.len() == i,
            steps_view(out@) =~= init_steps_spec(cv).subrange(0, i as int),
        decreases rest.len(),
    {
        let ghost before = rest@;
        let c = rest.pop().unwrap();
        assert(c@ == cv[i as int]) by {
            assert(c == before[before.len() - 1]);
        }
        out.push(ViewPlanStep {
            id: decimal_string((i + 1) as u64),
            content: c,
            status: ViewPlanStatus::Pending,
            reason: None,
        });
        assert(steps_view(out@)[i as int] == init_steps_spec(cv)[i as int]);
        assert(steps_view(out@) =~= init_steps_spec(cv).subrange(0, i + 1));
        i += 1;
    }
    assert(init_steps_spec(cv).subrange(0, n as int) =~= init_steps_spec(cv));
    out
}

proof fn lemma_step_contents_stay_none(items: Seq<JsonV>, a: int, b: int)
    requires
        0 < a <= b <= items.len(),
        step_contents_of(items, a) is None,
    ensures
        step_contents_of(items, b) is None,
    decreases b - a,
{
    if a < b {
        lemma_step_contents_stay_none(items, a, b - 1);
    }
}

proof fn lemma_leaves_stay_none(items: Seq<JsonV>, a: int, b: int)
    requires
        0 < a <= b <= items.len(),
        leaves_of(items, a) is None,
    ensures
        leaves_of(items, b) is None,
    decreases b - a,
{
    if a < b {
        lemma_leaves_stay_none(items, a, b - 1);
    }
}

proof fn lemma_first_step_is_first_match(steps: Seq<StepV>, id: Seq<char>, i: int, k: int)
    requires
        0 <= i <= k < steps.len(),
        steps[k].id == id,
        forall|j: int| i <= j < k ==> (#[trigger] steps[j]).id != id,
    ensures
        first_step(steps, id, i) == k,
    decreases k - i,
{
    if i < k {
        lemma_first_step_is_first_match(steps, id, i + 1, k);
    }
}

proof fn lemma_first_step_absent(steps: Seq<StepV>, id: Seq<char>, i: int)
    requires
        0 <= i,
        forall|j: int| i <= j < steps.len() ==> (#[trigger] steps[j]).id != id,
    ensures
        first_step(steps, id, i) == -1,
    decreases steps.len() - i,
{
    if i < steps.len() {
        lemma_first_step_absent(steps, id, i + 1);
    }
}

/// Adding a step after an existing anchor puts the new step right behind
/// the anchor's first occurrence: the steps up to and including the anchor
/// keep their places, the new pending step (with the next free id and the
/// given content) comes next, and every later step moves down by one.
pub proof fn law_add_after_anchor_lands_right_behind_it(
    steps: Seq<StepV>,
    content: Seq<char>,
    anchor: Seq<char>,
    k: int,
)
    requires
        0 <= k < steps.len(),
        steps[k].id == anchor,
        forall|j: int| 0 <= j < k ==> (#[trigger] steps[j]).id != anchor,
    ensures
        ({
            let r = apply_leaf_spec(steps, LeafOpV::Add { content, after_id: Some(anchor) });
            &&& r.len() == steps.len() + 1
            &&& forall|j: int| 0 <= j <= k ==> #[trigger] r[j] == steps[j]
            &&& r[k + 1].content == content
            &&& r[k + 1].id == next_step_id(steps)
            &&& r[k + 1].status == ViewPlanStatus::Pending
            &&& r[k + 1].reason is None
            &&& forall|j: int| k < j < steps.len() ==> #[trigger] r[j + 1] == steps[j]
        }),
{
    lemma_first_step_is_first_match(steps, anchor, 0, k);
}

/// Adding a step with no anchor, or with an anchor no step has, appends it:
/// every existing step keeps its place and the new pending step comes last.
pub proof fn law_add_without_known_anchor_appends(
    steps: Seq<StepV>,
    content: Seq<char>,
    after_id: Option<Seq<char>>,
)
    requires
        after_id matches Some(a) ==> forall|j: int| 0 <= j < steps.len() ==> (#[trigger] steps[j]).id != a,
    ensures
        ({
            let r = apply_leaf_spec(steps, LeafOpV::Add { content, after_id });
            &&& r.len() == steps.len() + 1
            &&& forall|j: int| 0 <= j < steps.len() ==> #[trigger] r[j] == steps[j]
            &&& r[steps.len() as int].content == content
            &&& r[steps.len() as int].id == next_step_id(steps)
            &&& r[steps.len() as int].status == ViewPlanStatus::Pending
            &&& r[steps.len() as int].reason is None
        }),
{
    if let Some(a) = after_id {
        lemma_first_step_absent(steps, a, 0);
    }
}

/// A status edit touches only the first step with its id: that step keeps
/// its id and content and takes the new status (`start` in progress,
/// `complete` completed, `cancel` cancelled, `block` blocked); a cancel or
/// block replaces its reason, a start or complete keeps it; every other step
/// is unchanged.
pub proof fn law_status_edit_touches_only_the_first_match(
    steps: Seq<StepV>,
    id: Seq<char>,
    reason: Seq<char>,
    k: int,
)
    requires
        0 <= k < steps.len(),
        steps[k].id == id,
        forall|j: int| 0 <= j < k ==> (#[trigger] steps[j]).id != id,
    ensures
        ({
            let start = apply_leaf_spec(steps, LeafOpV::Start { id });
            let complete = apply_leaf_spec(steps, LeafOpV::Complete { id });
            let cancel = apply_leaf_spec(steps, LeafOpV::Cancel { id, reason });
            let block = apply_leaf_spec(steps, LeafOpV::Block { id, reason });
            &&& start.len() == steps.len() && complete.len() == steps.len()
            &&& cancel.len() == steps.len() && block.len() == steps.len()
            &&& forall|j: int|
                0 <= j < steps.len() && j != k ==> #[trigger] start[j] == steps[j] && complete[j] == steps[j]
                    && cancel[j] == steps[j] && block[j] == steps[j]
            &&& start[k] == StepV { status: ViewPlanStatus::InProgress, ..steps[k] }
            &&& complete[k] == StepV { status: ViewPlanStatus::Completed, ..steps[k] }
            &&& cancel[k] == StepV { status: ViewPlanStatus::Cancelled, reason: Some(reason), ..steps[k] }
            &&& block[k] == StepV { status: ViewPlanStatus::Blocked, reason: Some(reason), ..steps[k] }
        }),
{
    lemma_first_step_is_first_match(steps, id, 0, k);
}

/// A status edit naming no step changes nothing.
pub proof fn law_status_edit_of_unknown_id_changes_nothing(steps: Seq<StepV>, id: Seq<char>, reason: Seq<char>)
    requires
        forall|j: int| 0 <= j < steps.len() ==> (#[trigger] steps[j]).id != id,
    ensures
        apply_leaf_spec(steps, LeafOpV::Start { id }) == steps,
        apply_leaf_spec(steps, LeafOpV::Complete { id }) == steps,
        apply_leaf_spec(steps, LeafOpV::Cancel { id, reason }) == steps,
        apply_leaf_spec(steps, LeafOpV::Block { id, reason }) == steps,
{
    lemma_first_step_absent(steps, id, 0);
}

/// The id base for added steps is the largest numeric step id: no step's
/// numeric id exceeds it, and unless it is 0 some step carries it.
pub proof fn law_max_step_id_is_the_largest_numeric_id(steps: Seq<StepV>)
    ensures
        forall|j: int|
            0 <= j < steps.len() && (#[trigger] parse_u64(steps[j].id)) is Some ==> parse_u64(steps[j].id)->0
                <= max_step_id(steps),
        max_step_id(steps) > 0 ==> exists|j: int|
            0 <= j < steps.len() && #[trigger] parse_u64(steps[j].id) == Some(max_step_id(steps)),
    decreases steps.len(),
{
    if steps.len() > 0 {
        let t = steps.drop_last();
        law_max_step_id_is_the_largest_numeric_id(t);
        assert forall|j: int|
            0 <= j < steps.len() && (#[trigger] parse_u64(steps[j].id)) is Some implies parse_u64(steps[j].id)->0
                <= max_step_id(steps) by {
            if j < t.len() {
                assert(steps[j] == t[j]);
            }
        }
        if max_step_id(steps) > 0 {
            if max_step_id(steps) == max_step_id(t) {
                let j = choose|j: int| 0 <= j < t.len() && #[trigger] parse_u64(t[j].id) == Some(max_step_id(t));
                assert(steps[j] == t[j]);
            } else {
                assert(parse_u64(steps[steps.len() - 1].id) == Some(max_step_id(steps)));
            }
        }
    }
}

} // verus!
