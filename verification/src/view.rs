//! The conversation view fold: committed events → render-ready view items.
//!
//! The fold keeps only what the conversation view renders (user turns,
//! assistant text and reasoning, tool calls with their results, plan cards,
//! errors) and resolves the pairings the view needs (tool call ↔ result,
//! permission ask ↔ card). Everything else is skipped.

use vstd::prelude::*;
use vstd::hash_map::{HashMapWithView, StringHashMap};

use crate::event::{
    BlockContent, Content, Event, ModelEvent, Payload, PermissionEvent, ToolEvent, TurnEvent,
};
use crate::json::{Json, JsonV, json_text_value, parse_json};
use crate::permission::{clone_opt, opt_view};
use crate::plan::{
    PlanOp, PlanOpV, StepV, ViewPlanStep, apply_leaves, apply_leaves_spec, init_steps,
    init_steps_spec, plan_from_json, plan_of_json, steps_view,
};
use crate::text::{append_chars, is_blank, owned, str_eq, str_is_blank, string_of};

verus! {

broadcast use {
    vstd::std_specs::vec::group_vec_axioms,
    vstd::std_specs::hash::group_hash_axioms,
};

/// Settled status of a folded tool card (`Running` = the result never
/// committed, e.g. the turn was cancelled mid-call).
#[derive(Debug, Clone, Copy, PartialEq, Eq, Structural)]
pub enum ViewToolStatus {
    Running,
    Done,
    Error,
}

/// One row of the rendered conversation.
#[derive(Debug, Clone, PartialEq, Eq)]
pub enum ViewItem {
    /// A user turn; `seq` is the turn-start event's seq (the fork point).
    User { id: u64, text: String, seq: u64 },
    /// Assistant free text.
    Text { id: u64, text: String },
    /// Assistant reasoning text.
    Reasoning { id: u64, text: String },
    /// A tool call card.
    Tool {
        id: u64,
        seq: u64,
        name: String,
        args: String,
        status: ViewToolStatus,
        summary: Option<String>,
        result: Option<String>,
        diagnostics: Option<String>,
        error_code: Option<String>,
        call_id: Option<String>,
        approval_pending: bool,
        view: Option<String>,
        preview: Option<String>,
    },
    /// A plan checklist (one card per `init`; later ops mutate it in place).
    Plan { id: u64, steps: Vec<ViewPlanStep> },
    /// A committed error.
    Error { id: u64, message: String },
}

/// The mathematical form of a tool card.
pub struct ToolCardV {
    pub id: u64,
    pub seq: u64,
    pub name: Seq<char>,
    pub args: Seq<char>,
    pub status: ViewToolStatus,
    pub summary: Option<Seq<char>>,
    pub result: Option<Seq<char>>,
    pub diagnostics: Option<Seq<char>>,
    pub error_code: Option<Seq<char>>,
    pub call_id: Option<Seq<char>>,
    pub approval_pending: bool,
    pub view: Option<Seq<char>>,
    pub preview: Option<Seq<char>>,
}

/// The mathematical form of a [`ViewItem`].
pub enum ItemV {
    User { id: u64, text: Seq<char>, seq: u64 },
    Text { id: u64, text: Seq<char> },
    Reasoning { id: u64, text: Seq<char> },
    Tool(ToolCardV),
    Plan { id: u64, steps: Seq<StepV> },
    Error { id: u64, message: Seq<char> },
}

impl View for ViewItem {
    type V = ItemV;

    open spec fn view(&self) -> ItemV {
        match self {
            ViewItem::User { id, text, seq } => ItemV::User { id: *id, text: text@, seq: *seq },
            ViewItem::Text { id, text } => ItemV::Text { id: *id, text: text@ },
            ViewItem::Reasoning { id, text } => ItemV::Reasoning { id: *id, text: text@ },
            ViewItem::Tool {
                id,
                seq,
                name,
                args,
                status,
                summary,
                result,
                diagnostics,
                error_code,
                call_id,
                approval_pending,
                view,
                preview,
            } => ItemV::Tool(
                ToolCardV {
                    id: *id,
                    seq: *seq,
                    name: name@,
                    args: args@,
                    status: *status,
                    summary: opt_view(*summary),
                    result: opt_view(*result),
                    diagnostics: opt_view(*diagnostics),
                    error_code: opt_view(*error_code),
                    call_id: opt_view(*call_id),
                    approval_pending: *approval_pending,
                    view: opt_view(*view),
                    preview: opt_view(*preview),
                },
            ),
            ViewItem::Plan { id, steps } => ItemV::Plan { id: *id, steps: steps_view(steps@) },
            ViewItem::Error { id, message } => ItemV::Error { id: *id, message: message@ },
        }
    }
}

/// The views of a list of items.
pub open spec fn items_view(v: Seq<ViewItem>) -> Seq<ItemV> {
    v.map_values(|i: ViewItem| i@)
}

/// The folded conversation view for one session.
#[derive(Debug, Clone, PartialEq, Eq)]
pub struct SessionView {
    /// The render-ready items.
    pub items: Vec<ViewItem>,
    /// The highest committed seq folded (`None` for an empty log).
    pub last_seq: Option<u64>,
    /// Whether a turn is running at the fold point.
    pub turn_running: bool,
    /// Every distinct model a request started with, in first-seen order.
    pub runtime_models: Vec<String>,
}

/// The mathematical form of a [`SessionView`].
pub struct SessionViewV {
    pub items: Seq<ItemV>,
    pub last_seq: Option<u64>,
    pub turn_running: bool,
    pub runtime_models: Seq<Seq<char>>,
}

impl View for SessionView {
    type V = SessionViewV;

    open spec fn view(&self) -> SessionViewV {
        SessionViewV {
            items: items_view(self.items@),
            last_seq: self.last_seq,
            turn_running: self.turn_running,
            runtime_models: self.runtime_models@.map_values(|m: String| m@),
        }
    }
}

// ── The fold, stated ──────────────────────────────────────────────────────

/// The fold's running state: the items so far, the tool-card indices by call
/// block seq and by call id, the permission asks that arrived before their
/// call block (call id → preview), and the derived view state.
pub struct FoldV {
    pub items: Seq<ItemV>,
    pub by_seq: Map<u64, usize>,
    pub by_call: Map<Seq<char>, usize>,
    pub asks: Map<Seq<char>, Option<String>>,
    pub last_seq: Option<u64>,
    pub turn_running: bool,
    pub models: Seq<Seq<char>>,
}

/// The state before any event.
pub open spec fn fold_start() -> FoldV {
    FoldV {
        items: Seq::empty(),
        by_seq: Map::empty(),
        by_call: Map::empty(),
        asks: Map::empty(),
        last_seq: None,
        turn_running: false,
        models: Seq::empty(),
    }
}

/// A tool card with its approval prompt cleared.
pub open spec fn disarm(item: ItemV) -> ItemV {
    match item {
        ItemV::Tool(c) => ItemV::Tool(ToolCardV { approval_pending: false, ..c }),
        _ => item,
    }
}

/// Every tool card's approval prompt cleared.
pub open spec fn disarm_all(items: Seq<ItemV>) -> Seq<ItemV> {
    items.map_values(|i: ItemV| disarm(i))
}

/// Clear the prompt of the card at `k` (if it is a card).
pub open spec fn disarm_at(items: Seq<ItemV>, k: int) -> Seq<ItemV> {
    if 0 <= k < items.len() {
        items.update(k, disarm(items[k]))
    } else {
        items
    }
}

/// Raise the prompt of the card at `k`, showing `preview`.
pub open spec fn arm_at(items: Seq<ItemV>, k: int, preview: Option<Seq<char>>) -> Seq<ItemV> {
    if 0 <= k < items.len() && items[k] is Tool {
        items.update(
            k,
            ItemV::Tool(ToolCardV { approval_pending: true, preview, ..items[k]->Tool_0 }),
        )
    } else {
        items
    }
}

/// The parts of `s` joined together.
pub open spec fn concat_all(s: Seq<Seq<char>>) -> Seq<char>
    decreases s.len(),
{
    if s.len() == 0 {
        Seq::empty()
    } else {
        concat_all(s.drop_last()) + s.last()
    }
}

/// The text pieces of a tool result: each `Text` block, and `"[binary]"` for
/// every block that is neither text nor a view for the conversation.
pub open spec fn outcome_texts(cs: Seq<Content>) -> Seq<Seq<char>>
    decreases cs.len(),
{
    if cs.len() == 0 {
        Seq::empty()
    } else {
        let prev = outcome_texts(cs.drop_last());
        match cs.last() {
            Content::Text(t) => prev.push(t@),
            Content::TextView { text, audience } => if audience@ == "ui"@ {
                prev
            } else {
                prev.push("[binary]"@)
            },
            Content::Binary => prev.push("[binary]"@),
        }
    }
}

/// The last text addressed to the conversation view (audience `"ui"`).
pub open spec fn ui_view_of(cs: Seq<Content>) -> Option<Seq<char>>
    decreases cs.len(),
{
    if cs.len() == 0 {
        None
    } else {
        match cs.last() {
            Content::TextView { text, audience } => if audience@ == "ui"@ {
                Some(text@)
            } else {
                ui_view_of(cs.drop_last())
            },
            _ => ui_view_of(cs.drop_last()),
        }
    }
}

/// Whether a tool is one of the built-in file tools, whose trailing text
/// blocks are diagnostics.
pub open spec fn is_file_tool(name: Seq<char>) -> bool {
    name == "read"@ || name == "write"@ || name == "edit"@
}

/// Settle the card at `k`: status, result text (file tools split trailing
/// pieces off as diagnostics), the view (or the approval preview when the
/// result carries none) and the error code.
pub open spec fn apply_outcome_spec(
    items: Seq<ItemV>,
    k: int,
    status: ViewToolStatus,
    texts: Seq<Seq<char>>,
    ui: Option<Seq<char>>,
    error_code: Option<Seq<char>>,
) -> Seq<ItemV> {
    if 0 <= k < items.len() && items[k] is Tool {
        let c = items[k]->Tool_0;
        let split = is_file_tool(c.name) && texts.len() > 1;
        items.update(
            k,
            ItemV::Tool(
                ToolCardV {
                    status,
                    result: Some(
                        if split {
                            texts[0]
                        } else {
                            concat_all(texts)
                        },
                    ),
                    diagnostics: if split {
                        Some(concat_all(texts.drop_first()))
                    } else {
                        None
                    },
                    view: if ui is Some {
                        ui
                    } else {
                        c.preview
                    },
                    error_code,
                    ..c
                },
            ),
        )
    } else {
        items
    }
}

/// The index of the last plan card among the first `n` items, or `-1`.
pub open spec fn last_plan(items: Seq<ItemV>, n: int) -> int
    decreases n,
{
    if n <= 0 || n > items.len() {
        -1
    } else if items[n - 1] is Plan {
        n - 1
    } else {
        last_plan(items, n - 1)
    }
}

/// Fold a `plan` call's parsed arguments: `init` pushes a fresh card, `ops`
/// edit the latest card, anything malformed is a no-op.
pub open spec fn plan_step_spec(items: Seq<ItemV>, seq: u64, parsed: Option<JsonV>) -> Seq<ItemV> {
    match parsed {
        Some(v) => match plan_of_json(v) {
            Some(PlanOpV::Init { steps }) => items.push(
                ItemV::Plan { id: seq, steps: init_steps_spec(steps) },
            ),
            Some(PlanOpV::Ops { ops }) => {
                let k = last_plan(items, items.len() as int);
                if 0 <= k {
                    items.update(
                        k,
                        ItemV::Plan {
                            id: items[k]->Plan_id,
                            steps: apply_leaves_spec(items[k]->Plan_steps, ops),
                        },
                    )
                } else {
                    items
                }
            },
            None => items,
        },
        None => items,
    }
}

/// Fold one committed content block.
pub open spec fn block_step(s: FoldV, seq: u64, content: BlockContent) -> FoldV {
    match content {
        BlockContent::Text { text } => if is_blank(text@) {
            s
        } else {
            FoldV { items: s.items.push(ItemV::Text { id: seq, text: text@ }), ..s }
        },
        BlockContent::Reasoning { text } => if is_blank(text@) {
            s
        } else {
            FoldV { items: s.items.push(ItemV::Reasoning { id: seq, text: text@ }), ..s }
        },
        BlockContent::ToolCall { id, name, arguments, summary } => if name@ == "plan"@ {
            FoldV { items: plan_step_spec(s.items, seq, json_text_value(arguments@)), ..s }
        } else {
            let pending = s.asks.contains_key(id@);
            let k = s.items.len() as usize;
            FoldV {
                items: s.items.push(
                    ItemV::Tool(
                        ToolCardV {
                            id: seq,
                            seq,
                            name: name@,
                            args: arguments@,
                            status: ViewToolStatus::Running,
                            summary: opt_view(summary),
                            result: None,
                            diagnostics: None,
                            error_code: None,
                            call_id: Some(id@),
                            approval_pending: pending,
                            view: None,
                            preview: if pending {
                                opt_view(s.asks[id@])
                            } else {
                                None
                            },
                        },
                    ),
                ),
                by_seq: s.by_seq.insert(seq, k),
                by_call: s.by_call.insert(id@, k),
                asks: s.asks.remove(id@),
                ..s
            }
        },
    }
}

/// Whether a turn event ends the turn.
pub open spec fn ends_turn(t: TurnEvent) -> bool {
    t is Completed || t is Failed || t is Interrupted
}

/// Fold one turn lifecycle event: a started turn with input adds the user's
/// row; started/resumed turns run, the rest stop; a turn ending disarms every
/// pending approval prompt.
pub open spec fn turn_step(s: FoldV, seq: u64, t: TurnEvent) -> FoldV {
    let items = match t {
        TurnEvent::Started { input: Some(text), .. } => s.items.push(
            ItemV::User { id: seq, text: text@, seq },
        ),
        _ => s.items,
    };
    FoldV {
        items: if ends_turn(t) {
            disarm_all(items)
        } else {
            items
        },
        turn_running: t is Started || t is Resumed,
        ..s
    }
}

/// Fold one committed event.
pub open spec fn fold_event(s0: FoldV, e: Event) -> FoldV {
    let s = FoldV { last_seq: Some(e.seq), ..s0 };
    match e.payload {
        Payload::Turn(t) => turn_step(s, e.seq, t),
        Payload::Model(ModelEvent::RequestStarted { model, .. }) => if s.models.contains(model@) {
            s
        } else {
            FoldV { models: s.models.push(model@), ..s }
        },
        Payload::Model(ModelEvent::ContentBlock { content }) => block_step(s, e.seq, content),
        Payload::Tool(ToolEvent::Completed { call_seq, result }) => if s.by_seq.contains_key(
            call_seq,
        ) {
            FoldV {
                items: apply_outcome_spec(
                    s.items,
                    s.by_seq[call_seq] as int,
                    if result.is_error {
                        ViewToolStatus::Error
                    } else {
                        ViewToolStatus::Done
                    },
                    outcome_texts(result.content@),
                    ui_view_of(result.content@),
                    opt_view(result.error_code),
                ),
                ..s
            }
        } else {
            s
        },
        Payload::Tool(ToolEvent::Failed { call_seq, error }) => if s.by_seq.contains_key(call_seq) {
            FoldV {
                items: apply_outcome_spec(
                    s.items,
                    s.by_seq[call_seq] as int,
                    ViewToolStatus::Error,
                    seq![error.message@],
                    None,
                    None,
                ),
                ..s
            }
        } else {
            s
        },
        Payload::Permission(PermissionEvent::Requested { call_id, preview, .. }) => if s.by_call.contains_key(
            call_id@,
        ) {
            FoldV { items: arm_at(s.items, s.by_call[call_id@] as int, opt_view(preview)), ..s }
        } else {
            FoldV { asks: s.asks.insert(call_id@, preview), ..s }
        },
        Payload::Permission(PermissionEvent::Decided { call_id }) => if s.by_call.contains_key(
            call_id@,
        ) {
            FoldV { items: disarm_at(s.items, s.by_call[call_id@] as int), ..s }
        } else {
            s
        },
        Payload::Error(detail) => FoldV {
            items: s.items.push(ItemV::Error { id: e.seq, message: detail.message@ }),
            ..s
        },
        _ => s,
    }
}

/// The state after folding the first `n` events.
pub open spec fn fold_prefix(events: Seq<Event>, n: int) -> FoldV
    decreases n,
{
    if n <= 0 || n > events.len() {
        fold_start()
    } else {
        fold_event(fold_prefix(events, n - 1), events[n - 1])
    }
}

/// The conversation view of a whole event log.
pub open spec fn folded_view(events: Seq<Event>) -> SessionViewV {
    let s = fold_prefix(events, events.len() as int);
    SessionViewV {
        items: s.items,
        last_seq: s.last_seq,
        turn_running: s.turn_running,
        runtime_models: s.models,
    }
}


// ── The fold, implemented ─────────────────────────────────────────────────

/// An empty error row, swapped in while an item is taken out for editing.
fn placeholder() -> (r: ViewItem)
    ensures
        r@ == (ItemV::Error { id: 0, message: Seq::<char>::empty() }),
{
    let r = ViewItem::Error { id: 0, message: String::new() };
    assert(r@ =~= (ItemV::Error { id: 0, message: Seq::<char>::empty() }));
    r
}

/// `it` with its approval prompt cleared.
fn disarm_item(it: ViewItem) -> (r: ViewItem)
    ensures
        r@ == disarm(it@),
{
    match it {
        ViewItem::Tool {
            id,
            seq,
            name,
            args,
            status,
            summary,
            result,
            diagnostics,
            error_code,
            call_id,
            approval_pending: _,
            view,
            preview,
        } => ViewItem::Tool {
            id,
            seq,
            name,
            args,
            status,
            summary,
            result,
            diagnostics,
            error_code,
            call_id,
            approval_pending: false,
            view,
            preview,
        },
        other => other,
    }
}

/// Clear the prompt of the card at `k`.
fn disarm_item_at(items: &mut Vec<ViewItem>, k: usize)
    ensures
        items_view(final(items)@) == disarm_at(items_view(old(items)@), k as int),
{
    if k < items.len() {
        let mut it = placeholder();
        items.set_and_swap(k, &mut it);
        items.set(k, disarm_item(it));
        assert(items_view(items@) =~= disarm_at(items_view(old(items)@), k as int));
    }
}

/// Clear every card's prompt.
fn disarm_every_item(items: &mut Vec<ViewItem>)
    ensures
        items_view(final(items)@) == disarm_all(items_view(old(items)@)),
{
    let ghost start = items_view(items@);
    let mut i: usize = 0;
    while i < items.len()
        invariant
            i <= items.len(),
            items.len() == start.len(),
            forall|j: int| 0 <= j < i ==> #[trigger] items@[j]@ == disarm(start[j]),
            forall|j: int| i <= j < items.len() ==> #[trigger] items@[j]@ == start[j],
        decreases items.len() - i,
    {
        let mut it = placeholder();
        items.set_and_swap(i, &mut it);
        items.set(i, disarm_item(it));
        i += 1;
    }
    assert(items_view(items@) =~= disarm_all(start));
}

/// Raise the prompt of the card at `k`, showing `preview`.
fn arm_item_at(items: &mut Vec<ViewItem>, k: usize, preview: Option<String>)
    ensures
        items_view(final(items)@) == arm_at(items_view(old(items)@), k as int, opt_view(preview)),
{
    if k < items.len() {
        let mut it = placeholder();
        items.set_and_swap(k, &mut it);
        let armed = match it {
            ViewItem::Tool {
                id,
                seq,
                name,
                args,
                status,
                summary,
                result,
                diagnostics,
                error_code,
                call_id,
                approval_pending: _,
                view,
                preview: _,
            } => ViewItem::Tool {
                id,
                seq,
                name,
                args,
                status,
                summary,
                result,
                diagnostics,
                error_code,
                call_id,
                approval_pending: true,
                view,
                preview,
            },
            other => other,
        };
        items.set(k, armed);
        assert(items_view(items@) =~= arm_at(
            items_view(old(items)@),
            k as int,
            opt_view(preview),
        ));
    }
}

/// The text pieces and conversation view of a tool result.
fn outcome_parts(cs: &Vec<Content>) -> (r: (Vec<String>, Option<String>))
    ensures
        r.0@.map_values(|t: String| t@) == outcome_texts(cs@),
        opt_view(r.1) == ui_view_of(cs@),
{
    proof {
        reveal_strlit("ui");
        reveal_strlit("[binary]");
    }
    let mut texts: Vec<String> = Vec::new();
    let mut ui: Option<String> = None;
    let mut i: usize = 0;
    assert(cs@.subrange(0, 0) =~= Seq::<Content>::empty());
    while i < cs.len()
        invariant
            i <= cs.len(),
            texts@.map_values(|t: String| t@) == outcome_texts(cs@.subrange(0, i as int)),
            opt_view(ui) == ui_view_of(cs@.subrange(0, i as int)),
        decreases cs.len() - i,
    {
        let ghost pre = cs@.subrange(0, i + 1);
        assert(pre.drop_last() =~= cs@.subrange(0, i as int));
        assert(pre.last() == cs@[i as int]);
        let ghost before = texts@;
        match &cs[i] {
            Content::Text(t) => {
                texts.push(t.clone());
            },
            Content::TextView { text, audience } => {
                if str_eq(audience, "ui") {
                    ui = Some(text.clone());
                } else {
                    texts.push(owned("[binary]"));
                }
            },
            Content::Binary => {
                texts.push(owned("[binary]"));
            },
        }
        assert(texts@.map_values(|t: String| t@) =~= outcome_texts(pre));
        i += 1;
    }
    assert(cs@.subrange(0, cs.len() as int) =~= cs@);
    (texts, ui)
}

/// The pieces `parts[from..]` joined.
fn concat_from(parts: &Vec<String>, from: usize) -> (r: String)
    requires
        from <= parts.len(),
    ensures
        r@ == concat_all(parts@.map_values(|t: String| t@).subrange(from as int, parts.len() as int)),
{
    let ghost sv = parts@.map_values(|t: String| t@);
    let mut acc: Vec<char> = Vec::new();
    let mut i: usize = from;
    assert(sv.subrange(from as int, from as int) =~= Seq::<Seq<char>>::empty());
    while i < parts.len()
        invariant
            from <= i <= parts.len(),
            sv == parts@.map_values(|t: String| t@),
            acc@ == concat_all(sv.subrange(from as int, i as int)),
        decreases parts.len() - i,
    {
        let ghost pre = sv.subrange(from as int, i + 1);
        assert(pre.drop_last() =~= sv.subrange(from as int, i as int));
        append_chars(&mut acc, &parts[i]);
        i += 1;
    }
    string_of(&acc)
}

/// Whether `name` is one of the built-in file tools.
fn file_tool(name: &str) -> (r: bool)
    ensures
        r == is_file_tool(name@),
{
    str_eq(name, "read") || str_eq(name, "write") || str_eq(name, "edit")
}

/// Settle the card at `k` (see [`apply_outcome_spec`]).
fn apply_outcome(
    items: &mut Vec<ViewItem>,
    k: usize,
    new_status: ViewToolStatus,
    texts: Vec<String>,
    ui: Option<String>,
    new_error_code: Option<String>,
)
    ensures
        items_view(final(items)@) == apply_outcome_spec(
            items_view(old(items)@),
            k as int,
            new_status,
            texts@.map_values(|t: String| t@),
            opt_view(ui),
            opt_view(new_error_code),
        ),
{
    if k >= items.len() {
        return;
    }
    let ghost tv = texts@.map_values(|t: String| t@);
    let mut it = placeholder();
    items.set_and_swap(k, &mut it);
    let settled = match it {
        ViewItem::Tool {
            id,
            seq,
            name,
            args,
            status: _,
            summary,
            result: _,
            diagnostics: _,
            error_code: _,
            call_id,
            approval_pending,
            view: _,
            preview,
        } => {
            let split = file_tool(&name) && texts.len() > 1;
            let (text, diag) = if split {
                assert(tv.drop_first() =~= tv.subrange(1, tv.len() as int));
                (texts[0].clone(), Some(concat_from(&texts, 1)))
            } else {
                assert(tv =~= tv.subrange(0, tv.len() as int));
                (concat_from(&texts, 0), None)
            };
            let shown = match ui {
                Some(u) => Some(u),
                None => clone_opt(&preview),
            };
            ViewItem::Tool {
                id,
                seq,
                name,
                args,
                status: new_status,
                summary,
                result: Some(text),
                diagnostics: diag,
                error_code: new_error_code,
                call_id,
                approval_pending,
                view: shown,
                preview,
            }
        },
        other => other,
    };
    items.set(k, settled);
    assert(items_view(items@) =~= apply_outcome_spec(
        items_view(old(items)@),
        k as int,
        new_status,
        tv,
        opt_view(ui),
        opt_view(new_error_code),
    ));
}

/// The index of the latest plan card, if any.
fn find_last_plan(items: &Vec<ViewItem>) -> (r: Option<usize>)
    ensures
        match r {
            Some(k) => last_plan(items_view(items@), items.len() as int) == k as int && k
                < items.len() && items@[k as int] is Plan,
            None => last_plan(items_view(items@), items.len() as int) == -1,
        },
{
    let ghost iv = items_view(items@);
    let mut i: usize = items.len();
    while i > 0
        invariant
            i <= items.len(),
            iv == items_view(items@),
            last_plan(iv, items.len() as int) == last_plan(iv, i as int),
        decreases i,
    {
        if let ViewItem::Plan { .. } = &items[i - 1] {
            assert(iv[i - 1] is Plan);
            return Some(i - 1);
        }
        assert(!(iv[i - 1] is Plan));
        i -= 1;
    }
    None
}

/// Fold a `plan` call's already-parsed arguments into the items: `init` pushes
/// a fresh card, `ops` edit the latest card, anything else changes nothing.
pub fn apply_plan_value(items: &mut Vec<ViewItem>, seq: u64, parsed: &Option<Json>)
    ensures
        items_view(final(items)@) == plan_step_spec(
            items_view(old(items)@),
            seq,
            match parsed {
                Some(j) => Some(j@),
                None => None,
            },
        ),
{
    let v = match parsed {
        Some(v) => v,
        None => return,
    };
    match plan_from_json(v) {
        Some(PlanOp::Init { steps }) => {
            let card = ViewItem::Plan { id: seq, steps: init_steps(steps) };
            items.push(card);
            assert(items_view(items@) =~= items_view(old(items)@).push(card@));
        },
        Some(PlanOp::Ops { ops }) => {
            if let Some(k) = find_last_plan(items) {
                let mut it = placeholder();
                items.set_and_swap(k, &mut it);
                assert(it is Plan);
                let edited = match it {
                    ViewItem::Plan { id, steps } => {
                        let mut steps = steps;
                        apply_leaves(&mut steps, ops);
                        ViewItem::Plan { id, steps }
                    },
                    other => other,
                };
                items.set(k, edited);
                assert(items_view(items@) =~= plan_step_spec(
                    items_view(old(items)@),
                    seq,
                    Some(v@),
                ));
            }
        },
        None => {},
    }
}

/// The fold's running state.
struct FoldState {
    items: Vec<ViewItem>,
    by_seq: HashMapWithView<u64, usize>,
    by_call: StringHashMap<usize>,
    asks: StringHashMap<Option<String>>,
    last_seq: Option<u64>,
    turn_running: bool,
    models: Vec<String>,
}

impl FoldState {
    closed spec fn view_of(&self) -> FoldV {
        FoldV {
            items: items_view(self.items@),
            by_seq: self.by_seq@,
            by_call: self.by_call@,
            asks: self.asks@,
            last_seq: self.last_seq,
            turn_running: self.turn_running,
            models: self.models@.map_values(|m: String| m@),
        }
    }
}

/// Whether `models` already lists `m`.
fn lists_model(models: &Vec<String>, m: &String) -> (r: bool)
    ensures
        r == models@.map_values(|x: String| x@).contains(m@),
{
    let ghost mv = models@.map_values(|x: String| x@);
    let mut i: usize = 0;
    while i < models.len()
        invariant
            i <= models.len(),
            mv == models@.map_values(|x: String| x@),
            forall|j: int| 0 <= j < i ==> #[trigger] mv[j] != m@,
        decreases models.len() - i,
    {
        if models[i] == *m {
            assert(mv[i as int] == m@);
            return true;
        }
        i += 1;
    }
    false
}

/// Fold one committed content block (see [`block_step`]).
fn fold_block(st: &mut FoldState, seq: u64, content: &BlockContent)
    ensures
        final(st).view_of() == block_step(old(st).view_of(), seq, *content),
{
    proof {
        reveal_strlit("plan");
    }
    match content {
        BlockContent::Text { text } => {
            if !str_is_blank(text) {
                let item = ViewItem::Text { id: seq, text: text.clone() };
                st.items.push(item);
                assert(items_view(st.items@) =~= items_view(old(st).items@).push(item@));
            }
        },
        BlockContent::Reasoning { text } => {
            if !str_is_blank(text) {
                let item = ViewItem::Reasoning { id: seq, text: text.clone() };
                st.items.push(item);
                assert(items_view(st.items@) =~= items_view(old(st).items@).push(item@));
            }
        },
        BlockContent::ToolCall { id, name, arguments, summary } => {
            if str_eq(name, "plan") {
                let parsed = parse_json(arguments);
                apply_plan_value(&mut st.items, seq, &parsed);
                return;
            }
            let pending = st.asks.contains_key(id);
            let preview = if pending {
                match st.asks.get(id) {
                    Some(p) => clone_opt(p),
                    None => None,
                }
            } else {
                None
            };
            st.asks.remove(id);
            let k = st.items.len();
            let item = ViewItem::Tool {
                id: seq,
                seq,
                name: name.clone(),
                args: arguments.clone(),
                status: ViewToolStatus::Running,
                summary: clone_opt(summary),
                result: None,
                diagnostics: None,
                error_code: None,
                call_id: Some(id.clone()),
                approval_pending: pending,
                view: None,
                preview,
            };
            st.items.push(item);
            st.by_seq.insert(seq, k);
            st.by_call.insert(id.clone(), k);
            assert(items_view(st.items@) =~= items_view(old(st).items@).push(item@));
        },
    }
}

/// Fold one turn lifecycle event (see [`turn_step`]).
fn fold_turn(st: &mut FoldState, seq: u64, t: &TurnEvent)
    ensures
        final(st).view_of() == turn_step(old(st).view_of(), seq, *t),
{
    if let TurnEvent::Started { input: Some(text), .. } = t {
        let item = ViewItem::User { id: seq, text: text.clone(), seq };
        st.items.push(item);
        assert(items_view(st.items@) =~= items_view(old(st).items@).push(item@));
    }
    let (running, ends) = match t {
        TurnEvent::Started { .. } => (true, false),
        TurnEvent::Resumed { .. } => (true, false),
        _ => (false, true),
    };
    st.turn_running = running;
    if ends {
        disarm_every_item(&mut st.items);
    }
}

/// Fold one committed event (see [`fold_event`]).
fn fold_one(st: &mut FoldState, e: &Event)
    ensures
        final(st).view_of() == fold_event(old(st).view_of(), *e),
{
    st.last_seq = Some(e.seq);
    match &e.payload {
        Payload::Turn(t) => fold_turn(st, e.seq, t),
        Payload::Model(ModelEvent::RequestStarted { model, .. }) => {
            if !lists_model(&st.models, model) {
                st.models.push(model.clone());
                assert(st.models@.map_values(|m: String| m@) =~= old(st).models@.map_values(
                    |m: String| m@,
                ).push(model@));
            }
        },
        Payload::Model(ModelEvent::ContentBlock { content }) => fold_block(st, e.seq, content),
        Payload::Model(ModelEvent::RequestCompleted { .. }) => {},
        Payload::Tool(ToolEvent::Completed { call_seq, result }) => {
            if let Some(k) = st.by_seq.get(call_seq) {
                let k = *k;
                let (texts, ui) = outcome_parts(&result.content);
                let status = if result.is_error {
                    ViewToolStatus::Error
                } else {
                    ViewToolStatus::Done
                };
                apply_outcome(&mut st.items, k, status, texts, ui, clone_opt(&result.error_code));
            }
        },
        Payload::Tool(ToolEvent::Failed { call_seq, error }) => {
            if let Some(k) = st.by_seq.get(call_seq) {
                let k = *k;
                let mut texts: Vec<String> = Vec::new();
                texts.push(error.message.clone());
                assert(texts@.map_values(|t: String| t@) =~= seq![error.message@]);
                apply_outcome(&mut st.items, k, ViewToolStatus::Error, texts, None, None);
            }
        },
        Payload::Tool(ToolEvent::Started { .. }) => {},
        Payload::Permission(PermissionEvent::Requested { call_id, preview, .. }) => {
            match st.by_call.get(call_id) {
                Some(k) => {
                    let k = *k;
                    arm_item_at(&mut st.items, k, clone_opt(preview));
                },
                None => {
                    st.asks.insert(call_id.clone(), clone_opt(preview));
                },
            }
        },
        Payload::Permission(PermissionEvent::Decided { call_id }) => {
            if let Some(k) = st.by_call.get(call_id) {
                let k = *k;
                disarm_item_at(&mut st.items, k);
            }
        },
        Payload::Error(detail) => {
            let item = ViewItem::Error { id: e.seq, message: detail.message.clone() };
            st.items.push(item);
            assert(items_view(st.items@) =~= items_view(old(st).items@).push(item@));
        },
        Payload::Session => {},
        Payload::Other => {},
    }
}

/// Fold a session's committed events (in seq order) into its conversation
/// view.
pub fn fold_view(events: &Vec<Event>) -> (r: SessionView)
    ensures
        r@ == folded_view(events@),
{
    let mut st = FoldState {
        items: Vec::new(),
        by_seq: HashMapWithView::new(),
        by_call: StringHashMap::new(),
        asks: StringHashMap::new(),
        last_seq: None,
        turn_running: false,
        models: Vec::new(),
    };
    assert(st.view_of() == fold_start()) by {
        assert(items_view(st.items@) =~= Seq::<ItemV>::empty());
        assert(st.models@.map_values(|m: String| m@) =~= Seq::<Seq<char>>::empty());
    }
    let mut i: usize = 0;
    while i < events.len()
        invariant
            i <= events.len(),
            st.view_of() == fold_prefix(events@, i as int),
        decreases events.len() - i,
    {
        fold_one(&mut st, &events[i]);
        i += 1;
    }
    SessionView {
        items: st.items,
        last_seq: st.last_seq,
        turn_running: st.turn_running,
        runtime_models: st.models,
    }
}


// ── Laws ──────────────────────────────────────────────────────────────────

/// Folding an event never changes the running flag unless it is a turn
/// event, and a turn event sets it exactly when the turn starts or resumes.
proof fn lemma_fold_running(s: FoldV, e: Event)
    ensures
        crate::turns::turn_marker(e) is None ==> fold_event(s, e).turn_running == s.turn_running,
        crate::turns::turn_marker(e) matches Some(m) ==> fold_event(s, e).turn_running == (m is Some),
{
    match e.payload {
        Payload::Model(ModelEvent::ContentBlock { content }) => {
            match content {
                BlockContent::ToolCall { name, arguments, .. } => {},
                _ => {},
            }
        },
        _ => {},
    }
}

/// The view's running flag agrees with the open-turn scan: a turn is
/// running at the fold point exactly when the log leaves a turn open.
pub proof fn law_running_iff_turn_open(events: Seq<Event>, n: int)
    requires
        0 <= n <= events.len(),
    ensures
        fold_prefix(events, n).turn_running == (crate::turns::open_turn(events, n) is Some),
    decreases n,
{
    if n > 0 {
        law_running_iff_turn_open(events, n - 1);
        lemma_fold_running(fold_prefix(events, n - 1), events[n - 1]);
    }
}

/// The view's high-water mark is the seq of the last event folded.
pub proof fn law_last_seq_is_the_tail(events: Seq<Event>)
    ensures
        events.len() == 0 ==> folded_view(events).last_seq is None,
        events.len() > 0 ==> folded_view(events).last_seq == Some(events.last().seq),
{
    if events.len() > 0 {
        let s = fold_prefix(events, events.len() - 1);
        let e = events.last();
        match e.payload {
            Payload::Model(ModelEvent::ContentBlock { content }) => {
                match content {
                    BlockContent::ToolCall { .. } => {},
                    _ => {},
                }
            },
            _ => {},
        }
    }
}

/// Every model a request started with is listed once, in first-seen order:
/// the runtime model list has no duplicates.
pub proof fn law_runtime_models_are_distinct(events: Seq<Event>, n: int)
    requires
        0 <= n <= events.len(),
    ensures
        forall|i: int, j: int|
            0 <= i < j < fold_prefix(events, n).models.len() ==> (#[trigger] fold_prefix(events, n).models[i])
                != (#[trigger] fold_prefix(events, n).models[j]),
    decreases n,
{
    if n > 0 {
        law_runtime_models_are_distinct(events, n - 1);
        let s = fold_prefix(events, n - 1);
        let e = events[n - 1];
        match e.payload {
            Payload::Model(ModelEvent::RequestStarted { model, .. }) => {
                if !s.models.contains(model@) {
                    let t = s.models.push(model@);
                    assert forall|i: int, j: int| 0 <= i < j < t.len() implies (#[trigger] t[i]) != (#[trigger] t[j]) by {
                        if j == s.models.len() {
                            assert(t[i] == s.models[i]);
                        }
                    }
                }
            },
            Payload::Model(ModelEvent::ContentBlock { content }) => {
                match content {
                    BlockContent::ToolCall { .. } => {},
                    _ => {},
                }
            },
            _ => {},
        }
    }
}

/// Tool results and permission events settle cards in place: they never add
/// or remove a row (a card is completed where it stands, never duplicated),
/// and no event ever removes a row.
pub proof fn law_outcomes_settle_in_place(s: FoldV, e: Event)
    ensures
        fold_event(s, e).items.len() >= s.items.len(),
        (e.payload is Tool || e.payload is Permission) ==> fold_event(s, e).items.len() == s.items.len(),
{
    lemma_last_plan_range(s.items, s.items.len() as int);
    if let Payload::Turn(t) = e.payload {
        let items = match t {
            TurnEvent::Started { input: Some(text), .. } => s.items.push(
                ItemV::User { id: e.seq, text: text@, seq: e.seq },
            ),
            _ => s.items,
        };
        assert(disarm_all(items).len() == items.len());
    }
}

proof fn lemma_last_plan_range(items: Seq<ItemV>, n: int)
    ensures
        last_plan(items, n) < items.len(),
        last_plan(items, n) >= -1,
    decreases n,
{
    if n > 0 && n <= items.len() {
        lemma_last_plan_range(items, n - 1);
    }
}

} // verus!
