//! Turn bookkeeping over a session's committed log: which turn is still
//! open, which of its tool calls never settled (and so must be backfilled
//! as cancelled when the turn is aborted), and the actor's command and
//! live-delta vocabularies.

use std::collections::VecDeque;
use vstd::prelude::*;

use crate::approval::{ApprovalDecision, ApprovalScope};
use crate::event::{BlockContent, ErrorDetail, Event, ModelEvent, Payload, ToolEvent, TurnEvent};
use crate::text::str_eq;
use crate::wire::ContentBlockType;

verus! {

broadcast use {vstd::std_specs::vec::group_vec_axioms, vstd::std_specs::vecdeque::group_vec_dequeue_axioms};

/// What one event says about the open turn: `Some(Some(id))` for a turn
/// starting or resuming, `Some(None)` for a turn ending, `None` for any
/// other event.
pub open spec fn turn_marker(e: Event) -> Option<Option<Seq<char>>> {
    match e.payload {
        Payload::Turn(TurnEvent::Started { turn_id, .. }) => Some(Some(turn_id@)),
        Payload::Turn(TurnEvent::Resumed { turn_id }) => Some(Some(turn_id@)),
        Payload::Turn(TurnEvent::Completed { .. }) => Some(None),
        Payload::Turn(TurnEvent::Failed { .. }) => Some(None),
        Payload::Turn(TurnEvent::Interrupted { .. }) => Some(None),
        _ => None,
    }
}

/// The turn left open by the first `n` events: turns never overlap, so the
/// last turn-lifecycle event decides.
pub open spec fn open_turn(events: Seq<Event>, n: int) -> Option<Seq<char>>
    decreases n,
{
    if n <= 0 || n > events.len() {
        None
    } else {
        match turn_marker(events[n - 1]) {
            Some(m) => m,
            None => open_turn(events, n - 1),
        }
    }
}

/// The turn left open at the tail of the log, if any: a start or resume
/// with no terminator after it. `None` when no turn is open.
pub fn open_turn_id(events: &[Event]) -> (r: Option<String>)
    ensures
        crate::permission::opt_view(r) == open_turn(events@, events@.len() as int),
{
    let mut i: usize = events.len();
    while i > 0
        invariant
            i <= events@.len(),
            open_turn(events@, events@.len() as int) == open_turn(events@, i as int),
        decreases i,
    {
        match &events[i - 1].payload {
            Payload::Turn(TurnEvent::Started { turn_id, .. }) => return Some(turn_id.clone()),
            Payload::Turn(TurnEvent::Resumed { turn_id }) => return Some(turn_id.clone()),
            Payload::Turn(_) => return None,
            _ => {},
        }
        i -= 1;
    }
    None
}

/// Whether an event belongs to turn `turn`.
pub open spec fn in_turn(e: Event, turn: Seq<char>) -> bool {
    e.turn_id matches Some(t) && t@ == turn
}

/// The tool calls (block seq, tool name) committed in turn `turn` among the
/// first `n` events, in order.
pub open spec fn turn_calls(events: Seq<Event>, turn: Seq<char>, n: int) -> Seq<(u64, Seq<char>)>
    decreases n,
{
    if n <= 0 || n > events.len() {
        Seq::empty()
    } else {
        let e = events[n - 1];
        let rest = turn_calls(events, turn, n - 1);
        if in_turn(e, turn) {
            match e.payload {
                Payload::Model(ModelEvent::ContentBlock { content: BlockContent::ToolCall { name, .. } }) => rest.push(
                    (e.seq, name@),
                ),
                _ => rest,
            }
        } else {
            rest
        }
    }
}

/// Whether, among the events of turn `turn`, some tool result (completed or
/// failed) settles the call committed at `seq`.
pub open spec fn settled(events: Seq<Event>, turn: Seq<char>, seq: u64) -> bool {
    exists|i: int|
        0 <= i < events.len() && in_turn(#[trigger] events[i], turn) && match events[i].payload {
            Payload::Tool(ToolEvent::Completed { call_seq, .. }) => call_seq == seq,
            Payload::Tool(ToolEvent::Failed { call_seq, .. }) => call_seq == seq,
            _ => false,
        }
}

/// The first `n` calls of a list that are not settled, in order.
pub open spec fn unsettled(events: Seq<Event>, turn: Seq<char>, calls: Seq<(u64, Seq<char>)>, n: int) -> Seq<
    (u64, Seq<char>),
>
    decreases n,
{
    if n <= 0 || n > calls.len() {
        Seq::empty()
    } else if settled(events, turn, calls[n - 1].0) {
        unsettled(events, turn, calls, n - 1)
    } else {
        unsettled(events, turn, calls, n - 1).push(calls[n - 1])
    }
}

/// The tool calls of the open turn that never got a result, in commit
/// order: exactly those an abort must backfill as cancelled.
pub open spec fn dangling(events: Seq<Event>) -> Option<Seq<(u64, Seq<char>)>> {
    match open_turn(events, events.len() as int) {
        None => None,
        Some(turn) => {
            let calls = turn_calls(events, turn, events.len() as int);
            Some(unsettled(events, turn, calls, calls.len() as int))
        },
    }
}

fn settles(e: &Event, turn: &str, seq: u64) -> (r: bool)
    ensures
        r == (in_turn(*e, turn@) && match e.payload {
            Payload::Tool(ToolEvent::Completed { call_seq, .. }) => call_seq == seq,
            Payload::Tool(ToolEvent::Failed { call_seq, .. }) => call_seq == seq,
            _ => false,
        }),
{
    let mine = match &e.turn_id {
        Some(t) => str_eq(t.as_str(), turn),
        None => false,
    };
    if !mine {
        return false;
    }
    match &e.payload {
        Payload::Tool(ToolEvent::Completed { call_seq, .. }) => *call_seq == seq,
        Payload::Tool(ToolEvent::Failed { call_seq, .. }) => *call_seq == seq,
        _ => false,
    }
}

/// The views of a list of (seq, name) pairs.
pub open spec fn calls_view(v: Seq<(u64, String)>) -> Seq<(u64, Seq<char>)> {
    v.map_values(|c: (u64, String)| (c.0, c.1@))
}

/// The open turn and its tool calls that never got a result, in commit
/// order (see [`dangling`]); `None` when no turn is open.
pub fn dangling_tool_calls(events: &[Event]) -> (r: Option<(String, Vec<(u64, String)>)>)
    ensures
        match r {
            None => dangling(events@) is None,
            Some((turn, calls)) => open_turn(events@, events@.len() as int) == Some(turn@) && dangling(events@)
                == Some(calls_view(calls@)),
        },
{
    let turn = match open_turn_id(events) {
        Some(t) => t,
        None => return None,
    };
    let ghost tv = turn@;
    let mut calls: Vec<(u64, String)> = Vec::new();
    let mut i: usize = 0;
    while i < events.len()
        invariant
            i <= events@.len(),
            tv == turn@,
            calls_view(calls@) == turn_calls(events@, tv, i as int),
        decreases events.len() - i,
    {
        let e = &events[i];
        let mine = match &e.turn_id {
            Some(t) => str_eq(t.as_str(), turn.as_str()),
            None => false,
        };
        let ghost prev = calls@;
        if mine {
            match &e.payload {
                Payload::Model(ModelEvent::ContentBlock { content: BlockContent::ToolCall { name, .. } }) => {
                    calls.push((e.seq, name.clone()));
                    assert(calls_view(calls@) =~= calls_view(prev).push((e.seq, name@)));
                },
                _ => {},
            }
        }
        i += 1;
    }
    let ghost all_calls = calls_view(calls@);
    let mut out: Vec<(u64, String)> = Vec::new();
    let mut k: usize = 0;
    while k < calls.len()
        invariant
            k <= calls@.len(),
            tv == turn@,
            all_calls == calls_view(calls@),
            calls_view(out@) == unsettled(events@, tv, all_calls, k as int),
        decreases calls.len() - k,
    {
        let seq = calls[k].0;
        let mut found = false;
        let mut j: usize = 0;
        while j < events.len()
            invariant
                j <= events@.len(),
                tv == turn@,
                found == exists|x: int|
                    0 <= x < j && in_turn(#[trigger] events@[x], tv) && match events@[x].payload {
                        Payload::Tool(ToolEvent::Completed { call_seq, .. }) => call_seq == seq,
                        Payload::Tool(ToolEvent::Failed { call_seq, .. }) => call_seq == seq,
                        _ => false,
                    },
            decreases events.len() - j,
        {
            if settles(&events[j], turn.as_str(), seq) {
                found = true;
            }
            j += 1;
        }
        let ghost prev = out@;
        if !found {
            out.push((seq, calls[k].1.clone()));
            assert(calls_view(out@) =~= calls_view(prev).push(all_calls[k as int]));
        }
        k += 1;
    }
    Some((turn, out))
}

/// The error recorded for a tool call cut short by a user cancel.
pub fn cancelled_error() -> (r: ErrorDetail)
    ensures
        r.code@ == "cancelled"@,
        r.message@ == "turn cancelled by user"@,
{
    ErrorDetail {
        code: crate::text::owned("cancelled"),
        message: crate::text::owned("turn cancelled by user"),
    }
}

/// Backfilling a cancelled failure for each dangling call leaves none: a
/// call that gets a failure in its turn is settled.
pub proof fn law_a_failure_settles_its_call(events: Seq<Event>, turn: Seq<char>, i: int, seq: u64)
    requires
        0 <= i < events.len(),
        in_turn(events[i], turn),
        events[i].payload matches Payload::Tool(ToolEvent::Failed { call_seq, .. }) && call_seq == seq,
    ensures
        settled(events, turn, seq),
{
}

/// A log whose last turn event terminates the turn has no open turn, so an
/// abort has nothing to backfill or terminate.
pub proof fn law_terminated_turn_is_closed(events: Seq<Event>, k: int)
    requires
        0 <= k < events.len(),
        turn_marker(events[k]) == Some(None::<Seq<char>>),
        forall|j: int| k < j < events.len() ==> turn_marker(#[trigger] events[j]) is None,
    ensures
        open_turn(events, events.len() as int) is None,
        dangling(events) is None,
{
    lemma_open_turn_tail(events, k, events.len() as int);
}

proof fn lemma_open_turn_tail(events: Seq<Event>, k: int, n: int)
    requires
        0 <= k < n <= events.len(),
        forall|j: int| k < j < events.len() ==> turn_marker(#[trigger] events[j]) is None,
    ensures
        open_turn(events, n) == open_turn(events, k + 1),
    decreases n,
{
    if n > k + 1 {
        lemma_open_turn_tail(events, k, n - 1);
    }
}

// ── The actor's vocabulary ────────────────────────────────────────────────

/// A command sent to a session actor.
#[derive(Debug, Clone, PartialEq, Eq)]
pub enum Command {
    /// Run a turn with this user input (queued behind a running turn).
    Send { text: String },
    /// Abort the running turn, if any.
    Cancel,
    /// Summarize into a compaction session, keeping the last N user turns.
    Compact { keep_last: Option<usize> },
    /// Deliver a human decision for a suspended tool call.
    Approve { call_id: String, decision: ApprovalDecision, scope: ApprovalScope },
    /// Stop the actor and release the session.
    Shutdown,
}

/// A live streaming delta (not persisted, not replayed).
#[derive(Debug, Clone, PartialEq, Eq)]
pub enum Delta {
    /// A content block opened: `text`, `reasoning` or `tool_call` (with the
    /// tool's name).
    BlockStart { index: u32, kind: &'static str, tool: Option<String> },
    Text { index: u32, text: String },
    Reasoning { index: u32, text: String },
    ToolArgs { index: u32, json: String },
    /// The model request is being retried after a transient failure.
    Retrying { attempt: u32, max_retries: u32, delay_ms: u64, error: String },
}

/// The live delta announcing a block: its kind (`text`, `reasoning` or
/// `tool_call`) and, for a tool call, the tool's name.
pub fn block_start_delta(index: u32, block: &ContentBlockType) -> (r: Delta)
    ensures
        r == match block {
            ContentBlockType::Text => Delta::BlockStart { index, kind: "text", tool: None },
            ContentBlockType::Reasoning => Delta::BlockStart { index, kind: "reasoning", tool: None },
            ContentBlockType::ToolCall { name, .. } => Delta::BlockStart {
                index,
                kind: "tool_call",
                tool: Some(*name),
            },
        },
{
    match block {
        ContentBlockType::Text => Delta::BlockStart { index, kind: "text", tool: None },
        ContentBlockType::Reasoning => Delta::BlockStart { index, kind: "reasoning", tool: None },
        ContentBlockType::ToolCall { name, .. } => Delta::BlockStart {
            index,
            kind: "tool_call",
            tool: Some(name.clone()),
        },
    }
}

// ── The actor's decisions ─────────────────────────────────────────────────

/// What wakes a session actor.
#[derive(Debug, Clone, PartialEq, Eq)]
pub enum ActorInput {
    /// A command from one of its handles.
    Command(Command),
    /// Every handle was dropped: no command can arrive again.
    InboxClosed,
    /// No command arrived within the idle timeout.
    IdleTimeout,
    /// The running turn finished; `over_limit` when its context reached the
    /// compaction limit.
    TurnDone { over_limit: bool },
}

/// What a session actor does next.
#[derive(Debug, Clone, PartialEq, Eq)]
pub enum ActorAction {
    /// Publish `Running` and start a turn with this input.
    StartTurn { text: String },
    /// Compact the session now.
    Compact { keep_last: Option<usize> },
    /// Wake the parked ask `call_id` with a human decision; the turn goes on.
    DeliverApproval { call_id: String, decision: ApprovalDecision, scope: ApprovalScope },
    /// Drop the parked asks, abort the turn, backfill its dangling calls as
    /// cancelled, record the interruption and publish `Idle`.
    CancelTurn,
    /// Drop the parked asks (they fail closed) and wait for the turn to end.
    DrainTurn,
    /// The turn ended: publish `Idle` and resume the session.
    Settle,
    /// The turn ended over the context limit: publish `Idle`, then compact.
    SettleAndCompact,
    /// Queued until the running turn settles.
    Defer,
    /// Nothing to do.
    Ignore,
    /// Stop the actor; `abort_turn` when a turn was running and is aborted.
    Stop { abort_turn: bool },
}

/// A session actor's decision state: whether a turn runs, and the commands
/// queued behind it (oldest first).
#[derive(Debug)]
pub struct ActorState {
    running: bool,
    deferred: VecDeque<Command>,
}

/// The mathematical form of an [`ActorState`].
pub struct ActorV {
    pub running: bool,
    pub deferred: Seq<Command>,
}

impl View for ActorState {
    type V = ActorV;

    closed spec fn view(&self) -> ActorV {
        ActorV { running: self.running, deferred: self.deferred@ }
    }
}

/// One decision: the next state and the action for an input. While idle a
/// command is served at once (cancel and approvals have nothing to act on);
/// while a turn runs, sends and compactions queue behind it, a cancel or
/// shutdown aborts it, and an approval reaches its parked ask.
pub open spec fn actor_step(s: ActorV, input: ActorInput) -> (ActorV, ActorAction) {
    if !s.running {
        match input {
            ActorInput::Command(Command::Send { text }) => (
                ActorV { running: true, ..s },
                ActorAction::StartTurn { text },
            ),
            ActorInput::Command(Command::Compact { keep_last }) => (s, ActorAction::Compact { keep_last }),
            ActorInput::Command(Command::Shutdown) => (s, ActorAction::Stop { abort_turn: false }),
            ActorInput::InboxClosed => (s, ActorAction::Stop { abort_turn: false }),
            ActorInput::IdleTimeout => (s, ActorAction::Stop { abort_turn: false }),
            _ => (s, ActorAction::Ignore),
        }
    } else {
        match input {
            ActorInput::Command(Command::Cancel) => (ActorV { running: false, ..s }, ActorAction::CancelTurn),
            ActorInput::Command(Command::Shutdown) => (
                ActorV { running: false, ..s },
                ActorAction::Stop { abort_turn: true },
            ),
            ActorInput::Command(Command::Approve { call_id, decision, scope }) => (
                s,
                ActorAction::DeliverApproval { call_id, decision, scope },
            ),
            ActorInput::Command(c) => (
                ActorV { deferred: s.deferred.push(c), ..s },
                ActorAction::Defer,
            ),
            ActorInput::InboxClosed => (s, ActorAction::DrainTurn),
            ActorInput::IdleTimeout => (s, ActorAction::Ignore),
            ActorInput::TurnDone { over_limit } => (
                ActorV { running: false, ..s },
                if over_limit {
                    ActorAction::SettleAndCompact
                } else {
                    ActorAction::Settle
                },
            ),
        }
    }
}

impl ActorState {
    /// An idle actor with nothing queued.
    pub fn new() -> (r: Self)
        ensures
            !r@.running,
            r@.deferred == Seq::<Command>::empty(),
    {
        ActorState { running: false, deferred: VecDeque::new() }
    }

    /// Whether a turn is running.
    pub fn is_running(&self) -> (r: bool)
        ensures
            r == self@.running,
    {
        self.running
    }

    /// The oldest queued command, to be served before waiting for new ones;
    /// none while a turn runs.
    pub fn next_deferred(&mut self) -> (r: Option<Command>)
        ensures
            !old(self)@.running && old(self)@.deferred.len() > 0 ==> r == Some(old(self)@.deferred[0])
                && final(self)@ == (ActorV { deferred: old(self)@.deferred.drop_first(), ..old(self)@ }),
            (old(self)@.running || old(self)@.deferred.len() == 0) ==> r is None && final(self)@ == old(self)@,
    {
        if self.running || self.deferred.len() == 0 {
            return None;
        }
        let c = self.deferred.pop_front();
        assert(self.deferred@ =~= old(self)@.deferred.drop_first());
        c
    }

    /// Decide what to do about `input` (see [`actor_step`]).
    pub fn step(&mut self, input: ActorInput) -> (r: ActorAction)
        ensures
            (final(self)@, r) == actor_step(old(self)@, input),
    {
        if !self.running {
            match input {
                ActorInput::Command(Command::Send { text }) => {
                    self.running = true;
                    ActorAction::StartTurn { text }
                },
                ActorInput::Command(Command::Compact { keep_last }) => ActorAction::Compact { keep_last },
                ActorInput::Command(Command::Shutdown) => ActorAction::Stop { abort_turn: false },
                ActorInput::InboxClosed => ActorAction::Stop { abort_turn: false },
                ActorInput::IdleTimeout => ActorAction::Stop { abort_turn: false },
                _ => ActorAction::Ignore,
            }
        } else {
            match input {
                ActorInput::Command(Command::Cancel) => {
                    self.running = false;
                    ActorAction::CancelTurn
                },
                ActorInput::Command(Command::Shutdown) => {
                    self.running = false;
                    ActorAction::Stop { abort_turn: true }
                },
                ActorInput::Command(Command::Approve { call_id, decision, scope }) => {
                    ActorAction::DeliverApproval { call_id, decision, scope }
                },
                ActorInput::Command(c) => {
                    self.deferred.push_back(c);
                    ActorAction::Defer
                },
                ActorInput::InboxClosed => ActorAction::DrainTurn,
                ActorInput::IdleTimeout => ActorAction::Ignore,
                ActorInput::TurnDone { over_limit } => {
                    self.running = false;
                    if over_limit {
                        ActorAction::SettleAndCompact
                    } else {
                        ActorAction::Settle
                    }
                },
            }
        }
    }
}

/// Turns never overlap: a turn starts only from an idle actor, and a send
/// arriving while one runs is queued behind it rather than started.
pub proof fn law_turns_never_overlap(s: ActorV, input: ActorInput)
    ensures
        actor_step(s, input).1 is StartTurn ==> !s.running && actor_step(s, input).0.running,
        (s.running && (input matches ActorInput::Command(Command::Send { .. }))) ==> (actor_step(s, input).1
            == ActorAction::Defer && actor_step(s, input).0.running),
{
}

/// Queued commands are served in arrival order: deferring appends at the
/// back, and the next served command is the oldest.
pub proof fn law_deferred_commands_keep_their_order(s: ActorV, c: Command)
    requires
        s.running,
        c is Send || c is Compact,
    ensures
        actor_step(s, ActorInput::Command(c)).0.deferred == s.deferred.push(c),
        actor_step(s, ActorInput::Command(c)).0.deferred[0] == (if s.deferred.len() > 0 {
            s.deferred[0]
        } else {
            c
        }),
{
}

/// A turn stops running only through a cancel, a shutdown or its own end,
/// and each of these is an action that publishes `Idle` (or stops the
/// actor, whose exit does); a cancel or approval reaching an idle actor
/// changes nothing.
pub proof fn law_idle_is_reached_only_by_settling(s: ActorV, input: ActorInput)
    ensures
        s.running && !actor_step(s, input).0.running ==> (actor_step(s, input).1 is CancelTurn
            || actor_step(s, input).1 is Settle || actor_step(s, input).1 is SettleAndCompact
            || actor_step(s, input).1 == ActorAction::Stop { abort_turn: true }),
        (!s.running && (input == ActorInput::Command(Command::Cancel) || (input matches ActorInput::Command(
            Command::Approve { .. },
        )))) ==> actor_step(s, input) == (s, ActorAction::Ignore),
{
}

} // verus!
