use ominiforge::approval::{ApprovalDecision, ApprovalScope};
use ominiforge::turns::{block_start_delta, ActorAction, ActorInput, ActorState, Command, Delta};
use ominiforge::wire::ContentBlockType;

fn send(text: &str) -> ActorInput {
    ActorInput::Command(Command::Send { text: text.to_owned() })
}

#[test]
fn two_sends_serialize() {
    let mut st = ActorState::new();
    assert_eq!(st.step(send("one")), ActorAction::StartTurn { text: "one".to_owned() });
    assert!(st.is_running());
    // The second send queues behind the running turn.
    assert_eq!(st.step(send("two")), ActorAction::Defer);
    assert_eq!(st.next_deferred(), None, "nothing is served while a turn runs");
    assert_eq!(st.step(ActorInput::TurnDone { over_limit: false }), ActorAction::Settle);
    assert!(!st.is_running());
    let next = st.next_deferred().unwrap();
    assert_eq!(st.step(ActorInput::Command(next)), ActorAction::StartTurn { text: "two".to_owned() });
}

#[test]
fn deferred_commands_replay_in_order() {
    let mut st = ActorState::new();
    st.step(send("a"));
    st.step(ActorInput::Command(Command::Compact { keep_last: Some(2) }));
    st.step(send("b"));
    st.step(ActorInput::TurnDone { over_limit: true });
    assert_eq!(st.next_deferred(), Some(Command::Compact { keep_last: Some(2) }));
    assert_eq!(st.next_deferred(), Some(Command::Send { text: "b".to_owned() }));
    assert_eq!(st.next_deferred(), None);
}

#[test]
fn over_limit_turn_settles_then_compacts() {
    let mut st = ActorState::new();
    st.step(send("a"));
    assert_eq!(st.step(ActorInput::TurnDone { over_limit: true }), ActorAction::SettleAndCompact);
}

#[test]
fn cancel_and_approve_do_nothing_while_idle() {
    let mut st = ActorState::new();
    assert_eq!(st.step(ActorInput::Command(Command::Cancel)), ActorAction::Ignore);
    let approve = ActorInput::Command(Command::Approve {
        call_id: "c1".to_owned(),
        decision: ApprovalDecision::Approve,
        scope: ApprovalScope::Once,
    });
    assert_eq!(st.step(approve), ActorAction::Ignore);
    assert!(!st.is_running());
    assert_eq!(st.step(ActorInput::Command(Command::Compact { keep_last: None })), ActorAction::Compact { keep_last: None });
}

#[test]
fn a_running_turn_is_cancelled_approved_or_drained() {
    let mut st = ActorState::new();
    st.step(send("a"));
    let approve = ActorInput::Command(Command::Approve {
        call_id: "c1".to_owned(),
        decision: ApprovalDecision::Reject,
        scope: ApprovalScope::Session,
    });
    assert_eq!(
        st.step(approve),
        ActorAction::DeliverApproval {
            call_id: "c1".to_owned(),
            decision: ApprovalDecision::Reject,
            scope: ApprovalScope::Session
        }
    );
    assert_eq!(st.step(ActorInput::IdleTimeout), ActorAction::Ignore);
    assert_eq!(st.step(ActorInput::InboxClosed), ActorAction::DrainTurn);
    assert!(st.is_running());
    assert_eq!(st.step(ActorInput::Command(Command::Cancel)), ActorAction::CancelTurn);
    assert!(!st.is_running());
}

#[test]
fn shutdown_stops_and_aborts_a_running_turn() {
    let mut idle = ActorState::new();
    assert_eq!(idle.step(ActorInput::Command(Command::Shutdown)), ActorAction::Stop { abort_turn: false });
    assert_eq!(idle.step(ActorInput::IdleTimeout), ActorAction::Stop { abort_turn: false });
    assert_eq!(idle.step(ActorInput::InboxClosed), ActorAction::Stop { abort_turn: false });
    let mut busy = ActorState::new();
    busy.step(send("a"));
    assert_eq!(busy.step(ActorInput::Command(Command::Shutdown)), ActorAction::Stop { abort_turn: true });
}

#[test]
fn block_start_deltas_name_their_kind() {
    assert_eq!(
        block_start_delta(0, &ContentBlockType::Text),
        Delta::BlockStart { index: 0, kind: "text", tool: None }
    );
    assert_eq!(
        block_start_delta(1, &ContentBlockType::Reasoning),
        Delta::BlockStart { index: 1, kind: "reasoning", tool: None }
    );
    assert_eq!(
        block_start_delta(2, &ContentBlockType::ToolCall { id: "c".to_owned(), name: "shell".to_owned() }),
        Delta::BlockStart { index: 2, kind: "tool_call", tool: Some("shell".to_owned()) }
    );
}
