use ominiforge::approval::{
    outcome_of, persists, pins_rule, resolve_pending_by_rule, status_after_ask, ApprovalDecision,
    ApprovalOutcome, ApprovalResolution, ApprovalScope, PendingAnswer, PendingAsk,
};
use ominiforge::event::{
    BlockContent, ErrorDetail, Event, ModelEvent, Payload, Timestamp, ToolEvent, ToolOutput, TurnEvent,
};
use ominiforge::gateway::{
    bearer_admits, conflict_or_not_found, events_up_to, fork_history, in_workspace,
    is_workspace_input_error, last_seen_from_header, replay_after, ErrorStatus, GatewayConfig,
    DEFAULT_BIND, DEFAULT_IDLE_TIMEOUT_SECS,
};
use ominiforge::json::Json;
use ominiforge::permission::{PermissionPolicy, Rule};
use ominiforge::session::{Origin, SessionId, SessionMeta};
use ominiforge::status::ActivityStatus;
use ominiforge::turns::{cancelled_error, dangling_tool_calls, open_turn_id};
use ominiforge::workspace::WorkspaceId;

fn ev(seq: u64, payload: Payload) -> Event {
    Event { seq, timestamp: Timestamp { secs: 0, nanos: 0 }, turn_id: None, payload }
}

fn in_turn(seq: u64, turn: &str, payload: Payload) -> Event {
    Event { seq, timestamp: Timestamp { secs: 0, nanos: 0 }, turn_id: Some(turn.to_owned()), payload }
}

fn started(seq: u64, id: &str) -> Event {
    ev(seq, Payload::Turn(TurnEvent::Started { turn_id: id.to_owned(), input: Some("hi".to_owned()) }))
}

fn completed(seq: u64, id: &str) -> Event {
    ev(seq, Payload::Turn(TurnEvent::Completed { turn_id: id.to_owned() }))
}

#[test]
fn open_turn_id_finds_the_dangling_started() {
    let events = vec![started(1, "t1")];
    assert_eq!(open_turn_id(&events), Some("t1".to_owned()));
}

#[test]
fn open_turn_id_none_when_last_turn_completed() {
    let events = vec![started(1, "t1"), completed(2, "t1")];
    assert_eq!(open_turn_id(&events), None);
}

#[test]
fn open_turn_id_tracks_the_latest_turn() {
    let events = vec![started(1, "t1"), completed(2, "t1"), started(3, "t2")];
    assert_eq!(open_turn_id(&events), Some("t2".to_owned()));
}

#[test]
fn open_turn_id_none_on_empty_log() {
    assert_eq!(open_turn_id(&[]), None);
}

#[test]
fn open_turn_id_ignores_non_turn_tail_events() {
    let err = Payload::Error(ErrorDetail { code: "x".to_owned(), message: "boom".to_owned() });
    let events = vec![started(1, "t1"), ev(2, err)];
    assert_eq!(open_turn_id(&events), Some("t1".to_owned()));
}

#[test]
fn resumed_turn_is_open_again() {
    let events = vec![
        started(1, "t1"),
        ev(2, Payload::Turn(TurnEvent::Interrupted { turn_id: "t1".to_owned(), interrupted_at: 1 })),
        ev(3, Payload::Turn(TurnEvent::Resumed { turn_id: "t1".to_owned() })),
    ];
    assert_eq!(open_turn_id(&events), Some("t1".to_owned()));
}

fn call(seq: u64, turn: &str, name: &str) -> Event {
    in_turn(
        seq,
        turn,
        Payload::Model(ModelEvent::ContentBlock {
            content: BlockContent::ToolCall {
                id: format!("c{seq}"),
                name: name.to_owned(),
                arguments: "{}".to_owned(),
                summary: None,
            },
        }),
    )
}

#[test]
fn cancel_backfills_only_the_open_turns_dangling_calls() {
    let events = vec![
        in_turn(0, "t0", Payload::Turn(TurnEvent::Started { turn_id: "t0".to_owned(), input: None })),
        call(1, "t0", "read"),
        in_turn(2, "t0", Payload::Turn(TurnEvent::Completed { turn_id: "t0".to_owned() })),
        in_turn(3, "t1", Payload::Turn(TurnEvent::Started { turn_id: "t1".to_owned(), input: None })),
        call(4, "t1", "shell"),
        call(5, "t1", "write"),
        in_turn(
            6,
            "t1",
            Payload::Tool(ToolEvent::Completed {
                call_seq: 4,
                result: ToolOutput { content: vec![], is_error: false, error_code: None },
            }),
        ),
    ];
    assert_eq!(
        dangling_tool_calls(&events),
        Some(("t1".to_owned(), vec![(5, "write".to_owned())]))
    );
    assert_eq!(dangling_tool_calls(&events[..3]), None);
    let failed = in_turn(7, "t1", Payload::Tool(ToolEvent::Failed { call_seq: 5, error: cancelled_error() }));
    let mut settled: Vec<Event> = events;
    settled.push(failed);
    assert_eq!(dangling_tool_calls(&settled), Some(("t1".to_owned(), vec![])));
}

#[test]
fn cancelled_error_is_coded() {
    let e = cancelled_error();
    assert_eq!(e.code, "cancelled");
    assert_eq!(e.message, "turn cancelled by user");
}

#[test]
fn replay_filters_strictly_after_last_seen() {
    let log = || (0..4).map(|s| ev(s, Payload::Session)).collect::<Vec<Event>>();
    let replay = replay_after(log(), Some(1));
    assert_eq!(replay.len(), 2, "events 2 and 3 are after seq 1");
    assert_eq!(replay.iter().map(|e| e.seq).collect::<Vec<_>>(), vec![2, 3]);
    let all = replay_after(log(), None);
    assert_eq!(all.len(), 4);
}

#[test]
fn fork_inherits_events_up_to_the_branch_point() {
    let log: Vec<Event> = (0..5).map(|s| ev(s, Payload::Session)).collect();
    let kept = events_up_to(log, 2);
    assert_eq!(kept.iter().map(|e| e.seq).collect::<Vec<_>>(), vec![0, 1, 2]);
}

#[test]
fn absent_config_is_defaults() {
    let config = GatewayConfig::default();
    assert_eq!(config.bind, DEFAULT_BIND);
    assert!(config.api_key_env.is_none());
    assert_eq!(config.idle_timeout_secs, DEFAULT_IDLE_TIMEOUT_SECS);
    assert_eq!(config.idle_timeout(), std::time::Duration::from_secs(1800));
}

#[test]
fn no_api_key_env_resolves_to_none() {
    let config = GatewayConfig::default();
    assert!(config.resolve_api_key(None).is_none());
    assert!(config.resolve_api_key(Some("secret".to_owned())).is_none());
}

#[test]
fn configured_api_key_env_resolves_its_value() {
    let config = GatewayConfig { api_key_env: Some("OMINI_GATEWAY_KEY".to_owned()), ..GatewayConfig::default() };
    assert_eq!(config.resolve_api_key(Some("secret".to_owned())), Some("secret".to_owned()));
    assert_eq!(config.resolve_api_key(Some(String::new())), None);
    assert_eq!(config.resolve_api_key(None), None);
}

#[test]
fn bearer_token_gates_requests() {
    assert!(bearer_admits(None, None));
    assert!(bearer_admits(None, Some("Bearer anything")));
    assert!(bearer_admits(Some("k"), Some("Bearer k")));
    assert!(!bearer_admits(Some("k"), Some("Bearer kk")));
    assert!(!bearer_admits(Some("k"), Some("Basic k")));
    assert!(!bearer_admits(Some("k"), None));
}

#[test]
fn failures_map_to_statuses() {
    assert_eq!(conflict_or_not_found("session s is not archived"), ErrorStatus::Conflict);
    assert_eq!(conflict_or_not_found("session s is archived"), ErrorStatus::Gone);
    assert_eq!(conflict_or_not_found("events log locked by another writer"), ErrorStatus::Conflict);
    assert_eq!(conflict_or_not_found("no such session"), ErrorStatus::NotFound);
    assert!(is_workspace_input_error("create: workspace does not exist: /x"));
    assert!(is_workspace_input_error("no providers configured"));
    assert!(!is_workspace_input_error("disk full"));
}

#[test]
fn sessions_belong_to_their_workspace() {
    let m = |ws: Option<&str>| SessionMeta {
        id: SessionId("s".to_owned()),
        profile_id: None,
        model: None,
        created_at: Timestamp { secs: 0, nanos: 0 },
        workspace: ws.map(str::to_owned),
        origin: Origin::new(),
        archived: false,
    };
    assert!(in_workspace(&m(Some("/p")), &WorkspaceId::from_path("/p")));
    assert!(!in_workspace(&m(Some("/p")), &WorkspaceId::from_path("/q")));
    assert!(in_workspace(&m(None), &WorkspaceId::none()));
    assert!(!in_workspace(&m(None), &WorkspaceId::from_path("/p")));
}

#[test]
fn unanswered_ask_resolves_auto_denied_without_scope() {
    assert_eq!(
        outcome_of(None),
        ApprovalOutcome { resolution: ApprovalResolution::AutoDenied, scope: None }
    );
}

#[test]
fn answers_resolve_by_decision_and_origin() {
    let human = PendingAnswer { decision: ApprovalDecision::Approve, scope: ApprovalScope::Session, pinned_by_rule: false };
    assert_eq!(outcome_of(Some(human)).resolution, ApprovalResolution::Approved);
    assert_eq!(outcome_of(Some(human)).scope, Some(ApprovalScope::Session));
    let reject = PendingAnswer { decision: ApprovalDecision::Reject, ..human };
    assert_eq!(outcome_of(Some(reject)).resolution, ApprovalResolution::RejectedByUser);
    let by_rule = PendingAnswer { pinned_by_rule: true, ..reject };
    assert_eq!(
        outcome_of(Some(by_rule)).resolution,
        ApprovalResolution::PinnedByRule { approved: false }
    );
    assert!(pins_rule(human));
    assert!(!pins_rule(PendingAnswer { scope: ApprovalScope::Once, ..human }));
    assert!(!pins_rule(by_rule));
    assert!(persists(ApprovalScope::Profile));
    assert!(persists(ApprovalScope::Gateway));
    assert!(!persists(ApprovalScope::Session));
    assert!(!persists(ApprovalScope::Once));
}

#[test]
fn rule_pin_settles_only_asks_the_policy_decides() {
    let policy = PermissionPolicy {
        deny: vec![Rule::contains("shell", vec!["rm".to_owned()])],
        ask: vec![Rule::contains("write", vec![])],
    };
    let ask = |id: &str, tool: &str, cmd: &str| PendingAsk {
        call_id: id.to_owned(),
        tool_name: tool.to_owned(),
        input: Json::Object(vec![("command".to_owned(), Json::Str(cmd.to_owned()))]),
    };
    let asks = vec![ask("a", "shell", "rm -rf /"), ask("b", "write", "x"), ask("c", "read", "y")];
    let settled = resolve_pending_by_rule(&policy, &asks, ApprovalScope::Session);
    assert_eq!(
        settled,
        vec![
            (
                "a".to_owned(),
                PendingAnswer { decision: ApprovalDecision::Reject, scope: ApprovalScope::Session, pinned_by_rule: true }
            ),
            (
                "c".to_owned(),
                PendingAnswer { decision: ApprovalDecision::Approve, scope: ApprovalScope::Session, pinned_by_rule: true }
            ),
        ]
    );
    assert_eq!(status_after_ask(true), ActivityStatus::Running);
    assert_eq!(status_after_ask(false), ActivityStatus::AwaitingApproval);
}

#[test]
fn last_event_id_header_is_a_seq_or_nothing() {
    assert_eq!(last_seen_from_header(Some("42")), Some(42));
    assert_eq!(last_seen_from_header(Some("+7")), Some(7));
    assert_eq!(last_seen_from_header(Some("18446744073709551615")), Some(u64::MAX));
    assert_eq!(last_seen_from_header(Some("18446744073709551616")), None);
    assert_eq!(last_seen_from_header(Some(" 1")), None);
    assert_eq!(last_seen_from_header(Some("-1")), None);
    assert_eq!(last_seen_from_header(Some("")), None);
    assert_eq!(last_seen_from_header(None), None);
}

#[test]
fn fork_needs_an_event_at_or_before_the_branch_point() {
    let parent = SessionId("P".to_owned());
    let log = || (3..6).map(|s| ev(s, Payload::Session)).collect::<Vec<Event>>();
    let kept = fork_history(&parent, log(), 4).unwrap();
    assert_eq!(kept.iter().map(|e| e.seq).collect::<Vec<_>>(), vec![3, 4]);
    assert_eq!(
        fork_history(&parent, log(), 2).unwrap_err(),
        "parent session `P` has no event at or before seq 2"
    );
}
