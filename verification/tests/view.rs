use ominiforge::event::{
    BlockContent, Content, ErrorDetail, Event, ModelEvent, Payload, PermissionEvent, Timestamp,
    ToolEvent, ToolOutput, TurnEvent, Usage,
};
use ominiforge::json::Json;
use ominiforge::plan::{init_steps, plan_from_json, LeafOp, PlanOp, ViewPlanStatus};
use ominiforge::view::{fold_view, ViewItem, ViewToolStatus};

fn ev(seq: u64, payload: Payload) -> Event {
    Event { seq, timestamp: Timestamp { secs: 1_782_259_200, nanos: 0 }, turn_id: None, payload }
}

fn block(seq: u64, content: BlockContent) -> Event {
    ev(seq, Payload::Model(ModelEvent::ContentBlock { content }))
}

fn tool_call(id: &str, name: &str, args: &str) -> BlockContent {
    BlockContent::ToolCall { id: id.into(), name: name.into(), arguments: args.into(), summary: None }
}

fn completed(seq: u64, call_seq: u64, text: &str) -> Event {
    ev(
        seq,
        Payload::Tool(ToolEvent::Completed {
            call_seq,
            result: ToolOutput { content: vec![Content::Text(text.into())], is_error: false, error_code: None },
        }),
    )
}

fn turn_started(seq: u64, id: &str, input: &str) -> Event {
    ev(seq, Payload::Turn(TurnEvent::Started { turn_id: id.into(), input: Some(input.into()) }))
}

fn turn_completed(seq: u64, id: &str) -> Event {
    ev(seq, Payload::Turn(TurnEvent::Completed { turn_id: id.into() }))
}

fn kind(i: &ViewItem) -> &'static str {
    match i {
        ViewItem::User { .. } => "user",
        ViewItem::Reasoning { .. } => "reasoning",
        ViewItem::Text { .. } => "text",
        ViewItem::Tool { .. } => "tool",
        ViewItem::Plan { .. } => "plan",
        ViewItem::Error { .. } => "error",
    }
}

#[test]
fn a_turn_folds_into_view_items() {
    let events = vec![
        ev(0, Payload::Session),
        turn_started(1, "t", "hello"),
        block(2, BlockContent::Reasoning { text: "think".into() }),
        block(3, BlockContent::Text { text: "answer".into() }),
        block(4, tool_call("c1", "read", "{\"path\":\"a.txt\"}")),
        completed(5, 4, "[a.txt]\n1:hi"),
        turn_completed(6, "t"),
    ];
    let view = fold_view(&events);
    assert_eq!(view.last_seq, Some(6));
    let kinds: Vec<&str> = view.items.iter().map(kind).collect();
    assert_eq!(kinds, ["user", "reasoning", "text", "tool"]);
    let ViewItem::Tool { status, result, .. } = &view.items[3] else { panic!("tool card") };
    assert_eq!(*status, ViewToolStatus::Done);
    assert_eq!(result.as_deref(), Some("[a.txt]\n1:hi"));
}

#[test]
fn an_early_permission_ask_backfills_the_late_tool_card() {
    let events = vec![
        ev(
            1,
            Payload::Permission(PermissionEvent::Requested {
                call_id: "c1".into(),
                tool_name: "write".into(),
                input: Json::Object(vec![("path".into(), Json::Str("x.txt".into()))]),
                preview: Some("DIFF".into()),
            }),
        ),
        block(2, tool_call("c1", "write", "{\"path\":\"x.txt\"}")),
        ev(3, Payload::Permission(PermissionEvent::Decided { call_id: "c1".into() })),
        completed(4, 2, "wrote x.txt"),
    ];
    let view = fold_view(&events);
    assert_eq!(view.items.len(), 1, "one card, completed in place — never duplicated");
    let ViewItem::Tool { approval_pending, preview, view, status, .. } = &view.items[0] else {
        panic!("tool card")
    };
    assert!(!approval_pending, "the Decided cleared it");
    assert_eq!(view.as_deref(), Some("DIFF"), "no executed view → the preview stays");
    assert_eq!(*status, ViewToolStatus::Done);
    assert_eq!(preview.as_deref(), Some("DIFF"));
}

#[test]
fn an_interrupted_turn_disarms_a_pending_ask() {
    let events = vec![
        block(1, tool_call("c1", "shell", "{\"command\":\"x\"}")),
        ev(
            2,
            Payload::Permission(PermissionEvent::Requested {
                call_id: "c1".into(),
                tool_name: "shell".into(),
                input: Json::Object(vec![]),
                preview: None,
            }),
        ),
        ev(3, Payload::Turn(TurnEvent::Interrupted { turn_id: "t".into(), interrupted_at: 2 })),
    ];
    let view = fold_view(&events);
    let ViewItem::Tool { approval_pending, .. } = &view.items[0] else { panic!("tool card") };
    assert!(!approval_pending);
}

#[test]
fn a_pending_ask_stays_armed_until_decided() {
    let events = vec![
        block(1, tool_call("c1", "shell", "{}")),
        ev(
            2,
            Payload::Permission(PermissionEvent::Requested {
                call_id: "c1".into(),
                tool_name: "shell".into(),
                input: Json::Object(vec![]),
                preview: None,
            }),
        ),
    ];
    let view = fold_view(&events);
    let ViewItem::Tool { approval_pending, status, call_id, .. } = &view.items[0] else { panic!("tool card") };
    assert!(*approval_pending);
    assert_eq!(*status, ViewToolStatus::Running);
    assert_eq!(call_id.as_deref(), Some("c1"));
}

#[test]
fn plan_calls_fold_into_cards() {
    let events = vec![
        block(1, tool_call("p1", "plan", r#"{"op":"init","steps":[{"content":"a"},{"content":"b"}]}"#)),
        block(2, tool_call("p2", "plan", r#"{"ops":[{"op":"start","id":"1"},{"op":"complete","id":"1"}]}"#)),
    ];
    let view = fold_view(&events);
    assert_eq!(view.items.len(), 1);
    let ViewItem::Plan { steps, .. } = &view.items[0] else { panic!("plan card") };
    assert_eq!(steps.len(), 2);
    assert_eq!(steps[0].status, ViewPlanStatus::Completed);
    assert_eq!(steps[1].status, ViewPlanStatus::Pending);
}

#[test]
fn tool_outcome_splits_diagnostics_and_view() {
    let events = vec![
        block(1, tool_call("c1", "write", "{}")),
        ev(
            2,
            Payload::Tool(ToolEvent::Completed {
                call_seq: 1,
                result: ToolOutput {
                    content: vec![
                        Content::Text("wrote a.rs".into()),
                        Content::TextView { text: "DIFF".into(), audience: "ui".into() },
                        Content::Text("[diagnostics: a.rs] err".into()),
                    ],
                    is_error: false,
                    error_code: None,
                },
            }),
        ),
    ];
    let view = fold_view(&events);
    let ViewItem::Tool { result, diagnostics, view, .. } = &view.items[0] else { panic!("tool card") };
    assert_eq!(result.as_deref(), Some("wrote a.rs"));
    assert_eq!(diagnostics.as_deref(), Some("[diagnostics: a.rs] err"));
    assert_eq!(view.as_deref(), Some("DIFF"));
}

#[test]
fn non_conversation_payloads_are_skipped() {
    let events = vec![
        ev(0, Payload::Session),
        ev(1, Payload::Model(ModelEvent::RequestStarted { request_id: "r".into(), model: "m".into() })),
        ev(2, Payload::Model(ModelEvent::RequestCompleted { request_id: "r".into(), usage: Usage::default() })),
        ev(3, Payload::Error(ErrorDetail { code: "x".into(), message: "boom".into() })),
    ];
    let view = fold_view(&events);
    assert_eq!(view.items.len(), 1);
    let ViewItem::Error { message, .. } = &view.items[0] else { panic!("error item") };
    assert_eq!(message, "boom");
}

#[test]
fn turn_running_tracks_the_lifecycle() {
    let running = fold_view(&vec![turn_started(1, "t", "go")]);
    assert!(running.turn_running);
    let done = fold_view(&vec![turn_started(1, "t", "go"), turn_completed(2, "t")]);
    assert!(!done.turn_running);
    let rearmed = fold_view(&vec![turn_started(1, "t", "one"), turn_completed(2, "t"), turn_started(3, "t2", "two")]);
    assert!(rearmed.turn_running);
}

#[test]
fn runtime_models_are_collected_deduped() {
    let started = |seq: u64, model: &str| {
        ev(seq, Payload::Model(ModelEvent::RequestStarted { request_id: format!("r{seq}"), model: model.into() }))
    };
    let view = fold_view(&vec![started(1, "sonnet"), started(2, "sonnet"), started(3, "haiku"), started(4, "sonnet")]);
    assert_eq!(view.runtime_models, ["sonnet", "haiku"]);
    assert!(fold_view(&vec![]).runtime_models.is_empty());
}

#[test]
fn failed_tool_marks_the_card_errored() {
    let events = vec![
        block(1, tool_call("c1", "shell", "{}")),
        ev(2, Payload::Tool(ToolEvent::Failed {
            call_seq: 1,
            error: ErrorDetail { code: "cancelled".into(), message: "turn cancelled by user".into() },
        })),
    ];
    let view = fold_view(&events);
    let ViewItem::Tool { status, error_code, result, .. } = &view.items[0] else { panic!("tool card") };
    assert_eq!(*status, ViewToolStatus::Error);
    assert_eq!(error_code.as_deref(), None);
    assert_eq!(result.as_deref(), Some("turn cancelled by user"));
}

#[test]
fn plan_json_decodes_init_and_ops() {
    let init = Json::Object(vec![
        ("op".into(), Json::Str("init".into())),
        (
            "steps".into(),
            Json::Array(vec![Json::Object(vec![("content".into(), Json::Str("a".into()))])]),
        ),
    ]);
    assert_eq!(plan_from_json(&init), Some(PlanOp::Init { steps: vec!["a".to_owned()] }));
    let ops = Json::Object(vec![(
        "ops".into(),
        Json::Array(vec![Json::Object(vec![
            ("op".into(), Json::Str("start".into())),
            ("id".into(), Json::Str("1".into())),
        ])]),
    )]);
    assert_eq!(plan_from_json(&ops), Some(PlanOp::Ops { ops: vec![LeafOp::Start { id: "1".to_owned() }] }));
    assert_eq!(plan_from_json(&Json::Null), None);
    let steps = init_steps(vec!["x".to_owned(), "y".to_owned()]);
    assert_eq!(steps[1].id, "2");
    assert_eq!(steps[0].status, ViewPlanStatus::Pending);
}
