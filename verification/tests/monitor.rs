use ominiforge::event::{
    ErrorDetail, Event, ModelEvent, Payload, Timestamp, ToolEvent, ToolOutput, TurnEvent, Usage,
};
use ominiforge::monitor::{Monitor, SessionTally};

fn at(seq: u64, secs: i64, payload: Payload) -> Event {
    Event { seq, timestamp: Timestamp { secs, nanos: 0 }, turn_id: None, payload }
}

fn ev(seq: u64, payload: Payload) -> Event {
    at(seq, 1_000, payload)
}

fn started(input: &str) -> Payload {
    Payload::Turn(TurnEvent::Started { turn_id: "t".to_owned(), input: Some(input.to_owned()) })
}

fn request_started(id: &str, model: &str) -> Payload {
    Payload::Model(ModelEvent::RequestStarted { request_id: id.to_owned(), model: model.to_owned() })
}

fn request_completed(id: &str, usage: Usage) -> Payload {
    Payload::Model(ModelEvent::RequestCompleted { request_id: id.to_owned(), usage })
}

fn tool_started(name: &str) -> Payload {
    Payload::Tool(ToolEvent::Started { call_seq: 0, tool_name: name.to_owned() })
}

fn tool_completed() -> Payload {
    Payload::Tool(ToolEvent::Completed {
        call_seq: 0,
        result: ToolOutput { content: vec![], is_error: false, error_code: None },
    })
}

fn tool_failed(code: &str) -> Payload {
    Payload::Tool(ToolEvent::Failed {
        call_seq: 0,
        error: ErrorDetail { code: code.to_owned(), message: "failed".to_owned() },
    })
}

fn usage(input: u32, output: u32, cache_read: u32) -> Usage {
    Usage { input_tokens: input, output_tokens: output, cache_read_tokens: cache_read, cache_write_tokens: 0 }
}

fn run(events: &[Event]) -> (SessionTally, Vec<(String, Usage)>) {
    let mut m = Monitor::new();
    let mut priced = Vec::new();
    for e in events {
        assert!(m.can_observe(e));
        if let Some(p) = m.observe(e) {
            priced.push(p);
        }
    }
    (m.tally(), priced)
}

fn count(table: &[(String, u64)], key: &str) -> Option<u64> {
    table.iter().find(|(k, _)| k == key).map(|(_, n)| *n)
}

#[test]
fn first_user_input_captures_opening_turn_only() {
    let events = vec![
        ev(0, started("fix the auth bug")),
        ev(1, request_started("r1", "gpt-4o")),
        ev(2, started("now add a test")),
    ];
    let (summary, _) = run(&events);
    assert_eq!(summary.total_turns, 2);
    assert_eq!(summary.first_user_input.as_deref(), Some("fix the auth bug"));
}

#[test]
fn first_user_input_is_none_without_real_input() {
    let blank = Payload::Turn(TurnEvent::Started { turn_id: "t".to_owned(), input: Some("   ".to_owned()) });
    let (summary, _) = run(&[ev(0, blank)]);
    assert_eq!(summary.total_turns, 1);
    assert_eq!(summary.first_user_input, None);
}

#[test]
fn last_user_message_at_tracks_the_latest_user_turn() {
    let t0 = 1_784_106_000; // 2026-07-15 09:00:00 UTC
    let t2 = 1_784_111_400; // 2026-07-15 10:30:00 UTC
    let events = vec![
        at(0, t0, started("fix the auth bug")),
        at(1, t0, request_started("r1", "gpt-4o")),
        at(2, t2, started("now add a test")),
    ];
    let (summary, _) = run(&events);
    assert_eq!(summary.first_user_input.as_deref(), Some("fix the auth bug"));
    assert_eq!(summary.last_user_message_at, Some(Timestamp { secs: t2, nanos: 0 }));
}

#[test]
fn last_user_message_at_ignores_blank_input() {
    let t0 = 1_784_106_000;
    let t1 = 1_784_106_300;
    let blank = Payload::Turn(TurnEvent::Started { turn_id: "t".to_owned(), input: Some("   ".to_owned()) });
    let (summary, _) = run(&[at(0, t0, started("real message")), at(1, t1, blank)]);
    assert_eq!(summary.last_user_message_at, Some(Timestamp { secs: t0, nanos: 0 }));
}

#[test]
fn aggregates_turns_requests_tokens_and_cost() {
    let events = vec![
        ev(0, started("hi")),
        ev(1, request_started("r1", "gpt-4o")),
        ev(2, request_completed("r1", usage(1000, 200, 250))),
        ev(3, tool_started("read")),
        ev(4, tool_completed()),
        ev(5, started("again")),
        ev(6, request_started("r2", "gpt-4o")),
        ev(7, request_completed("r2", usage(1000, 100, 0))),
    ];
    let (summary, priced) = run(&events);
    assert_eq!(summary.total_turns, 2);
    assert_eq!(summary.total_model_requests, 2);
    assert_eq!(summary.total_tool_calls, 1);
    assert_eq!(summary.total_tool_failures, 0);
    assert_eq!(summary.total_input_tokens, 2000);
    assert_eq!(summary.total_output_tokens, 300);
    assert_eq!(summary.total_cache_read_tokens, 250);
    assert_eq!(count(&summary.tools_used, "read"), Some(1));
    // Both completions are handed back with their model for pricing.
    assert_eq!(
        priced,
        vec![("gpt-4o".to_owned(), usage(1000, 200, 250)), ("gpt-4o".to_owned(), usage(1000, 100, 0))]
    );
}

#[test]
fn unpriced_model_yields_none_cost_not_zero() {
    // A completion whose request never started has no model to price.
    let (summary, priced) = run(&[ev(0, request_completed("r1", usage(500, 50, 10)))]);
    assert_eq!(summary.total_input_tokens, 500);
    assert!(priced.is_empty());
}

#[test]
fn counts_tool_failures_and_errors_by_code() {
    let events = vec![
        ev(0, tool_started("shell")),
        ev(1, tool_failed("execution_failed")),
        ev(2, Payload::Error(ErrorDetail { code: "model_transport".to_owned(), message: "dropped".to_owned() })),
    ];
    let (summary, _) = run(&events);
    assert_eq!(summary.total_tool_calls, 1);
    assert_eq!(summary.total_tool_failures, 1);
    assert_eq!(count(&summary.errors, "execution_failed"), Some(1));
    assert_eq!(count(&summary.errors, "model_transport"), Some(1));
}

#[test]
fn empty_stream_is_zero_summary() {
    let (summary, priced) = run(&[]);
    assert_eq!(
        summary,
        SessionTally {
            total_turns: 0,
            total_model_requests: 0,
            total_tool_calls: 0,
            total_tool_failures: 0,
            total_input_tokens: 0,
            total_output_tokens: 0,
            total_cache_read_tokens: 0,
            first_user_input: None,
            last_user_message_at: None,
            tools_used: vec![],
            errors: vec![],
        }
    );
    assert!(priced.is_empty());
}

#[test]
fn repeated_tools_accumulate_per_name() {
    let events = vec![
        ev(0, tool_started("read")),
        ev(1, tool_started("write")),
        ev(2, tool_started("read")),
        ev(3, Payload::Other),
    ];
    let (summary, _) = run(&events);
    assert_eq!(summary.total_tool_calls, 3);
    assert_eq!(count(&summary.tools_used, "read"), Some(2));
    assert_eq!(count(&summary.tools_used, "write"), Some(1));
}
