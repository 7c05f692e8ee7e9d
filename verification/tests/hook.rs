use ominiforge::hook::{
    after_execution, decision_from_stdout, default_priority, BeforeDecision, BeforeEffect,
    BeforeRun, FailureMode, HookConfig, HookOutcome, HookPoint, HookRegistry, HookRequest,
    HookSpec, ShellHook,
};
use ominiforge::json::Json;

fn spec(name: &str, point: &str, priority: u32) -> HookSpec {
    HookSpec {
        name: name.to_owned(),
        hook_point: point.to_owned(),
        match_tool: None,
        command: "true".to_owned(),
        priority,
        failure_mode: FailureMode::Open,
        timeout_ms: None,
    }
}

fn obj(members: Vec<(&str, Json)>) -> Json {
    Json::Object(members.into_iter().map(|(k, v)| (k.to_owned(), v)).collect())
}

#[test]
fn hook_point_round_trips_string() {
    for p in [
        HookPoint::TurnStart,
        HookPoint::TurnEnd,
        HookPoint::ToolInvokeBefore,
        HookPoint::ToolInvokeAfter,
    ] {
        assert_eq!(HookPoint::parse(p.as_str()), Some(p));
    }
    assert_eq!(HookPoint::parse("model:request:before"), None);
}

#[test]
fn before_points_are_before_after_points_are_after() {
    assert!(HookPoint::TurnStart.is_before());
    assert!(HookPoint::ToolInvokeBefore.is_before());
    assert!(!HookPoint::TurnEnd.is_before());
    assert!(!HookPoint::ToolInvokeAfter.is_before());
}

#[test]
fn into_registry_routes_by_point_and_skips_unknown() {
    let config = HookConfig {
        hooks: vec![
            spec("b", "tool:invoke:before", 100),
            spec("a", "turn:end", 100),
            spec("unknown", "model:request:before", 100),
        ],
    };
    let (registry, skipped) = config.into_registry();
    assert!(!registry.is_empty());
    assert_eq!(skipped.len(), 1, "unknown point reported");
    assert!(skipped[0].contains("model:request:before"));
    assert_eq!(registry.before_chain(HookPoint::ToolInvokeBefore).len(), 1);
    assert_eq!(registry.after_chain(HookPoint::TurnEnd).len(), 1);
    assert!(registry.before_chain(HookPoint::TurnStart).is_empty());
}

#[test]
fn point_names_are_the_wire_names() {
    assert_eq!(HookPoint::TurnStart.as_str(), "turn:start");
    assert_eq!(HookPoint::TurnEnd.as_str(), "turn:end");
    assert_eq!(HookPoint::ToolInvokeBefore.as_str(), "tool:invoke:before");
    assert_eq!(HookPoint::ToolInvokeAfter.as_str(), "tool:invoke:after");
}

#[test]
fn registry_orders_by_priority_then_registration() {
    let mut reg: HookRegistry<&str, &str> = HookRegistry::new();
    assert!(reg.is_empty());
    reg.register_before(HookPoint::TurnStart, 20, "second");
    reg.register_before(HookPoint::TurnStart, 10, "first");
    reg.register_before(HookPoint::TurnStart, 20, "third");
    reg.register_before(HookPoint::ToolInvokeBefore, 1, "elsewhere");
    let chain: Vec<&str> = reg.before_chain(HookPoint::TurnStart).into_iter().copied().collect();
    assert_eq!(chain, vec!["first", "second", "third"]);
    assert!(reg.after_chain(HookPoint::TurnStart).is_empty());
}

#[test]
fn before_chain_blocks_and_stops_recording() {
    let mut run = BeforeRun::new(HookPoint::TurnStart, obj(vec![]), None);
    let stop = run.record("guard", FailureMode::Open, BeforeDecision::Block { reason: "nope".to_owned() }, 3);
    assert!(stop);
    assert!(run.is_stopped());
    let out = run.finish();
    assert_eq!(
        out.effect,
        BeforeEffect::Block { reason: "nope".to_owned(), by: "guard".to_owned() }
    );
    assert_eq!(out.executions.len(), 1);
    assert_eq!(out.executions[0].hook_name, "guard");
    assert_eq!(out.executions[0].outcome, HookOutcome::Blocked { reason: "nope".to_owned() });
}

#[test]
fn before_chain_threads_modify_to_the_next_hook() {
    let mut run = BeforeRun::new(
        HookPoint::ToolInvokeBefore,
        obj(vec![("edited", Json::Bool(false))]),
        Some("write".to_owned()),
    );
    let edited = obj(vec![("edited", Json::Bool(true))]);
    assert!(!run.record("first", FailureMode::Open, BeforeDecision::Modify(obj(vec![("edited", Json::Bool(true))])), 1));
    let req = run.request();
    assert_eq!(req.payload, edited);
    assert_eq!(req.tool_name, Some("write".to_owned()));
    assert!(!run.record("second", FailureMode::Open, BeforeDecision::Pass, 1));
    let out = run.finish();
    assert_eq!(out.effect, BeforeEffect::Proceed(edited));
    assert_eq!(out.executions.len(), 2);
    assert_eq!(out.executions[0].hook_name, "first");
    assert_eq!(out.executions[0].outcome, HookOutcome::Modified);
    assert_eq!(out.executions[1].outcome, HookOutcome::Pass);
}

#[test]
fn failure_mode_governs_blocking() {
    let mut open = BeforeRun::new(HookPoint::TurnStart, obj(vec![]), None);
    let stop = open.record("flaky-open", FailureMode::Open, BeforeDecision::Failed { error: "boom".to_owned() }, 0);
    assert!(!stop);
    let out = open.finish();
    assert!(matches!(out.effect, BeforeEffect::Proceed(_)));
    assert_eq!(out.executions[0].outcome, HookOutcome::Failed { error: "boom".to_owned() });

    let mut closed = BeforeRun::new(HookPoint::TurnStart, obj(vec![]), None);
    assert!(closed.record("flaky-closed", FailureMode::Closed, BeforeDecision::Failed { error: "boom".to_owned() }, 0));
    let out = closed.finish();
    assert_eq!(
        out.effect,
        BeforeEffect::Block {
            reason: "hook `flaky-closed` failed: boom".to_owned(),
            by: "flaky-closed".to_owned()
        }
    );
}

#[test]
fn after_hooks_are_observed_or_failed() {
    let ok = after_execution("notify", HookPoint::TurnEnd, Ok(()), 7);
    assert_eq!(ok.outcome, HookOutcome::Observed);
    assert_eq!(ok.duration_ms, 7);
    let bad = after_execution("notify", HookPoint::TurnEnd, Err("exit 1".to_owned()), 2);
    assert_eq!(bad.outcome, HookOutcome::Failed { error: "exit 1".to_owned() });
    assert_eq!(bad.hook_name, "notify");
}

#[test]
fn match_tool_filters_shell_hook() {
    let mut s = spec("lint-write", "tool:invoke:before", 100);
    s.match_tool = Some("write".to_owned());
    let hook = ShellHook::new(s, HookPoint::ToolInvokeBefore);
    let read = HookRequest {
        hook_point: HookPoint::ToolInvokeBefore,
        payload: obj(vec![]),
        tool_name: Some("read".to_owned()),
    };
    assert!(!hook.matches(&read));
    let write = HookRequest {
        hook_point: HookPoint::ToolInvokeBefore,
        payload: obj(vec![]),
        tool_name: Some("write".to_owned()),
    };
    assert!(hook.matches(&write));
    let untargeted = ShellHook::new(spec("any", "turn:start", 100), HookPoint::TurnStart);
    assert!(untargeted.matches(&read));
}

#[test]
fn shell_hook_timeouts_default_by_point() {
    let before = ShellHook::new(spec("b", "tool:invoke:before", 100), HookPoint::ToolInvokeBefore);
    assert_eq!(before.timeout(), 5000);
    let after = ShellHook::new(spec("a", "turn:end", 100), HookPoint::TurnEnd);
    assert_eq!(after.timeout(), 30000);
    let mut s = spec("c", "turn:end", 100);
    s.timeout_ms = Some(250);
    assert_eq!(ShellHook::new(s, HookPoint::TurnEnd).timeout(), 250);
    assert_eq!(default_priority(), 100);
}

#[test]
fn shell_hook_stdin_carries_point_and_payload() {
    let hook = ShellHook::new(spec("deny", "tool:invoke:before", 100), HookPoint::ToolInvokeBefore);
    let req = HookRequest {
        hook_point: HookPoint::ToolInvokeBefore,
        payload: obj(vec![("cmd", Json::Str("rm -rf /".to_owned()))]),
        tool_name: Some("shell".to_owned()),
    };
    assert_eq!(
        hook.stdin_request(&req),
        obj(vec![
            ("hook_point", Json::Str("tool:invoke:before".to_owned())),
            ("payload", obj(vec![("cmd", Json::Str("rm -rf /".to_owned()))])),
        ])
    );
    assert_eq!(hook.name(), "deny");
    assert_eq!(hook.command(), "true");
    assert_eq!(hook.point(), HookPoint::ToolInvokeBefore);
    assert_eq!(hook.priority(), 100);
    assert_eq!(hook.failure_mode(), FailureMode::Open);
}

#[test]
fn shell_before_block_action() {
    assert_eq!(
        decision_from_stdout("{\"action\":\"block\",\"reason\":\"dangerous\"}\n"),
        BeforeDecision::Block { reason: "dangerous".to_owned() }
    );
}

#[test]
fn stdout_decisions_cover_every_action() {
    assert_eq!(decision_from_stdout("  \n"), BeforeDecision::Pass);
    assert_eq!(decision_from_stdout("{\"action\":\"pass\"}"), BeforeDecision::Pass);
    assert_eq!(
        decision_from_stdout("{\"action\":\"modify\",\"payload\":{\"x\":1}}"),
        BeforeDecision::Modify(obj(vec![("x", Json::Number("1".to_owned()))]))
    );
    assert_eq!(
        decision_from_stdout("{\"action\":\"modify\"}"),
        BeforeDecision::Failed { error: "modify action missing `payload`".to_owned() }
    );
    assert_eq!(
        decision_from_stdout("{\"action\":\"block\"}"),
        BeforeDecision::Block { reason: "blocked by hook".to_owned() }
    );
    assert_eq!(
        decision_from_stdout("{\"action\":\"explode\"}"),
        BeforeDecision::Failed { error: "unknown action: Some(\"explode\")".to_owned() }
    );
    assert_eq!(
        decision_from_stdout("{}"),
        BeforeDecision::Failed { error: "unknown action: None".to_owned() }
    );
    assert_eq!(
        decision_from_stdout("not json"),
        BeforeDecision::Failed { error: "invalid JSON on stdout: not json".to_owned() }
    );
}

#[test]
fn merged_layers_keep_the_first_hook_of_each_name() {
    let high = HookConfig { hooks: vec![spec("shared", "turn:end", 1), spec("only-high", "turn:end", 2)] };
    let low = HookConfig { hooks: vec![spec("shared", "turn:start", 9), spec("only-low", "turn:end", 3)] };
    let merged = HookConfig::merged(&vec![high, low]);
    let names: Vec<&str> = merged.hooks.iter().map(|h| h.name.as_str()).collect();
    assert_eq!(names, vec!["shared", "only-high", "only-low"]);
    assert_eq!(merged.hooks[0].priority, 1);
    assert!(HookConfig::merged(&vec![]).hooks.is_empty());
    assert!(HookConfig::default().hooks.is_empty());
}

#[test]
fn hook_spec_duplicate_is_equal() {
    let mut s = spec("x", "turn:end", 5);
    s.timeout_ms = Some(9);
    s.match_tool = Some("write".to_owned());
    assert_eq!(s.duplicate(), s);
}

#[test]
fn shell_hook_stdin_text_is_compact_json() {
    let hook = ShellHook::new(spec("audit", "tool:invoke:after", 10), HookPoint::ToolInvokeAfter);
    let req = HookRequest {
        hook_point: HookPoint::ToolInvokeAfter,
        payload: obj(vec![
            ("args", Json::Array(vec![Json::Number("1".to_owned()), Json::Bool(true), Json::Null])),
            ("note", Json::Str("say \"hi\"".to_owned())),
            ("tool", Json::Str("shell".to_owned())),
        ]),
        tool_name: Some("shell".to_owned()),
    };
    assert_eq!(
        hook.stdin_text(&req),
        r#"{"hook_point":"tool:invoke:after","payload":{"args":[1,true,null],"note":"say \"hi\"","tool":"shell"}}"#
    );
}
