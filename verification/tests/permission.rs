use ominiforge::json::Json;
use ominiforge::permission::{Decision, MatchMode, PermissionPolicy, Rule};

fn s(text: &str) -> Json {
    Json::Str(text.to_owned())
}

fn obj(members: Vec<(&str, Json)>) -> Json {
    Json::Object(members.into_iter().map(|(k, v)| (k.to_owned(), v)).collect())
}

fn rule(tool: &str, contains: &[&str]) -> Rule {
    Rule::contains(tool, contains.iter().map(|s| (*s).to_owned()).collect())
}

#[test]
fn empty_policy_allows_everything() {
    let policy = PermissionPolicy::default();
    assert!(policy.is_empty());
    assert_eq!(
        policy.evaluate("shell", &obj(vec![("command", s("rm -rf /"))])),
        Decision::Allow
    );
}

#[test]
fn deny_rule_blocks_matching_command() {
    let policy = PermissionPolicy { deny: vec![rule("shell", &["rm -rf"])], ask: vec![] };
    assert_eq!(
        policy.evaluate("shell", &obj(vec![("command", s("rm -rf /etc"))])),
        Decision::Deny
    );
    assert_eq!(
        policy.evaluate("shell", &obj(vec![("command", s("ls -la"))])),
        Decision::Allow
    );
}

#[test]
fn deny_wins_over_ask() {
    let policy = PermissionPolicy {
        deny: vec![rule("shell", &["rm -rf"])],
        ask: vec![rule("shell", &[])],
    };
    assert_eq!(
        policy.evaluate("shell", &obj(vec![("command", s("rm -rf /"))])),
        Decision::Deny
    );
    assert_eq!(
        policy.evaluate("shell", &obj(vec![("command", s("echo hi"))])),
        Decision::Ask
    );
}

#[test]
fn tool_level_and_wildcard_rules() {
    let tool_level = PermissionPolicy { deny: vec![], ask: vec![rule("write", &[])] };
    assert_eq!(tool_level.evaluate("write", &obj(vec![("path", s("a"))])), Decision::Ask);
    assert_eq!(tool_level.evaluate("read", &obj(vec![("path", s("a"))])), Decision::Allow);

    let wildcard = PermissionPolicy { deny: vec![rule("*", &["/etc/"])], ask: vec![] };
    assert_eq!(
        wildcard.evaluate("write", &obj(vec![("path", s("/etc/passwd"))])),
        Decision::Deny
    );
    assert_eq!(
        wildcard.evaluate("read", &obj(vec![("path", s("/etc/shadow"))])),
        Decision::Deny
    );
}

#[test]
fn matching_recurses_into_nested_values() {
    let policy = PermissionPolicy { deny: vec![rule("shell", &["sudo"])], ask: vec![] };
    assert_eq!(
        policy.evaluate("shell", &obj(vec![("argv", Json::Array(vec![s("sudo"), s("reboot")]))])),
        Decision::Deny
    );
    assert_eq!(
        policy.evaluate("shell", &obj(vec![("sudo", Json::Bool(false)), ("command", s("ls"))])),
        Decision::Allow
    );
}

#[test]
fn field_scoped_rule_ignores_other_fields() {
    let policy = PermissionPolicy {
        deny: vec![Rule {
            tool: "shell".to_owned(),
            field: Some("command".to_owned()),
            patterns: vec!["danger".to_owned()],
            ..Rule::default()
        }],
        ask: vec![],
    };
    assert_eq!(
        policy.evaluate("shell", &obj(vec![("command", s("danger --now"))])),
        Decision::Deny
    );
    assert_eq!(
        policy.evaluate("shell", &obj(vec![("command", s("ls")), ("note", s("danger"))])),
        Decision::Allow
    );
}

#[test]
fn prefix_mode_anchors_at_start() {
    let policy = PermissionPolicy {
        deny: vec![Rule {
            tool: "read".to_owned(),
            field: Some("path".to_owned()),
            mode: MatchMode::Prefix,
            patterns: vec!["/etc/".to_owned()],
            ..Rule::default()
        }],
        ask: vec![],
    };
    assert_eq!(policy.evaluate("read", &obj(vec![("path", s("/etc/passwd"))])), Decision::Deny);
    assert_eq!(policy.evaluate("read", &obj(vec![("path", s("home/x/etc/y"))])), Decision::Allow);
}

#[test]
fn negate_expresses_allowlist() {
    let policy = PermissionPolicy {
        deny: vec![],
        ask: vec![Rule {
            tool: "write".to_owned(),
            field: Some("path".to_owned()),
            mode: MatchMode::Prefix,
            patterns: vec!["src/".to_owned(), "tmp/".to_owned()],
            negate: true,
        }],
    };
    assert_eq!(policy.evaluate("write", &obj(vec![("path", s("etc/shadow"))])), Decision::Ask);
    assert_eq!(policy.evaluate("write", &obj(vec![("path", s("src/main.rs"))])), Decision::Allow);
}

#[test]
fn empty_negate_allowlist_is_inert() {
    let rule = Rule {
        tool: "write".to_owned(),
        field: Some("path".to_owned()),
        mode: MatchMode::Prefix,
        patterns: vec![],
        negate: true,
    };
    assert!(!rule.matches("write", &obj(vec![("path", s("anywhere"))])));
}

#[test]
fn layer_over_unions_deny_and_replaces_ask() {
    let base = PermissionPolicy {
        deny: vec![rule("shell", &["rm -rf"])],
        ask: vec![rule("read", &[])],
    };
    let over = PermissionPolicy { deny: vec![rule("net", &[])], ask: vec![rule("write", &[])] };
    let merged = over.layer_over(base);
    assert_eq!(
        merged.evaluate("shell", &obj(vec![("command", s("rm -rf /"))])),
        Decision::Deny
    );
    assert_eq!(merged.evaluate("net", &obj(vec![])), Decision::Deny);
    assert_eq!(merged.evaluate("read", &obj(vec![("path", s("x"))])), Decision::Allow);
    assert_eq!(merged.evaluate("write", &obj(vec![("path", s("x"))])), Decision::Ask);
}

#[test]
fn layer_over_empty_override_inherits_base() {
    let base = PermissionPolicy {
        deny: vec![rule("shell", &["rm -rf"])],
        ask: vec![rule("write", &[])],
    };
    let merged = PermissionPolicy::default().layer_over(base.clone());
    assert_eq!(merged, base);
}

#[test]
fn layering_collapses_a_repeated_denial() {
    let base = PermissionPolicy { deny: vec![rule("shell", &["rm -rf"])], ask: vec![] };
    let over = PermissionPolicy {
        deny: vec![rule("shell", &["rm -rf"]), rule("net", &[])],
        ask: vec![],
    };
    let merged = over.layer_over(base);
    assert_eq!(merged.deny, vec![rule("shell", &["rm -rf"]), rule("net", &[])]);
}

#[test]
fn layering_twice_changes_nothing_more() {
    let base = PermissionPolicy {
        deny: vec![rule("shell", &["rm -rf"])],
        ask: vec![rule("read", &[])],
    };
    let over = PermissionPolicy { deny: vec![rule("net", &[])], ask: vec![rule("write", &[])] };
    let once = over.clone().layer_over(base);
    let twice = over.layer_over(once.clone());
    assert_eq!(once, twice);
}

#[test]
fn substring_rule_misses_numbers_and_keys() {
    let policy = PermissionPolicy { deny: vec![rule("calc", &["42"])], ask: vec![] };
    assert_eq!(
        policy.evaluate("calc", &obj(vec![("42", Json::Number("42".to_owned()))])),
        Decision::Allow
    );
    assert_eq!(policy.evaluate("calc", &obj(vec![("x", s("1042"))])), Decision::Deny);
}

#[test]
fn rule_duplicate_is_equal() {
    let r = Rule {
        tool: "write".to_owned(),
        field: Some("path".to_owned()),
        mode: MatchMode::Prefix,
        patterns: vec!["src/".to_owned()],
        negate: true,
    };
    assert_eq!(r.duplicate(), r);
}

#[test]
fn field_scoped_rule_reads_no_text_from_a_non_string_field() {
    let r = Rule {
        tool: "shell".to_owned(),
        field: Some("argv".to_owned()),
        mode: MatchMode::Substring,
        patterns: vec!["sudo".to_owned()],
        negate: false,
    };
    let input = obj(vec![("argv", Json::Array(vec![s("sudo"), s("reboot")]))]);
    assert!(!r.matches("shell", &input));
    let negated = Rule { negate: true, ..r.clone() };
    assert!(negated.matches("shell", &input));
    assert!(r.matches("shell", &obj(vec![("argv", s("sudo reboot"))])));
}
