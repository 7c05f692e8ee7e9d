use ominiforge::lsp::{
    builtin_servers, default_diag_timeout_ms, default_enabled, default_init_timeout_ms,
    language_id_for, render_diagnostics, Diagnostic, DiagnosticSeverity, LspConfig,
    LspServerConfig, Position, Range, RENDER_CAP,
};
use std::collections::HashSet;

fn server(name: &str, command: &str, exts: &[&str], enabled: bool) -> LspServerConfig {
    LspServerConfig {
        name: name.to_owned(),
        command: command.to_owned(),
        args: vec![],
        env: vec![],
        extensions: exts.iter().map(|e| (*e).to_owned()).collect(),
        enabled,
        diag_timeout_ms: default_diag_timeout_ms(),
        init_timeout_ms: default_init_timeout_ms(),
    }
}

fn diag(line: u32, character: u32, severity: Option<DiagnosticSeverity>, message: &str) -> Diagnostic {
    Diagnostic {
        range: Range {
            start: Position { line, character },
            end: Position { line, character: character + 1 },
        },
        severity,
        message: message.to_owned(),
    }
}

#[test]
fn builtins_are_well_formed() {
    let servers = builtin_servers();
    assert!(!servers.is_empty());
    let mut names = HashSet::new();
    for s in &servers {
        assert!(names.insert(&s.name), "duplicate builtin name {}", s.name);
        assert!(!s.extensions.is_empty(), "{} claims no extension", s.name);
        assert!(s.enabled);
    }
}

#[test]
fn python_has_multiple_servers() {
    let servers = builtin_servers();
    let py = servers.iter().filter(|s| s.extensions.iter().any(|e| e == "py")).count();
    assert!(py >= 2, "expected pyright + ruff for py");
}

#[test]
fn language_id_maps_known_extensions() {
    assert_eq!(language_id_for("rs"), "rust");
    assert_eq!(language_id_for("py"), "python");
    assert_eq!(language_id_for("ts"), "typescript");
    assert_eq!(language_id_for("toml"), "toml");
}

#[test]
fn render_is_one_based_and_labeled() {
    assert_eq!(render_diagnostics("lib.rs", &[]), "");
    let diags = vec![Diagnostic {
        range: Range {
            start: Position { line: 4, character: 8 },
            end: Position { line: 4, character: 12 },
        },
        severity: Some(DiagnosticSeverity::Error),
        message: "mismatched types".to_owned(),
    }];
    let rendered = render_diagnostics("src/lib.rs", &diags);
    assert!(rendered.contains("[diagnostics: src/lib.rs] 1 issue(s)"));
    assert!(rendered.contains("5:9 error: mismatched types"));
}

#[test]
fn render_caps_long_lists_and_reports_true_total() {
    let one = |line: u32| Diagnostic {
        range: Range { start: Position { line, character: 0 }, end: Position { line, character: 1 } },
        severity: Some(DiagnosticSeverity::Warning),
        message: format!("issue {line}"),
    };
    let diags: Vec<Diagnostic> = (0..30).map(one).collect();
    let rendered = render_diagnostics("big.rs", &diags);
    assert!(rendered.contains("[diagnostics: big.rs] 30 issue(s)"));
    assert!(rendered.contains("… and 10 more (lines 21-30)"));
    assert_eq!(rendered.matches("warning:").count(), RENDER_CAP);
}

#[test]
fn render_keeps_input_order_and_labels_every_severity() {
    let diags = vec![
        diag(2, 0, None, "d"),
        diag(0, 3, Some(DiagnosticSeverity::Hint), "c"),
        diag(0, 1, Some(DiagnosticSeverity::Information), "b"),
    ];
    assert_eq!(
        render_diagnostics("a.rs", &diags),
        "\n[diagnostics: a.rs] 3 issue(s)\n  3:1 diagnostic: d\n  1:4 hint: c\n  1:2 info: b"
    );
    let multi = vec![diag(0, 0, Some(DiagnosticSeverity::Error), "two\nlines")];
    assert_eq!(render_diagnostics("m.rs", &multi), "\n[diagnostics: m.rs] 1 issue(s)\n  1:1 error: two lines");
}

#[test]
fn missing_everywhere_yields_builtins() {
    let config = LspConfig::merged(&vec![]);
    assert_eq!(config.servers.len(), builtin_servers().len());
    assert!(config.servers.iter().all(|s| s.enabled));
}

#[test]
fn higher_root_shadows_same_name() {
    let high = LspConfig { servers: vec![server("shared", "high-cmd", &["rs"], true)] };
    let low = LspConfig { servers: vec![server("shared", "low-cmd", &["rs"], true)] };
    let config = LspConfig::merged(&vec![high, low]);
    let shared = config.servers.iter().find(|s| s.name == "shared").unwrap();
    assert_eq!(shared.command, "high-cmd");
    assert_eq!(config.servers.iter().filter(|s| s.name == "shared").count(), 1);
}

#[test]
fn enabled_false_disables_builtin() {
    let layer = LspConfig { servers: vec![server("rust-analyzer", "rust-analyzer", &["rs"], false)] };
    let config = LspConfig::merged(&vec![layer]);
    assert!(
        !config.servers.iter().any(|s| s.name == "rust-analyzer"),
        "disabled builtin should be dropped"
    );
    assert!(config.servers.iter().any(|s| s.name == "pyright"));
}

#[test]
fn higher_layer_overrides_builtin_fields() {
    let layer = LspConfig { servers: vec![server("rust-analyzer", "ra-wrapper", &["rs"], true)] };
    let config = LspConfig::merged(&vec![layer]);
    let ra = config.servers.iter().find(|s| s.name == "rust-analyzer").unwrap();
    assert_eq!(ra.command, "ra-wrapper");
    assert_eq!(config.servers.len(), builtin_servers().len());
}

#[test]
fn files_route_to_the_first_claiming_server() {
    let config = LspConfig {
        servers: vec![server("a", "a", &["rs"], true), server("b", "b", &["py", "rs"], true)],
    };
    assert_eq!(config.server_for("/ws/src/main.rs"), Some(0));
    assert_eq!(config.server_for("/ws/x.py"), Some(1));
    assert_eq!(config.server_for("/ws/Makefile"), None);
    assert_eq!(config.server_for("/ws/a.go"), None);
    assert!(LspConfig::default().servers.is_empty());
    assert!(default_enabled());
    assert_eq!(default_diag_timeout_ms(), 400);
    assert_eq!(default_init_timeout_ms(), 2_000);
}

#[test]
fn severity_labels() {
    assert_eq!(DiagnosticSeverity::Error.label(), "error");
    assert_eq!(DiagnosticSeverity::Warning.label(), "warning");
    assert_eq!(DiagnosticSeverity::Information.label(), "info");
    assert_eq!(DiagnosticSeverity::Hint.label(), "hint");
}

#[test]
fn omitted_lines_are_sorted_into_runs() {
    let mut diags: Vec<Diagnostic> =
        (0..RENDER_CAP).map(|_| diag(0, 0, Some(DiagnosticSeverity::Error), "x")).collect();
    for line in [8, 2, 3, 4] {
        diags.push(diag(line, 0, Some(DiagnosticSeverity::Error), "y"));
    }
    let rendered = render_diagnostics("f.rs", &diags);
    assert!(rendered.ends_with("\n  … and 4 more (lines 3-5, 9)"));
    assert!(rendered.starts_with("\n[diagnostics: f.rs] 24 issue(s)"));
}

#[test]
fn omitted_lines_past_the_cap_count_from_one_without_wrapping() {
    let mut diags: Vec<Diagnostic> = (0..RENDER_CAP as u32)
        .map(|line| diag(line, 0, Some(DiagnosticSeverity::Warning), "w"))
        .collect();
    diags.push(diag(u32::MAX, 0, Some(DiagnosticSeverity::Error), "far"));
    let rendered = render_diagnostics("edge.rs", &diags);
    assert!(rendered.contains("[diagnostics: edge.rs] 21 issue(s)"));
    assert!(rendered.ends_with("… and 1 more (lines 4294967296)"));
}
