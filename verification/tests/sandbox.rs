use ominiforge::sandbox::{
    boxlite_unavailable, fork_support, BackendKind, ExecOutput, NetworkPolicy, ResourceLimits,
    SandboxBackendChoice, SandboxCapabilities, SandboxError,
};
use ominiforge::workspace::WorkspaceId;
use ominiforge::workspace_config::{
    join_paths, MountAnchors, MountSpec, NetworkSection, WorkspaceConfig, WorkspaceConfigStore,
};
use ominiforge::sandbox::select_backend;

fn anchors(omini: &str) -> MountAnchors {
    MountAnchors { omini: omini.to_owned() }
}

fn spec(anchor: &str, path: Option<&str>, guest: &str, ro: bool) -> MountSpec {
    MountSpec { anchor: anchor.to_owned(), path: path.map(ToOwned::to_owned), guest: guest.to_owned(), ro }
}

#[test]
fn network_policy_maps_names_and_rejects_typos() {
    let hosts = vec!["crates.io".to_owned()];
    assert_eq!(NetworkPolicy::from_policy_name("isolated", &[]).unwrap(), NetworkPolicy::Isolated);
    assert_eq!(NetworkPolicy::from_policy_name("open", &[]).unwrap(), NetworkPolicy::Open);
    assert_eq!(
        NetworkPolicy::from_policy_name("allowlist", &hosts).unwrap(),
        NetworkPolicy::AllowList(hosts.clone())
    );
    assert!(NetworkPolicy::from_policy_name("opne", &hosts).is_err());
}

#[test]
fn unknown_policy_error_names_the_typo() {
    assert_eq!(
        NetworkPolicy::from_policy_name("opne", &[]),
        Err("unknown network policy `opne`; expected `isolated`, `allowlist`, or `open`".to_owned())
    );
    assert_eq!(NetworkPolicy::default(), NetworkPolicy::Isolated);
}

#[test]
fn three_anchors_resolve_to_distinct_roots() {
    let a = anchors("/tmp/gw/.omini");
    let ws = "/tmp/gw/proj";
    let specs = vec![
        spec("session", Some("cache"), "/s", false),
        spec("workspace", None, "/w", true),
        spec("gateway", Some("dl"), "/g", false),
    ];
    let mounts = a.resolve(&specs, "SESS1", ws).unwrap();
    assert_eq!(mounts.len(), 3);

    assert!(mounts[0].host_path.ends_with("sessions/SESS1/work/cache"));
    assert_eq!(mounts[0].guest_path, "/s");
    assert!(!mounts[0].read_only);
    assert!(mounts[1].host_path.ends_with("shared"));
    assert!(mounts[1].host_path.contains("workspaces/"));
    assert!(mounts[1].read_only);
    assert!(mounts[2].host_path.ends_with("shared/dl"));
    assert_eq!(
        mounts[1].host_path,
        format!("/tmp/gw/.omini/workspaces/{}/shared", WorkspaceId::from_path(ws).0)
    );
}

#[test]
fn parent_dir_escape_is_rejected() {
    let a = anchors("/tmp/gw/.omini");
    let specs = vec![spec("gateway", Some("../../etc"), "/x", false)];
    assert!(a.resolve(&specs, "S", "/tmp/gw").is_err());
}

#[test]
fn relative_guest_is_rejected() {
    let a = anchors("/tmp/gw/.omini");
    let specs = vec![spec("session", None, "relative/guest", false)];
    assert!(a.resolve(&specs, "S", "/tmp/gw").is_err());
}

#[test]
fn unknown_anchor_is_rejected() {
    let a = anchors("/tmp/gw/.omini");
    let specs = vec![spec("bogus", None, "/x", false)];
    assert!(a.resolve(&specs, "S", "/tmp/gw").is_err());
}

#[test]
fn mount_errors_name_the_culprit() {
    let a = anchors("/o");
    assert_eq!(
        a.resolve_one(&spec("bogus", None, "/x", false), "S", "/w"),
        Err("unknown mount anchor `bogus`; expected `session`, `workspace`, or `gateway`".to_owned())
    );
    assert_eq!(
        a.resolve_one(&spec("gateway", Some("/abs"), "/x", false), "S", "/w"),
        Err("mount path `/abs` must be a relative subpath without `..`".to_owned())
    );
    assert_eq!(
        a.resolve_one(&spec("gateway", None, "rel", false), "S", "/w"),
        Err("mount guest path `rel` must be absolute".to_owned())
    );
    // A name merely containing dots is not a parent component.
    let ok = a.resolve_one(&spec("gateway", Some("a..b/c"), "/x", true), "S", "/w").unwrap();
    assert_eq!(ok.host_path, "/o/shared/a..b/c");
    // The first bad spec fails the whole set.
    let specs = vec![spec("gateway", None, "/ok", false), spec("nope", None, "/x", false)];
    assert!(a.resolve(&specs, "S", "/w").is_err());
}

#[test]
fn join_follows_path_push() {
    assert_eq!(join_paths("/a", "b"), "/a/b");
    assert_eq!(join_paths("/a/", "b"), "/a/b");
    assert_eq!(join_paths("", "b"), "b");
}

#[test]
fn workspace_network_override_follows_the_section() {
    let none = WorkspaceConfig::default();
    assert_eq!(none.network_override(), Ok(None));
    let no_policy = WorkspaceConfig {
        network: Some(NetworkSection { policy: None, allow: vec![] }),
        mounts: vec![],
    };
    assert_eq!(no_policy.network_override(), Ok(None));
    let isolated = WorkspaceConfig {
        network: Some(NetworkSection { policy: Some("isolated".to_owned()), allow: vec![] }),
        mounts: vec![],
    };
    assert_eq!(isolated.network_override(), Ok(Some(NetworkPolicy::Isolated)));
    let allow = WorkspaceConfig {
        network: Some(NetworkSection {
            policy: Some("allowlist".to_owned()),
            allow: vec!["crates.io".to_owned()],
        }),
        mounts: vec![],
    };
    assert_eq!(
        allow.network_override(),
        Ok(Some(NetworkPolicy::AllowList(vec!["crates.io".to_owned()])))
    );
    let typo = WorkspaceConfig {
        network: Some(NetworkSection { policy: Some("opne".to_owned()), allow: vec![] }),
        mounts: vec![],
    };
    assert_eq!(
        typo.network_override(),
        Err("invalid workspace network policy: unknown network policy `opne`; expected `isolated`, `allowlist`, or `open`".to_owned())
    );
}

#[test]
fn config_store_names_files_by_id() {
    let store = WorkspaceConfigStore::new("/g/.omini/workspaces".to_owned());
    assert_eq!(
        store.path_for_id(&WorkspaceId("abc".to_owned())),
        "/g/.omini/workspaces/abc.toml"
    );
}

#[test]
fn choice_passthrough_builds_passthrough() {
    let (kind, warning) =
        select_backend(SandboxBackendChoice::Passthrough, Err(boxlite_unavailable())).unwrap();
    assert_eq!(kind, BackendKind::Passthrough);
    assert!(warning.is_none());
}

#[test]
fn choice_boxlite_without_feature_fails_loud() {
    let result = select_backend(SandboxBackendChoice::Boxlite, Err(boxlite_unavailable()));
    assert!(matches!(result, Err(SandboxError::Unsupported(_))));
}

#[test]
fn choice_auto_without_feature_warns_and_falls_back() {
    let (kind, warning) = select_backend(SandboxBackendChoice::Auto, Err(boxlite_unavailable())).unwrap();
    assert_eq!(kind, BackendKind::Passthrough);
    assert!(warning.is_some(), "auto fallback must warn");
    assert!(warning.unwrap().contains("falling back to passthrough"));
}

#[test]
fn choices_with_boxlite_available_use_it() {
    assert_eq!(select_backend(SandboxBackendChoice::Auto, Ok(())), Ok((BackendKind::Boxlite, None)));
    assert_eq!(select_backend(SandboxBackendChoice::Boxlite, Ok(())), Ok((BackendKind::Boxlite, None)));
    assert_eq!(SandboxBackendChoice::default(), SandboxBackendChoice::Passthrough);
}

#[test]
fn error_messages_name_their_kind() {
    assert_eq!(SandboxError::Exec("bad".to_owned()).message(), "sandbox exec error: bad");
    assert_eq!(SandboxError::Timeout(1500).message(), "sandbox exec timed out after 1.5s");
    assert_eq!(SandboxError::Snapshot("x".to_owned()).message(), "sandbox snapshot error: x");
    assert_eq!(
        SandboxError::Unsupported("no").message(),
        "sandbox operation unsupported: no"
    );
}

#[test]
fn fork_needs_a_filesystem_snapshot() {
    assert!(matches!(
        fork_support(SandboxCapabilities::default()),
        Err(SandboxError::Unsupported(_))
    ));
    let caps = SandboxCapabilities { filesystem_snapshot: true, ..SandboxCapabilities::default() };
    assert_eq!(fork_support(caps), Ok(()));
}

#[test]
fn exec_output_success_is_exit_zero() {
    let out = |code| ExecOutput { stdout: String::new(), stderr: String::new(), exit_code: code };
    assert!(out(Some(0)).success());
    assert!(!out(Some(1)).success());
    assert!(!out(None).success());
    assert_eq!(ResourceLimits::default().timeout_ms, 120_000);
}
