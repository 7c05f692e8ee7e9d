use ominiforge::event::Timestamp;
use ominiforge::session::{generate, Origin, OriginKind, SessionId, SessionMeta};
use ominiforge::workspace::{fnv1a_hex, group_sessions, WorkspaceId, WorkspaceRegistry};

fn meta(id: &str, workspace: Option<&str>, created_at: i64) -> SessionMeta {
    SessionMeta {
        id: SessionId(id.to_owned()),
        profile_id: None,
        model: None,
        created_at: Timestamp { secs: created_at, nanos: 0 },
        workspace: workspace.map(str::to_owned),
        origin: Origin::new(),
        archived: false,
    }
}

#[test]
fn from_path_produces_stable_hash() {
    let path = "/home/user/project";
    let id1 = WorkspaceId::from_path(path);
    let id2 = WorkspaceId::from_path(path);
    assert_eq!(id1, id2);
    assert_eq!(id1.0.len(), 16);
}

#[test]
fn different_paths_produce_different_ids() {
    let id1 = WorkspaceId::from_path("/home/user/proj1");
    let id2 = WorkspaceId::from_path("/home/user/proj2");
    assert_ne!(id1, id2);
}

#[test]
fn none_id_is_sentinel() {
    assert_eq!(WorkspaceId::none().0, "none");
}

#[test]
fn group_sessions_clusters_by_workspace() {
    let metas = vec![
        meta("s1", Some("/home/user/proj1"), 100),
        meta("s2", Some("/home/user/proj1"), 200),
        meta("s3", Some("/home/user/proj2"), 150),
        meta("s4", None, 50),
    ];

    let groups = group_sessions(metas);
    assert_eq!(groups.len(), 3);

    let proj1 = groups.iter().find(|g| g.path.as_deref() == Some("/home/user/proj1")).unwrap();
    assert_eq!(proj1.session_count, 2);
    assert_eq!(&proj1.latest_session_time.as_deref().unwrap()[..10], "1970-01-01");

    assert_eq!(groups.last().unwrap().id.0, "none");
}

#[test]
fn group_sessions_sorts_by_recent_activity() {
    let metas = vec![
        meta("s1", Some("/old"), 100),
        meta("s2", Some("/recent"), 300),
        meta("s3", Some("/middle"), 200),
    ];

    let groups = group_sessions(metas);
    assert_eq!(groups[0].path.as_deref(), Some("/recent"));
    assert_eq!(groups[1].path.as_deref(), Some("/middle"));
    assert_eq!(groups[2].path.as_deref(), Some("/old"));
}

#[test]
fn none_group_always_pinned_last() {
    let metas = vec![meta("s1", None, 500), meta("s2", Some("/proj"), 100)];

    let groups = group_sessions(metas);
    assert_eq!(groups.len(), 2);
    assert_eq!(groups[0].path.as_deref(), Some("/proj"));
    assert_eq!(groups[1].id.0, "none");
}

#[test]
fn registry_seeds_from_session_metas() {
    let mut reg = WorkspaceRegistry::from_entries("workspaces.json".to_owned(), vec![]);

    let metas = vec![
        meta("s1", Some("/home/user/proj-a"), 100),
        meta("s2", Some("/home/user/proj-a"), 200),
        meta("s3", Some("/home/user/proj-b"), 150),
        meta("s4", None, 50),
    ];
    assert!(reg.seed_from_metas(&metas));

    let a = WorkspaceId::from_path("/home/user/proj-a");
    let b = WorkspaceId::from_path("/home/user/proj-b");
    assert_eq!(reg.path_for(&a), Some("/home/user/proj-a".to_owned()));
    assert_eq!(reg.path_for(&b), Some("/home/user/proj-b".to_owned()));
    assert_eq!(reg.path_for(&WorkspaceId::none()), None);
    assert_eq!(reg.entries().len(), 2);
    // A second pass learns nothing new.
    assert!(!reg.seed_from_metas(&metas));
}

#[test]
fn fnv1a_is_stable_for_known_vectors() {
    assert_eq!(fnv1a_hex(b""), "cbf29ce484222325");
    assert_eq!(fnv1a_hex(b"a"), "af63dc4c8601ec8c");
    assert_eq!(
        WorkspaceId::from_path("/home/user/proj").0,
        WorkspaceId::from_path("/home/user/proj").0
    );
}

#[test]
fn load_discards_entries_with_mismatched_ids() {
    let valid_path = "/home/user/keep";
    let valid_id = WorkspaceId::from_path(valid_path).0;
    let reg = WorkspaceRegistry::from_entries(
        "workspaces.json".to_owned(),
        vec![
            (valid_id.clone(), valid_path.to_owned()),
            ("deadbeefdeadbeef".to_owned(), "/home/user/drop".to_owned()),
        ],
    );
    assert_eq!(reg.path_for(&WorkspaceId(valid_id)), Some(valid_path.to_owned()));
    assert_eq!(reg.path_for(&WorkspaceId("deadbeefdeadbeef".to_owned())), None);
    assert_eq!(reg.store_path(), "workspaces.json");
}

#[test]
fn record_then_path_for_round_trips() {
    let mut reg = WorkspaceRegistry::from_entries("workspaces.json".to_owned(), vec![]);
    let id = reg.record_canonical("/srv/proj");
    assert_eq!(id, WorkspaceId::from_path("/srv/proj"));
    assert_eq!(reg.path_for(&id), Some("/srv/proj".to_owned()));
    let again = reg.record_canonical("/srv/proj");
    assert_eq!(again, id);
    assert_eq!(reg.entries().len(), 1);
}

#[test]
fn group_times_are_rfc3339() {
    let groups = group_sessions(vec![meta("s1", Some("/p"), 86_400)]);
    assert_eq!(groups[0].latest_session_time.as_deref(), Some("1970-01-02T00:00:00+00:00"));
    assert_eq!(groups[0].id, WorkspaceId::from_path("/p"));
}

#[test]
fn generated_ids_are_26_char_and_unique() {
    let a = generate();
    let b = generate();
    assert_eq!(a.0.len(), 26);
    assert_ne!(a, b);
}

#[test]
fn origins_agree_with_their_kind() {
    let o = Origin::new();
    assert_eq!(o.kind, OriginKind::New);
    assert!(o.parent_id.is_none() && o.fork_at_seq.is_none());
    let f = Origin::fork(SessionId("p".to_owned()), 7);
    assert_eq!(f.kind, OriginKind::Fork);
    assert_eq!(f.parent_id, Some(SessionId("p".to_owned())));
    assert_eq!(f.fork_at_seq, Some(7));
    let c = Origin::compaction(SessionId("p".to_owned()));
    assert_eq!(c.kind, OriginKind::Compaction);
    assert!(c.fork_at_seq.is_none());
    let r = Origin::reconfiguration(SessionId("q".to_owned()));
    assert_eq!(r.kind, OriginKind::Reconfiguration);
    assert_eq!(Origin::default(), Origin::new());
}

#[test]
fn every_registry_id_is_the_hash_of_its_path() {
    let kept = "/home/user/kept";
    let mut reg = WorkspaceRegistry::from_entries(
        "workspaces.json".to_owned(),
        vec![
            (WorkspaceId::from_path(kept).0, kept.to_owned()),
            ("0123456789abcdef".to_owned(), "/home/user/stale".to_owned()),
        ],
    );
    reg.record_canonical("/srv/recorded");
    reg.seed_from_metas(&vec![meta("s1", Some("/srv/seeded"), 1), meta("s2", None, 2)]);
    assert_eq!(reg.entries().len(), 3);
    for (id, path) in reg.entries() {
        assert_eq!(WorkspaceId::from_path(path).0, *id);
        assert_eq!(reg.path_for(&WorkspaceId(id.clone())), Some(path.clone()));
    }
}
