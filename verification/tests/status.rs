use ominiforge::session::SessionId;
use ominiforge::status::{ActivityStatus, SessionStatus, StatusHub};
use ominiforge::workspace::WorkspaceId;

fn status(id: &str, status: ActivityStatus, seq: u64) -> SessionStatus {
    SessionStatus {
        session_id: SessionId(id.to_owned()),
        workspace_id: WorkspaceId::none(),
        status,
        latest_seq: seq,
    }
}

#[test]
fn snapshot_is_last_write_wins_per_session() {
    let mut hub = StatusHub::new();
    hub.publish(status("s1", ActivityStatus::Running, 1));
    hub.publish(status("s2", ActivityStatus::Running, 1));
    hub.publish(status("s1", ActivityStatus::Idle, 5));

    let mut snap = hub.snapshot();
    snap.sort_by(|a, b| a.session_id.0.cmp(&b.session_id.0));
    assert_eq!(snap.len(), 2, "one entry per session");
    assert_eq!(snap[0].session_id.0, "s1");
    assert_eq!(snap[0].status, ActivityStatus::Idle, "latest wins");
    assert_eq!(snap[0].latest_seq, 5);
    assert_eq!(snap[1].status, ActivityStatus::Running);
}

#[test]
fn mark_idle_transitions_running_to_idle_preserving_seq() {
    let mut hub = StatusHub::new();
    hub.publish(status("s1", ActivityStatus::Running, 9));
    let ev = hub.mark_idle(&SessionId("s1".to_owned())).unwrap();
    assert_eq!(ev.status, ActivityStatus::Idle);
    assert_eq!(ev.latest_seq, 9, "seq is preserved across the idle flip");
    assert_eq!(hub.snapshot()[0].status, ActivityStatus::Idle);
}

#[test]
fn mark_idle_is_noop_when_absent_or_already_idle() {
    let mut hub = StatusHub::new();
    assert!(hub.mark_idle(&SessionId("ghost".to_owned())).is_none());
    assert!(hub.snapshot().is_empty());

    hub.publish(status("s1", ActivityStatus::Idle, 2));
    assert!(
        hub.mark_idle(&SessionId("s1".to_owned())).is_none(),
        "no delta when the session is already idle"
    );
    assert_eq!(hub.snapshot().len(), 1);
}

#[test]
fn status_of_reads_current_or_none() {
    let mut hub = StatusHub::new();
    let s1 = SessionId("s1".to_owned());

    assert_eq!(hub.status_of(&s1), None, "never published → unknown");

    hub.publish(status("s1", ActivityStatus::Running, 1));
    assert_eq!(hub.status_of(&s1), Some(ActivityStatus::Running));

    hub.publish(status("s1", ActivityStatus::Idle, 3));
    assert_eq!(hub.status_of(&s1), Some(ActivityStatus::Idle), "latest wins");
}

#[test]
fn publishing_one_session_leaves_others_alone() {
    let mut hub = StatusHub::new();
    hub.publish(status("a", ActivityStatus::Running, 4));
    hub.publish(status("b", ActivityStatus::Idle, 1));
    hub.publish(status("b", ActivityStatus::Running, 2));
    assert_eq!(hub.status_of(&SessionId("a".to_owned())), Some(ActivityStatus::Running));
    let snap = hub.snapshot();
    let a = snap.iter().find(|s| s.session_id.0 == "a").unwrap();
    assert_eq!(a.latest_seq, 4);
}
