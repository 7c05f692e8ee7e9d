//! Live activity status per session: the current status of each session
//! (last write wins), as a session list shows it. Broadcasting each change
//! to subscribers is the caller's.

use vstd::prelude::*;

use crate::session::SessionId;
use crate::text::str_eq;
use crate::workspace::WorkspaceId;

verus! {

broadcast use vstd::std_specs::vec::group_vec_axioms;

/// What a session is doing right now.
#[derive(Debug, Clone, Copy, PartialEq, Eq, Structural)]
pub enum ActivityStatus {
    Running,
    AwaitingApproval,
    Idle,
}

/// One session's live status.
#[derive(Debug, Clone, PartialEq, Eq)]
pub struct SessionStatus {
    pub session_id: SessionId,
    pub workspace_id: WorkspaceId,
    pub status: ActivityStatus,
    /// The seq of the last committed event.
    pub latest_seq: u64,
}

/// The mathematical form of a [`SessionStatus`] (without its session id).
pub struct StatusV {
    pub workspace_id: Seq<char>,
    pub status: ActivityStatus,
    pub latest_seq: u64,
}

/// The status a record carries.
pub open spec fn status_view(s: SessionStatus) -> StatusV {
    StatusV { workspace_id: s.workspace_id.0@, status: s.status, latest_seq: s.latest_seq }
}

/// The map from session id to status a list of records denotes.
pub open spec fn status_map(s: Seq<SessionStatus>) -> Map<Seq<char>, StatusV>
    decreases s.len(),
{
    if s.len() == 0 {
        Map::empty()
    } else {
        status_map(s.drop_last()).insert(s.last().session_id.0@, status_view(s.last()))
    }
}

/// No session occurs twice.
pub open spec fn unique_sessions(s: Seq<SessionStatus>) -> bool {
    forall|i: int, j: int|
        0 <= i < j < s.len() ==> (#[trigger] s[i]).session_id.0@ != (#[trigger] s[j]).session_id.0@
}

proof fn lemma_status_map_lookup(s: Seq<SessionStatus>)
    requires
        unique_sessions(s),
    ensures
        forall|k: Seq<char>| #[trigger] status_map(s).contains_key(k) <==> exists|i: int| 0 <= i < s.len() && (#[trigger] s[i]).session_id.0@ == k,
        forall|i: int| 0 <= i < s.len() ==> #[trigger] status_map(s)[s[i].session_id.0@] == status_view(s[i]),
    decreases s.len(),
{
    if s.len() > 0 {
        let t = s.drop_last();
        let n = s.len() - 1;
        assert forall|a: int, b: int| 0 <= a < b < t.len() implies (#[trigger] t[a]).session_id.0@
            != (#[trigger] t[b]).session_id.0@ by {
            assert(s[a].session_id.0@ != s[b].session_id.0@);
        }
        lemma_status_map_lookup(t);
        assert forall|k: Seq<char>| #[trigger] status_map(s).contains_key(k) implies exists|i: int| 0 <= i < s.len() && (#[trigger] s[i]).session_id.0@ == k by {
            if k == s[n].session_id.0@ {
                assert(s[n].session_id.0@ == k);
            } else {
                assert(status_map(t).contains_key(k));
                let i = choose|i: int| 0 <= i < t.len() && (#[trigger] t[i]).session_id.0@ == k;
                assert(s[i] == t[i]);
            }
        }
        assert forall|k: Seq<char>| (exists|i: int| 0 <= i < s.len() && (#[trigger] s[i]).session_id.0@ == k) implies #[trigger] status_map(s).contains_key(k) by {
            let i = choose|i: int| 0 <= i < s.len() && (#[trigger] s[i]).session_id.0@ == k;
            if i < n {
                assert(t[i] == s[i]);
                assert(status_map(t).contains_key(k));
            }
        }
        assert forall|i: int| 0 <= i < s.len() implies #[trigger] status_map(s)[s[i].session_id.0@] == status_view(s[i]) by {
            if i < n {
                assert(t[i] == s[i]);
                assert(s[i].session_id.0@ != s[n].session_id.0@);
                assert(status_map(t)[t[i].session_id.0@] == status_view(t[i]));
            }
        }
    }
}

proof fn lemma_status_map_update(s: Seq<SessionStatus>, i: int, e: SessionStatus)
    requires
        unique_sessions(s),
        0 <= i < s.len(),
        s[i].session_id.0@ == e.session_id.0@,
    ensures
        status_map(s.update(i, e)) == status_map(s).insert(e.session_id.0@, status_view(e)),
        unique_sessions(s.update(i, e)),
    decreases s.len(),
{
    let u = s.update(i, e);
    if i == s.len() - 1 {
        assert(u.drop_last() =~= s.drop_last());
        assert(status_map(u) =~= status_map(s).insert(e.session_id.0@, status_view(e)));
    } else {
        let t = s.drop_last();
        assert(u.drop_last() =~= t.update(i, e));
        assert forall|a: int, b: int| 0 <= a < b < t.len() implies (#[trigger] t[a]).session_id.0@
            != (#[trigger] t[b]).session_id.0@ by {
            assert(s[a].session_id.0@ != s[b].session_id.0@);
        }
        lemma_status_map_update(t, i, e);
        assert(s.last().session_id.0@ != e.session_id.0@) by {
            assert(s[i].session_id.0@ != s[s.len() - 1].session_id.0@);
        }
        assert(status_map(u) =~= status_map(s).insert(e.session_id.0@, status_view(e)));
    }
    assert forall|a: int, b: int| 0 <= a < b < u.len() implies (#[trigger] u[a]).session_id.0@
        != (#[trigger] u[b]).session_id.0@ by {
        assert(s[a].session_id.0@ != s[b].session_id.0@);
    }
}

fn duplicate_status(s: &SessionStatus) -> (r: SessionStatus)
    ensures
        r == *s,
{
    SessionStatus {
        session_id: SessionId(s.session_id.0.clone()),
        workspace_id: WorkspaceId(s.workspace_id.0.clone()),
        status: s.status,
        latest_seq: s.latest_seq,
    }
}

/// The current status of every session that has published one.
pub struct StatusHub {
    entries: Vec<SessionStatus>,
}

impl View for StatusHub {
    type V = Map<Seq<char>, StatusV>;

    closed spec fn view(&self) -> Map<Seq<char>, StatusV> {
        status_map(self.entries@)
    }
}

impl StatusHub {
    /// Each session has one entry.
    pub closed spec fn well_formed(&self) -> bool {
        unique_sessions(self.entries@)
    }

    /// No session known.
    pub fn new() -> (r: Self)
        ensures
            r.well_formed(),
            r@ == Map::<Seq<char>, StatusV>::empty(),
    {
        StatusHub { entries: Vec::new() }
    }

    fn position(&self, id: &SessionId) -> (r: Option<usize>)
        requires
            self.well_formed(),
        ensures
            match r {
                Some(i) => i < self.entries@.len() && self.entries@[i as int].session_id.0@ == id.0@,
                None => forall|j: int| 0 <= j < self.entries@.len() ==> (#[trigger] self.entries@[j]).session_id.0@ != id.0@,
            },
    {
        let mut i: usize = 0;
        while i < self.entries.len()
            invariant
                i <= self.entries@.len(),
                forall|j: int| 0 <= j < i ==> (#[trigger] self.entries@[j]).session_id.0@ != id.0@,
            decreases self.entries.len() - i,
        {
            if str_eq(self.entries[i].session_id.0.as_str(), id.0.as_str()) {
                return Some(i);
            }
            i += 1;
        }
        None
    }

    /// Record a session's current status, replacing its previous one.
    pub fn publish(&mut self, status: SessionStatus)
        requires
            old(self).well_formed(),
        ensures
            final(self).well_formed(),
            final(self)@ == old(self)@.insert(status.session_id.0@, status_view(status)),
    {
        let ghost s = self.entries@;
        match self.position(&status.session_id) {
            Some(i) => {
                proof {
                    lemma_status_map_update(s, i as int, status);
                }
                self.entries.set(i, status);
            },
            None => {
                self.entries.push(status);
                proof {
                    assert(self.entries@.drop_last() =~= s);
                    assert forall|a: int, b: int| 0 <= a < b < self.entries@.len() implies (#[trigger] self.entries@[a]).session_id.0@
                        != (#[trigger] self.entries@[b]).session_id.0@ by {
                        if b == s.len() {
                            assert(s[a].session_id.0@ != status.session_id.0@);
                        } else {
                            assert(s[a].session_id.0@ != s[b].session_id.0@);
                        }
                    }
                }
            },
        }
    }

    /// Flip a session that is not idle to idle, keeping its workspace and
    /// seq; returns the new status (to broadcast). An unknown or already-idle
    /// session is left alone and nothing is returned.
    pub fn mark_idle(&mut self, id: &SessionId) -> (r: Option<SessionStatus>)
        requires
            old(self).well_formed(),
        ensures
            final(self).well_formed(),
            (!old(self)@.contains_key(id.0@) || old(self)@[id.0@].status == ActivityStatus::Idle) ==> r is None
                && final(self)@ == old(self)@,
            (old(self)@.contains_key(id.0@) && old(self)@[id.0@].status != ActivityStatus::Idle) ==> (r matches Some(
                st,
            ) && st.session_id.0@ == id.0@ && status_view(st) == (StatusV {
                status: ActivityStatus::Idle,
                ..old(self)@[id.0@]
            }) && final(self)@ == old(self)@.insert(id.0@, status_view(st))),
    {
        proof {
            lemma_status_map_lookup(self.entries@);
        }
        match self.position(id) {
            None => None,
            Some(i) => {
                let cur = &self.entries[i];
                if cur.status == ActivityStatus::Idle {
                    return None;
                }
                let next = SessionStatus {
                    session_id: SessionId(cur.session_id.0.clone()),
                    workspace_id: WorkspaceId(cur.workspace_id.0.clone()),
                    status: ActivityStatus::Idle,
                    latest_seq: cur.latest_seq,
                };
                let published = duplicate_status(&next);
                self.publish(next);
                Some(published)
            },
        }
    }

    /// The current status of every known session, one entry each.
    pub fn snapshot(&self) -> (r: Vec<SessionStatus>)
        requires
            self.well_formed(),
        ensures
            unique_sessions(r@),
            status_map(r@) == self@,
    {
        let mut out: Vec<SessionStatus> = Vec::new();
        let mut i: usize = 0;
        while i < self.entries.len()
            invariant
                i <= self.entries@.len(),
                out@ == self.entries@.subrange(0, i as int),
            decreases self.entries.len() - i,
        {
            out.push(duplicate_status(&self.entries[i]));
            i += 1;
        }
        assert(out@ =~= self.entries@);
        out
    }

    /// A session's current activity, if it has published one.
    pub fn status_of(&self, id: &SessionId) -> (r: Option<ActivityStatus>)
        requires
            self.well_formed(),
        ensures
            match r {
                Some(a) => self@.contains_key(id.0@) && self@[id.0@].status == a,
                None => !self@.contains_key(id.0@),
            },
    {
        proof {
            lemma_status_map_lookup(self.entries@);
        }
        match self.position(id) {
            Some(i) => Some(self.entries[i].status),
            None => None,
        }
    }
}

/// The snapshot keeps the last status each session published: publishing
/// twice for one session is publishing the second status once.
pub proof fn law_last_write_wins(m: Map<Seq<char>, StatusV>, a: SessionStatus, b: SessionStatus)
    requires
        a.session_id.0@ == b.session_id.0@,
    ensures
        m.insert(a.session_id.0@, status_view(a)).insert(b.session_id.0@, status_view(b)) == m.insert(
            b.session_id.0@,
            status_view(b),
        ),
{
    assert(m.insert(a.session_id.0@, status_view(a)).insert(b.session_id.0@, status_view(b)) =~= m.insert(
        b.session_id.0@,
        status_view(b),
    ));
}

/// Publishing for one session never changes another session's status.
pub proof fn law_publish_is_per_session(m: Map<Seq<char>, StatusV>, s: SessionStatus, other: Seq<char>)
    requires
        other != s.session_id.0@,
    ensures
        m.insert(s.session_id.0@, status_view(s)).contains_key(other) == m.contains_key(other),
        m.contains_key(other) ==> m.insert(s.session_id.0@, status_view(s))[other] == m[other],
{
}

} // verus!
