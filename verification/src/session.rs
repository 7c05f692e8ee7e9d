//! Session metadata: what a session's `session.toml` records, how a session
//! came to exist, and how session ids are minted.

use vstd::prelude::*;

use crate::event::Timestamp;

verus! {

/// A session's id: a ULID, also the session directory's name.
#[derive(Debug, Clone, PartialEq, Eq, Hash)]
pub struct SessionId(pub String);

/// How a session came into being.
#[derive(Debug, Clone, Copy, PartialEq, Eq, Structural)]
pub enum OriginKind {
    /// A user starting a fresh conversation: no parent.
    New,
    /// Branched from a point in another session.
    Fork,
    /// A lossy summary created when the context overflowed.
    Compaction,
    /// A configuration change materialized as a new session.
    Reconfiguration,
}

/// How a session was born: the kind, the parent (absent only for `New`) and
/// the parent's seq it forked at (present only for `Fork`).
#[derive(Debug, Clone, PartialEq, Eq)]
pub struct Origin {
    pub kind: OriginKind,
    pub parent_id: Option<SessionId>,
    pub fork_at_seq: Option<u64>,
}

/// Whether an origin's fields agree with its kind: a `New` session has no
/// parent; every other kind has one; only a fork has a fork point.
pub open spec fn origin_well_formed(o: Origin) -> bool {
    &&& (o.kind == OriginKind::New <==> o.parent_id is None)
    &&& (o.kind == OriginKind::Fork <==> o.fork_at_seq is Some)
}

impl Origin {
    /// The origin of a brand-new session with no parent.
    pub fn new() -> (r: Self)
        ensures
            r.kind == OriginKind::New,
            r.parent_id is None,
            r.fork_at_seq is None,
            origin_well_formed(r),
    {
        Origin { kind: OriginKind::New, parent_id: None, fork_at_seq: None }
    }

    /// The origin of a compaction of `parent_id`.
    pub fn compaction(parent_id: SessionId) -> (r: Self)
        ensures
            r.kind == OriginKind::Compaction,
            r.parent_id == Some(parent_id),
            r.fork_at_seq is None,
            origin_well_formed(r),
    {
        Origin { kind: OriginKind::Compaction, parent_id: Some(parent_id), fork_at_seq: None }
    }

    /// The origin of a fork of `parent_id` at `fork_at_seq`.
    pub fn fork(parent_id: SessionId, fork_at_seq: u64) -> (r: Self)
        ensures
            r.kind == OriginKind::Fork,
            r.parent_id == Some(parent_id),
            r.fork_at_seq == Some(fork_at_seq),
            origin_well_formed(r),
    {
        Origin { kind: OriginKind::Fork, parent_id: Some(parent_id), fork_at_seq: Some(fork_at_seq) }
    }

    /// The origin of a reconfiguration of `parent_id`: the whole
    /// conversation moves to the new configuration, so there is no fork
    /// point.
    pub fn reconfiguration(parent_id: SessionId) -> (r: Self)
        ensures
            r.kind == OriginKind::Reconfiguration,
            r.parent_id == Some(parent_id),
            r.fork_at_seq is None,
            origin_well_formed(r),
    {
        Origin { kind: OriginKind::Reconfiguration, parent_id: Some(parent_id), fork_at_seq: None }
    }
}

impl Default for Origin {
    fn default() -> (r: Self)
        ensures
            r.kind == OriginKind::New,
            r.parent_id is None,
            r.fork_at_seq is None,
    {
        Origin::new()
    }
}

/// The contents of a session's `session.toml`.
#[derive(Debug, Clone, PartialEq, Eq)]
pub struct SessionMeta {
    /// The session id (also the directory name).
    pub id: SessionId,
    /// The profile the session is bound to, if any.
    pub profile_id: Option<String>,
    /// A per-session model override, if any.
    pub model: Option<String>,
    /// When the session was created.
    pub created_at: Timestamp,
    /// The working directory; `None` restricts filesystem tools.
    pub workspace: Option<String>,
    /// How the session came to exist.
    pub origin: Origin,
    /// Whether the session was retired.
    pub archived: bool,
}

/// The characters of a ULID's Crockford base-32 text.
pub open spec fn is_crockford_char(c: char) -> bool {
    ('0' <= c <= '9') || ('A' <= c <= 'Z' && c != 'I' && c != 'L' && c != 'O' && c != 'U')
}

/// Mints a fresh session id with `ulid::Ulid::new().to_string()`: 26
/// Crockford base-32 characters, the millisecond time first, then random
/// bits. The contract claims only the text's shape; the value depends on the
/// clock and on chance.
#[verifier::external_body]
pub fn generate() -> (r: SessionId)
    ensures
        r.0@.len() == 26,
        forall|i: int| 0 <= i < 26 ==> is_crockford_char(#[trigger] r.0@[i]),
{
    SessionId(ulid::Ulid::new().to_string())
}

} // verus!
