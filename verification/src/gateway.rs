//! The gateway's own decisions: its configuration defaults, bearer-token
//! admission, which sessions belong to a workspace, how registry failures
//! map to HTTP statuses, and which committed events a reconnecting client
//! or a fork receives.

use vstd::prelude::*;

use crate::event::Event;
use crate::session::{SessionId, SessionMeta};
use crate::text::{
    append_chars, decimal, decimal_string, has_substring, is_prefix_of, parse_u64, parse_u64_exec, str_contains,
    str_eq, string_of,
};
use crate::workspace::{WorkspaceId, meta_key};

verus! {

broadcast use vstd::std_specs::vec::group_vec_axioms;

// ── Configuration ─────────────────────────────────────────────────────────

/// Where the gateway listens when not configured.
pub const DEFAULT_BIND: &'static str = "127.0.0.1:7878";

/// How long an idle session actor lives when not configured (30 minutes).
pub const DEFAULT_IDLE_TIMEOUT_SECS: u64 = 1800;

/// The gateway's `gateway.toml`.
#[derive(Debug, Clone, PartialEq, Eq)]
pub struct GatewayConfig {
    /// Listen address.
    pub bind: String,
    /// The environment variable holding the bearer token; none means an
    /// open gateway.
    pub api_key_env: Option<String>,
    /// Idle actors are evicted after this many seconds.
    pub idle_timeout_secs: u64,
}

impl Default for GatewayConfig {
    fn default() -> (r: Self)
        ensures
            r.bind@ == DEFAULT_BIND@,
            r.api_key_env is None,
            r.idle_timeout_secs == DEFAULT_IDLE_TIMEOUT_SECS,
    {
        GatewayConfig {
            bind: crate::text::owned(DEFAULT_BIND),
            api_key_env: None,
            idle_timeout_secs: DEFAULT_IDLE_TIMEOUT_SECS,
        }
    }
}

/// `Duration::from_secs(secs)`.
pub uninterp spec fn duration_of_secs(secs: u64) -> core::time::Duration;

/// Calls `std::time::Duration::from_secs`; the contract claims only that
/// the result is that duration of exactly these seconds.
#[verifier::external_body]
fn duration_from_secs(secs: u64) -> (r: core::time::Duration)
    ensures
        r == duration_of_secs(secs),
{
    std::time::Duration::from_secs(secs)
}

impl GatewayConfig {
    /// The idle timeout as a duration.
    pub fn idle_timeout(&self) -> (r: core::time::Duration)
        ensures
            r == duration_of_secs(self.idle_timeout_secs),
    {
        duration_from_secs(self.idle_timeout_secs)
    }

    /// The bearer token, given the value of the configured variable (looked
    /// up by the caller): none without a configured variable, or when the
    /// variable is unset or empty.
    pub fn resolve_api_key(&self, value: Option<String>) -> (r: Option<String>)
        ensures
            self.api_key_env is None ==> r is None,
            self.api_key_env is Some ==> match value {
                Some(v) => if v@.len() > 0 {
                    r == Some(v)
                } else {
                    r is None
                },
                None => r is None,
            },
    {
        if self.api_key_env.is_none() {
            return None;
        }
        match value {
            Some(v) => if v.as_str().is_empty() {
                None
            } else {
                Some(v)
            },
            None => None,
        }
    }
}

// ── Admission ─────────────────────────────────────────────────────────────

/// Whether a request is admitted: always by an open gateway (no key);
/// otherwise only with an `Authorization` header `Bearer <token>` whose
/// token is the key.
pub open spec fn admitted(expected: Option<Seq<char>>, authorization: Option<Seq<char>>) -> bool {
    match expected {
        None => true,
        Some(key) => match authorization {
            Some(h) => is_prefix_of("Bearer "@, h) && h.skip(7) == key,
            None => false,
        },
    }
}

/// Whether a request with this `Authorization` header is admitted (see
/// [`admitted`]).
pub fn bearer_admits(expected: Option<&str>, authorization: Option<&str>) -> (r: bool)
    ensures
        r == admitted(
            match expected {
                Some(k) => Some(k@),
                None => None,
            },
            match authorization {
                Some(h) => Some(h@),
                None => None,
            },
        ),
{
    proof {
        reveal_strlit("Bearer ");
    }
    let key = match expected {
        None => return true,
        Some(k) => k,
    };
    let h = match authorization {
        None => return false,
        Some(h) => h,
    };
    let hv = crate::text::chars_of(h);
    let prefix = crate::text::chars_of("Bearer ");
    if !crate::text::chars_start_with(&hv, &prefix) {
        return false;
    }
    let mut rest: Vec<char> = Vec::new();
    let mut i: usize = 7;
    while i < hv.len()
        invariant
            7 <= i <= hv@.len(),
            rest@ == hv@.subrange(7, i as int),
        decreases hv.len() - i,
    {
        rest.push(hv[i]);
        i += 1;
    }
    assert(rest@ =~= hv@.skip(7));
    crate::text::chars_eq(&rest, &crate::text::chars_of(key))
}

// ── Workspace membership ──────────────────────────────────────────────────

/// Whether a session belongs to workspace `target`: its workspace hashes to
/// the id (or it has none and the id is `"none"`).
pub fn in_workspace(m: &SessionMeta, target: &WorkspaceId) -> (r: bool)
    ensures
        r == (meta_key(*m) == target.0@),
{
    proof {
        reveal(meta_key);
    }
    let id = match &m.workspace {
        Some(p) => WorkspaceId::from_path(p.as_str()),
        None => WorkspaceId::none(),
    };
    str_eq(id.0.as_str(), target.0.as_str())
}

// ── Errors to statuses ────────────────────────────────────────────────────

/// How a registry failure is answered.
#[derive(Debug, Clone, Copy, PartialEq, Eq, Structural)]
pub enum ErrorStatus {
    /// 409: must archive before deleting, or a writer holds the session.
    Conflict,
    /// 410: the session was archived and is retired for good.
    Gone,
    /// 404.
    NotFound,
}

/// The status for a registry failure, from the messages of its whole cause
/// chain joined: "not archived" is a conflict (checked first: it also
/// contains "archived"); "archived" is gone; "locked" is a conflict;
/// anything else is not found.
pub open spec fn error_status(chain: Seq<char>) -> ErrorStatus {
    if has_substring(chain, "not archived"@) {
        ErrorStatus::Conflict
    } else if has_substring(chain, "archived"@) {
        ErrorStatus::Gone
    } else if has_substring(chain, "locked"@) {
        ErrorStatus::Conflict
    } else {
        ErrorStatus::NotFound
    }
}

/// The status for a registry failure (see [`error_status`]).
pub fn conflict_or_not_found(chain: &str) -> (r: ErrorStatus)
    ensures
        r == error_status(chain@),
{
    if str_contains(chain, "not archived") {
        ErrorStatus::Conflict
    } else if str_contains(chain, "archived") {
        ErrorStatus::Gone
    } else if str_contains(chain, "locked") {
        ErrorStatus::Conflict
    } else {
        ErrorStatus::NotFound
    }
}

/// Whether a failure to create a session is the client's fault: the chosen
/// workspace does not exist, or has no provider configuration.
pub fn is_workspace_input_error(chain: &str) -> (r: bool)
    ensures
        r == (has_substring(chain@, "workspace does not exist"@) || has_substring(
            chain@,
            "no providers configured"@,
        )),
{
    str_contains(chain, "workspace does not exist") || str_contains(chain, "no providers configured")
}

// ── Replay and fork ───────────────────────────────────────────────────────

/// The first `n` events kept by a predicate on their seq, in order.
pub open spec fn kept_by_seq(events: Seq<Event>, keep: spec_fn(u64) -> bool, n: int) -> Seq<Event>
    decreases n,
{
    if n <= 0 || n > events.len() {
        Seq::empty()
    } else if keep(events[n - 1].seq) {
        kept_by_seq(events, keep, n - 1).push(events[n - 1])
    } else {
        kept_by_seq(events, keep, n - 1)
    }
}

/// Whether a reconnecting client that last saw `last_seen` needs an event:
/// everything when it saw nothing, otherwise only what came strictly after.
pub open spec fn after_last_seen(last_seen: Option<u64>) -> spec_fn(u64) -> bool {
    |seq: u64| match last_seen {
        None => true,
        Some(s) => seq > s,
    }
}

/// Whether a fork at `at_seq` inherits an event: it is at or before the
/// branch point.
pub open spec fn at_or_before(at_seq: u64) -> spec_fn(u64) -> bool {
    |seq: u64| seq <= at_seq
}

/// The committed events a reconnecting client is replayed, in order.
pub fn replay_after(events: Vec<Event>, last_seen: Option<u64>) -> (r: Vec<Event>)
    ensures
        r@ == kept_by_seq(events@, after_last_seen(last_seen), events@.len() as int),
{
    let ghost all = events@;
    let mut rest = crate::text::reversed(events);
    let mut out: Vec<Event> = Vec::new();
    let ghost mut taken: int = 0;
    while rest.len() > 0
        invariant
            taken + rest@.len() == all.len(),
            0 <= taken <= all.len(),
            forall|k: int| 0 <= k < rest@.len() ==> #[trigger] rest@[k] == all[all.len() - 1 - k],
            out@ == kept_by_seq(all, after_last_seen(last_seen), taken),
        decreases rest.len(),
    {
        assert(rest@[rest@.len() - 1] == all[taken]);
        let e = rest.pop().unwrap();
        let keep = match last_seen {
            None => true,
            Some(s) => e.seq > s,
        };
        if keep {
            out.push(e);
        }
        proof {
            taken = taken + 1;
        }
    }
    out
}

/// The parent's events a fork at `at_seq` inherits: those at or before the
/// branch point, in order.
pub fn events_up_to(events: Vec<Event>, at_seq: u64) -> (r: Vec<Event>)
    ensures
        r@ == kept_by_seq(events@, at_or_before(at_seq), events@.len() as int),
{
    let ghost all = events@;
    let mut rest = crate::text::reversed(events);
    let mut out: Vec<Event> = Vec::new();
    let ghost mut taken: int = 0;
    while rest.len() > 0
        invariant
            taken + rest@.len() == all.len(),
            0 <= taken <= all.len(),
            forall|k: int| 0 <= k < rest@.len() ==> #[trigger] rest@[k] == all[all.len() - 1 - k],
            out@ == kept_by_seq(all, at_or_before(at_seq), taken),
        decreases rest.len(),
    {
        assert(rest@[rest@.len() - 1] == all[taken]);
        let e = rest.pop().unwrap();
        if e.seq <= at_seq {
            out.push(e);
        }
        proof {
            taken = taken + 1;
        }
    }
    out
}

/// The resume cursor of a reconnecting client: its `Last-Event-ID` header
/// read as a seq, or nothing when the header is absent or not a number.
pub fn last_seen_from_header(value: Option<&str>) -> (r: Option<u64>)
    ensures
        r == match value {
            Some(v) => parse_u64(v@),
            None => None,
        },
{
    match value {
        Some(v) => parse_u64_exec(v),
        None => None,
    }
}

/// The error a fork at `at_seq` of `parent` gets when the parent has no
/// event at or before that seq.
pub open spec fn no_fork_point(parent: Seq<char>, at_seq: u64) -> Seq<char> {
    "parent session `"@ + parent + "` has no event at or before seq "@ + decimal(at_seq as nat)
}

/// The history a fork of `parent` at `at_seq` starts from: the parent's
/// events at or before the branch point, in order; an error when there are
/// none.
pub fn fork_history(parent: &SessionId, events: Vec<Event>, at_seq: u64) -> (r: Result<Vec<Event>, String>)
    ensures
        match r {
            Ok(kept) => kept@ == kept_by_seq(events@, at_or_before(at_seq), events@.len() as int)
                && kept@.len() > 0,
            Err(msg) => kept_by_seq(events@, at_or_before(at_seq), events@.len() as int).len() == 0
                && msg@ == no_fork_point(parent.0@, at_seq),
        },
{
    let kept = events_up_to(events, at_seq);
    if kept.len() == 0 {
        let mut msg: Vec<char> = Vec::new();
        append_chars(&mut msg, "parent session `");
        append_chars(&mut msg, parent.0.as_str());
        append_chars(&mut msg, "` has no event at or before seq ");
        append_chars(&mut msg, decimal_string(at_seq).as_str());
        return Err(string_of(&msg));
    }
    Ok(kept)
}

/// Every replayed event came strictly after what the client last saw.
pub proof fn law_replay_is_strictly_after(events: Seq<Event>, s: u64, n: int)
    requires
        0 <= n <= events.len(),
    ensures
        forall|i: int|
            0 <= i < kept_by_seq(events, after_last_seen(Some(s)), n).len() ==> (#[trigger] kept_by_seq(
                events,
                after_last_seen(Some(s)),
                n,
            )[i]).seq > s,
    decreases n,
{
    if n > 0 {
        law_replay_is_strictly_after(events, s, n - 1);
    }
}

/// Nothing the client has not seen is skipped: every event after its
/// cursor is replayed.
pub proof fn law_replay_skips_nothing_unseen(events: Seq<Event>, s: u64, n: int)
    requires
        0 <= n <= events.len(),
    ensures
        forall|j: int|
            0 <= j < n && events[j].seq > s ==> kept_by_seq(events, after_last_seen(Some(s)), n).contains(
                #[trigger] events[j],
            ),
    decreases n,
{
    if n > 0 {
        law_replay_skips_nothing_unseen(events, s, n - 1);
        let prev = kept_by_seq(events, after_last_seen(Some(s)), n - 1);
        let cur = kept_by_seq(events, after_last_seen(Some(s)), n);
        assert forall|j: int| 0 <= j < n && events[j].seq > s implies cur.contains(#[trigger] events[j]) by {
            if j < n - 1 {
                let k = choose|k: int| 0 <= k < prev.len() && prev[k] == events[j];
                assert(cur[k] == events[j]);
            } else {
                assert(cur[prev.len() as int] == events[n - 1]);
            }
        }
    }
}

} // verus!
