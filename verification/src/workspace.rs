//! Workspaces: sessions grouped by their working directory.
//!
//! A workspace is identified by an opaque, stable hash of its absolute path
//! (FNV-1a, 64 bits, as 16 lower-case hex digits); sessions without a
//! workspace belong to the `"none"` group. The registry maps ids back to
//! paths so that only the id ever travels to a client.

use vstd::prelude::*;

use crate::event::{Timestamp, earlier};
use crate::session::SessionMeta;
use crate::text::{hex16_string, hex_fixed, seq_lt, str_eq, str_lt};

verus! {

broadcast use vstd::std_specs::vec::group_vec_axioms;

// ── Ids ───────────────────────────────────────────────────────────────────

/// The FNV-1a 64-bit offset basis.
pub const FNV_OFFSET: u64 = 0xcbf2_9ce4_8422_2325;

/// The FNV-1a 64-bit prime.
pub const FNV_PRIME: u64 = 0x0000_0100_0000_01b3;

/// FNV-1a over `bytes`: start from the offset basis; for each byte, xor it in
/// and multiply by the prime, wrapping at 64 bits.
pub open spec fn fnv1a(bytes: Seq<u8>) -> u64
    decreases bytes.len(),
{
    if bytes.len() == 0 {
        FNV_OFFSET
    } else {
        let h = fnv1a(bytes.drop_last()) ^ (bytes.last() as u64);
        ((h as nat * FNV_PRIME as nat) % 0x1_0000_0000_0000_0000nat) as u64
    }
}

/// The FNV-1a hash of `bytes` as 16 lower-case hex digits. A fixed,
/// version-stable algorithm, so a persisted id never changes.
pub fn fnv1a_hex(bytes: &[u8]) -> (r: String)
    ensures
        r@ == hex_fixed(fnv1a(bytes@) as nat, 16),
{
    let mut hash: u64 = FNV_OFFSET;
    let mut i: usize = 0;
    while i < bytes.len()
        invariant
            i <= bytes@.len(),
            hash == fnv1a(bytes@.subrange(0, i as int)),
        decreases bytes.len() - i,
    {
        assert(bytes@.subrange(0, i + 1).drop_last() =~= bytes@.subrange(0, i as int));
        hash = hash ^ (bytes[i] as u64);
        hash = hash.wrapping_mul(FNV_PRIME);
        i += 1;
    }
    assert(bytes@.subrange(0, bytes@.len() as int) =~= bytes@);
    hex16_string(hash)
}

/// The id of the workspace at `path` (its UTF-8 bytes hashed).
pub open spec fn path_id(path: Seq<char>) -> Seq<char> {
    hex_fixed(fnv1a(vstd::utf8::encode_utf8(path)) as nat, 16)
}

/// A workspace id: the hash of the workspace's absolute path, or `"none"`
/// for sessions without a workspace.
#[derive(Debug, Clone, PartialEq, Eq, Hash)]
pub struct WorkspaceId(pub String);

impl WorkspaceId {
    /// The id of the workspace at `path`: a stable, opaque hash of the path
    /// (the path cannot be recovered from it).
    pub fn from_path(path: &str) -> (r: Self)
        ensures
            r.0@ == path_id(path@),
    {
        WorkspaceId(fnv1a_hex(path.as_bytes()))
    }

    /// The sentinel id of the no-workspace group.
    pub fn none() -> (r: Self)
        ensures
            r.0@ == "none"@,
    {
        WorkspaceId(crate::text::owned("none"))
    }
}

/// Every path id is 16 characters long, so none equals the `"none"` sentinel.
pub proof fn law_path_ids_are_sixteen_chars(path: Seq<char>)
    ensures
        path_id(path).len() == 16,
        path_id(path) != "none"@,
{
    lemma_hex_fixed_len(fnv1a(vstd::utf8::encode_utf8(path)) as nat, 16);
    reveal_strlit("none");
}

proof fn lemma_hex_fixed_len(n: nat, width: nat)
    ensures
        hex_fixed(n, width).len() == width,
    decreases width,
{
    if width > 0 {
        lemma_hex_fixed_len(n / 16, (width - 1) as nat);
    }
}

// ── Registry ──────────────────────────────────────────────────────────────

/// The map an association list denotes (keys assumed unique).
pub open spec fn assoc_map(s: Seq<(String, String)>) -> Map<Seq<char>, Seq<char>>
    decreases s.len(),
{
    if s.len() == 0 {
        Map::empty()
    } else {
        assoc_map(s.drop_last()).insert(s.last().0@, s.last().1@)
    }
}

/// No key occurs twice.
pub open spec fn unique_keys(s: Seq<(String, String)>) -> bool {
    forall|i: int, j: int| 0 <= i < j < s.len() ==> (#[trigger] s[i]).0@ != (#[trigger] s[j]).0@
}

proof fn lemma_assoc_map_lookup(s: Seq<(String, String)>)
    requires
        unique_keys(s),
    ensures
        forall|k: Seq<char>| #[trigger] assoc_map(s).contains_key(k) <==> exists|i: int| 0 <= i < s.len() && (#[trigger] s[i]).0@ == k,
        forall|i: int| 0 <= i < s.len() ==> #[trigger] assoc_map(s)[s[i].0@] == s[i].1@,
    decreases s.len(),
{
    if s.len() > 0 {
        let t = s.drop_last();
        let n = s.len() - 1;
        assert forall|a: int, b: int| 0 <= a < b < t.len() implies (#[trigger] t[a]).0@ != (#[trigger] t[b]).0@ by {
            assert(s[a].0@ != s[b].0@);
        }
        lemma_assoc_map_lookup(t);
        assert(assoc_map(s) == assoc_map(t).insert(s[n].0@, s[n].1@));
        assert forall|k: Seq<char>| #[trigger] assoc_map(s).contains_key(k) implies exists|i: int| 0 <= i < s.len() && (#[trigger] s[i]).0@ == k by {
            if k == s[n].0@ {
                assert(s[n].0@ == k);
            } else {
                assert(assoc_map(t).contains_key(k));
                let i = choose|i: int| 0 <= i < t.len() && (#[trigger] t[i]).0@ == k;
                assert(s[i] == t[i]);
                assert(s[i].0@ == k);
            }
        }
        assert forall|k: Seq<char>| (exists|i: int| 0 <= i < s.len() && (#[trigger] s[i]).0@ == k) implies #[trigger] assoc_map(s).contains_key(k) by {
            let i = choose|i: int| 0 <= i < s.len() && (#[trigger] s[i]).0@ == k;
            if i < n {
                assert(t[i] == s[i]);
                assert(assoc_map(t).contains_key(k));
            }
        }
        assert forall|i: int| 0 <= i < s.len() implies #[trigger] assoc_map(s)[s[i].0@] == s[i].1@ by {
            if i < n {
                assert(t[i] == s[i]);
                assert(s[i].0@ != s[n].0@);
                assert(assoc_map(t)[t[i].0@] == t[i].1@);
            }
        }
    }
}

proof fn lemma_assoc_map_update(s: Seq<(String, String)>, i: int, e: (String, String))
    requires
        unique_keys(s),
        0 <= i < s.len(),
        s[i].0@ == e.0@,
    ensures
        assoc_map(s.update(i, e)) == assoc_map(s).insert(e.0@, e.1@),
        unique_keys(s.update(i, e)),
    decreases s.len(),
{
    let u = s.update(i, e);
    if i == s.len() - 1 {
        assert(u.drop_last() =~= s.drop_last());
        assert(assoc_map(u) =~= assoc_map(s).insert(e.0@, e.1@));
    } else {
        let t = s.drop_last();
        assert(u.drop_last() =~= t.update(i, e));
        assert forall|a: int, b: int| 0 <= a < b < t.len() implies (#[trigger] t[a]).0@ != (#[trigger] t[b]).0@ by {
            assert(s[a].0@ != s[b].0@);
        }
        lemma_assoc_map_update(t, i, e);
        assert(s.last().0@ != e.0@) by {
            assert(s[i].0@ != s[s.len() - 1].0@);
        }
        assert(assoc_map(u) =~= assoc_map(s).insert(e.0@, e.1@));
    }
    assert forall|a: int, b: int| 0 <= a < b < u.len() implies (#[trigger] u[a]).0@ != (#[trigger] u[b]).0@ by {
        assert(s[a].0@ != s[b].0@);
    }
}

/// Every id in `m` is the hash of the path it maps to.
pub open spec fn ids_match_paths(m: Map<Seq<char>, Seq<char>>) -> bool {
    forall|k: Seq<char>| #[trigger] m.contains_key(k) ==> path_id(m[k]) == k
}

proof fn lemma_insert_keeps_ids_matching(m: Map<Seq<char>, Seq<char>>, id: Seq<char>, path: Seq<char>)
    requires
        ids_match_paths(m),
        path_id(path) == id,
    ensures
        ids_match_paths(m.insert(id, path)),
{
    assert forall|k: Seq<char>| #[trigger] m.insert(id, path).contains_key(k) implies path_id(
        m.insert(id, path)[k],
    ) == k by {
        if k != id {
            assert(m.contains_key(k));
        }
    }
}

/// A persisted map from workspace id to canonical path, so a workspace is
/// addressable by its opaque id. Best-effort: it is a cache, rebuildable
/// from session metadata.
pub struct WorkspaceRegistry {
    store_path: String,
    entries: Vec<(String, String)>,
}

/// The map a registry's stored entries denote after load: the entries whose
/// id is the hash of their path (stale ids are dropped), later duplicates
/// replacing earlier ones.
pub open spec fn validated(entries: Seq<(String, String)>) -> Map<Seq<char>, Seq<char>>
    decreases entries.len(),
{
    if entries.len() == 0 {
        Map::empty()
    } else {
        let m = validated(entries.drop_last());
        if entries.last().0@ == path_id(entries.last().1@) {
            m.insert(entries.last().0@, entries.last().1@)
        } else {
            m
        }
    }
}

/// The map after seeding from the first `n` sessions: each session's
/// workspace is added under its id unless that id is already known.
pub open spec fn seeded(m: Map<Seq<char>, Seq<char>>, metas: Seq<SessionMeta>, n: int) -> Map<Seq<char>, Seq<char>>
    decreases n,
{
    if n <= 0 || n > metas.len() {
        m
    } else {
        let prev = seeded(m, metas, n - 1);
        match metas[n - 1].workspace {
            Some(ws) => if prev.contains_key(path_id(ws@)) {
                prev
            } else {
                prev.insert(path_id(ws@), ws@)
            },
            None => prev,
        }
    }
}

impl View for WorkspaceRegistry {
    type V = Map<Seq<char>, Seq<char>>;

    closed spec fn view(&self) -> Map<Seq<char>, Seq<char>> {
        assoc_map(self.entries@)
    }
}

impl WorkspaceRegistry {
    /// The entries are keyed uniquely, and each id is the hash of its path.
    pub closed spec fn well_formed(&self) -> bool {
        unique_keys(self.entries@) && ids_match_paths(assoc_map(self.entries@))
    }

    /// Where the registry is persisted.
    pub closed spec fn store(&self) -> Seq<char> {
        self.store_path@
    }

    fn put(&mut self, id: String, path: String)
        requires
            old(self).well_formed(),
            id@ == path_id(path@),
        ensures
            final(self).well_formed(),
            final(self)@ == old(self)@.insert(id@, path@),
            final(self).store() == old(self).store(),
    {
        let ghost s = self.entries@;
        let mut i: usize = 0;
        while i < self.entries.len()
            invariant
                self.entries@ == s,
                s == old(self).entries@,
                unique_keys(s),
                self.store_path == old(self).store_path,
                ids_match_paths(assoc_map(s)),
                id@ == path_id(path@),
                i <= s.len(),
                forall|j: int| 0 <= j < i ==> (#[trigger] s[j]).0@ != id@,
            decreases self.entries.len() - i,
        {
            if str_eq(self.entries[i].0.as_str(), id.as_str()) {
                proof {
                    lemma_assoc_map_update(s, i as int, (id, path));
                    lemma_insert_keeps_ids_matching(assoc_map(s), id@, path@);
                }
                self.entries.set(i, (id, path));
                return;
            }
            i += 1;
        }
        self.entries.push((id, path));
        proof {
            assert(self.entries@.drop_last() =~= s);
            lemma_insert_keeps_ids_matching(assoc_map(s), id@, path@);
            assert forall|a: int, b: int| 0 <= a < b < self.entries@.len() implies (#[trigger] self.entries@[a]).0@
                != (#[trigger] self.entries@[b]).0@ by {
                if b == s.len() {
                    assert(s[a].0@ != id@);
                } else {
                    assert(s[a].0@ != s[b].0@);
                }
            }
        }
    }

    /// A registry for the store at `store_path` holding the stored entries
    /// (id, path) whose id is the current hash of their path; stale ids
    /// (from an older hash) are dropped, to be re-seeded from session
    /// metadata.
    pub fn from_entries(store_path: String, stored: Vec<(String, String)>) -> (r: Self)
        ensures
            r.well_formed(),
            r@ == validated(stored@),
            r.store() == store_path@,
    {
        let mut reg = WorkspaceRegistry { store_path, entries: Vec::new() };
        proof {
            assert(reg@ =~= Map::<Seq<char>, Seq<char>>::empty());
        }
        let mut i: usize = 0;
        while i < stored.len()
            invariant
                i <= stored@.len(),
                reg.well_formed(),
                reg@ == validated(stored@.subrange(0, i as int)),
                reg.store() == store_path@,
            decreases stored.len() - i,
        {
            assert(stored@.subrange(0, i + 1).drop_last() =~= stored@.subrange(0, i as int));
            let id = WorkspaceId::from_path(stored[i].1.as_str());
            if str_eq(id.0.as_str(), stored[i].0.as_str()) {
                reg.put(stored[i].0.clone(), stored[i].1.clone());
            }
            i += 1;
        }
        assert(stored@.subrange(0, stored@.len() as int) =~= stored@);
        reg
    }

    /// Record the canonical path `canonical` under its id and return the id.
    /// Idempotent: recording the same path again changes nothing.
    pub fn record_canonical(&mut self, canonical: &str) -> (r: WorkspaceId)
        requires
            old(self).well_formed(),
        ensures
            final(self).well_formed(),
            r.0@ == path_id(canonical@),
            final(self)@ == old(self)@.insert(path_id(canonical@), canonical@),
            final(self).store() == old(self).store(),
    {
        let id = WorkspaceId::from_path(canonical);
        self.put(id.0.clone(), crate::text::owned(canonical));
        id
    }

    /// The canonical path recorded for `id`, if known.
    pub fn path_for(&self, id: &WorkspaceId) -> (r: Option<String>)
        requires
            self.well_formed(),
        ensures
            match r {
                Some(p) => self@.contains_key(id.0@) && self@[id.0@] == p@ && path_id(p@) == id.0@,
                None => !self@.contains_key(id.0@),
            },
    {
        proof {
            lemma_assoc_map_lookup(self.entries@);
        }
        let mut i: usize = 0;
        while i < self.entries.len()
            invariant
                i <= self.entries@.len(),
                self.well_formed(),
                forall|j: int| 0 <= j < i ==> (#[trigger] self.entries@[j]).0@ != id.0@,
            decreases self.entries.len() - i,
        {
            if str_eq(self.entries[i].0.as_str(), id.0.as_str()) {
                proof {
                    lemma_assoc_map_lookup(self.entries@);
                    assert(assoc_map(self.entries@)[self.entries@[i as int].0@] == self.entries@[i as int].1@);
                    assert(assoc_map(self.entries@).contains_key(self.entries@[i as int].0@));
                }
                return Some(self.entries[i].1.clone());
            }
            i += 1;
        }
        proof {
            lemma_assoc_map_lookup(self.entries@);
        }
        None
    }

    /// Learn every session's workspace: each becomes an id-to-path entry
    /// unless its id is already known. Returns whether anything new was
    /// learned (and so whether the map needs persisting).
    pub fn seed_from_metas(&mut self, metas: &Vec<SessionMeta>) -> (changed: bool)
        requires
            old(self).well_formed(),
        ensures
            final(self).well_formed(),
            final(self)@ == seeded(old(self)@, metas@, metas@.len() as int),
            changed == (final(self)@ != old(self)@),
            final(self).store() == old(self).store(),
    {
        let ghost m0 = self@;
        let mut changed = false;
        let mut i: usize = 0;
        while i < metas.len()
            invariant
                i <= metas@.len(),
                self.well_formed(),
                self@ == seeded(m0, metas@, i as int),
                !changed ==> self@ == m0,
                changed ==> exists|k: Seq<char>| #[trigger] self@.contains_key(k) && !m0.contains_key(k),
                forall|k: Seq<char>| #[trigger] m0.contains_key(k) ==> self@.contains_key(k),
                self.store() == old(self).store(),
            decreases metas.len() - i,
        {
            match &metas[i].workspace {
                Some(ws) => {
                    let id = WorkspaceId::from_path(ws.as_str());
                    if self.path_for(&id).is_none() {
                        let ghost before = self@;
                        self.put(id.0, ws.clone());
                        proof {
                            assert(self@.contains_key(path_id(ws@)));
                            assert(!m0.contains_key(path_id(ws@)));
                        }
                        changed = true;
                    }
                },
                None => {},
            }
            i += 1;
        }
        proof {
            if changed {
                let k = choose|k: Seq<char>| #[trigger] self@.contains_key(k) && !m0.contains_key(k);
                assert(self@ != m0);
            }
        }
        changed
    }

    /// The stored (id, path) entries, for persisting.
    pub fn entries(&self) -> (r: &Vec<(String, String)>)
        ensures
            assoc_map(r@) == self@,
            self.well_formed() ==> unique_keys(r@),
    {
        &self.entries
    }

    /// Where the registry is persisted.
    pub fn store_path(&self) -> (r: &str)
        ensures
            r@ == self.store(),
    {
        self.store_path.as_str()
    }
}


/// Whatever sequence of loading, recording and seeding built a registry,
/// every id it holds maps to a path whose hash is that id.
pub proof fn law_registry_ids_match_paths(reg: WorkspaceRegistry, id: Seq<char>)
    requires
        reg.well_formed(),
        reg@.contains_key(id),
    ensures
        path_id(reg@[id]) == id,
{
}

/// Recording a path and then resolving its id gives the path back.
pub proof fn law_record_then_resolve(m: Map<Seq<char>, Seq<char>>, canonical: Seq<char>)
    ensures
        m.insert(path_id(canonical), canonical).contains_key(path_id(canonical)),
        m.insert(path_id(canonical), canonical)[path_id(canonical)] == canonical,
{
}

/// Recording the same path twice is the same as recording it once.
pub proof fn law_record_is_idempotent(m: Map<Seq<char>, Seq<char>>, canonical: Seq<char>)
    ensures
        m.insert(path_id(canonical), canonical).insert(path_id(canonical), canonical) == m.insert(
            path_id(canonical),
            canonical,
        ),
{
    assert(m.insert(path_id(canonical), canonical).insert(path_id(canonical), canonical) =~= m.insert(
        path_id(canonical),
        canonical,
    ));
}

/// After loading, every id in the registry is the hash of its path: stale
/// entries never survive a load.
pub proof fn law_loaded_ids_match_their_paths(entries: Seq<(String, String)>)
    ensures
        forall|k: Seq<char>| #[trigger] validated(entries).contains_key(k) ==> k == path_id(validated(entries)[k]),
    decreases entries.len(),
{
    if entries.len() > 0 {
        let t = entries.drop_last();
        law_loaded_ids_match_their_paths(t);
        let m = validated(t);
        let e = entries.last();
        if e.0@ == path_id(e.1@) {
            assert forall|k: Seq<char>| #[trigger] validated(entries).contains_key(k) implies k == path_id(
                validated(entries)[k],
            ) by {
                if k != e.0@ {
                    assert(m.contains_key(k));
                    assert(validated(entries)[k] == m[k]);
                }
            }
        } else {
            assert(validated(entries) == m);
        }
    }
}

/// Seeding never overwrites a known entry, and afterwards every session's
/// workspace is addressable by its id.
pub proof fn law_seeding_keeps_known_and_adds_every_workspace(
    m: Map<Seq<char>, Seq<char>>,
    metas: Seq<SessionMeta>,
    n: int,
)
    requires
        0 <= n <= metas.len(),
    ensures
        forall|k: Seq<char>| #[trigger] m.contains_key(k) ==> seeded(m, metas, n).contains_key(k) && seeded(
            m,
            metas,
            n,
        )[k] == m[k],
        forall|i: int|
            0 <= i < n && (#[trigger] metas[i]).workspace is Some ==> seeded(m, metas, n).contains_key(
                path_id(metas[i].workspace->0@),
            ),
    decreases n,
{
    if n > 0 {
        law_seeding_keeps_known_and_adds_every_workspace(m, metas, n - 1);
    }
}


// ── Grouping sessions ─────────────────────────────────────────────────────

/// One workspace in the dashboard: its id, its path (`None` for the
/// no-workspace group), how many sessions it holds, and the creation time of
/// its newest session (RFC 3339).
#[derive(Debug, Clone, PartialEq, Eq)]
pub struct WorkspaceSummary {
    pub id: WorkspaceId,
    pub path: Option<String>,
    pub session_count: usize,
    pub latest_session_time: Option<String>,
}

/// The RFC 3339 text chrono gives the UTC instant `secs` seconds and `nanos`
/// nanoseconds after the epoch, or `None` when that instant is out of its
/// range.
pub uninterp spec fn rfc3339_of(secs: i64, nanos: u32) -> Option<Seq<char>>;

/// Formats an instant with `chrono::DateTime::<Utc>::from_timestamp` and
/// `to_rfc3339`; the contract claims only that the result is that text (or
/// `None` when chrono rejects the instant).
#[verifier::external_body]
fn rfc3339(t: Timestamp) -> (r: Option<String>)
    ensures
        crate::permission::opt_view(r) == rfc3339_of(t.secs, t.nanos),
{
    chrono::DateTime::<chrono::Utc>::from_timestamp(t.secs, t.nanos).map(|d| d.to_rfc3339())
}

/// The group a session belongs to: its workspace's id, or `"none"`.
#[verifier::opaque]
pub open spec fn meta_key(m: SessionMeta) -> Seq<char> {
    match m.workspace {
        Some(p) => path_id(p@),
        None => "none"@,
    }
}

/// How many of the first `n` sessions belong to group `k`.
pub open spec fn key_count(metas: Seq<SessionMeta>, k: Seq<char>, n: int) -> nat
    decreases n,
{
    if n <= 0 || n > metas.len() {
        0
    } else {
        key_count(metas, k, n - 1) + if meta_key(metas[n - 1]) == k {
            1nat
        } else {
            0nat
        }
    }
}

/// The index of the first of the first `n` sessions in group `k`, or -1.
pub open spec fn key_first(metas: Seq<SessionMeta>, k: Seq<char>, n: int) -> int
    decreases n,
{
    if n <= 0 || n > metas.len() {
        -1
    } else {
        let f = key_first(metas, k, n - 1);
        if f >= 0 {
            f
        } else if meta_key(metas[n - 1]) == k {
            n - 1
        } else {
            -1
        }
    }
}

/// The newest creation time among the first `n` sessions in group `k`.
pub open spec fn key_latest(metas: Seq<SessionMeta>, k: Seq<char>, n: int) -> Option<Timestamp>
    decreases n,
{
    if n <= 0 || n > metas.len() {
        None
    } else {
        let p = key_latest(metas, k, n - 1);
        if meta_key(metas[n - 1]) == k {
            Some(
                match p {
                    Some(t) => if earlier(t, metas[n - 1].created_at) {
                        metas[n - 1].created_at
                    } else {
                        t
                    },
                    None => metas[n - 1].created_at,
                },
            )
        } else {
            p
        }
    }
}

/// Whether `s` is the summary of its group among `metas`: a non-empty group,
/// its size, its first session's path, and its newest session's time.
#[verifier::opaque]
pub open spec fn summarizes(s: WorkspaceSummary, metas: Seq<SessionMeta>) -> bool {
    let k = s.id.0@;
    let n = metas.len() as int;
    &&& key_count(metas, k, n) > 0
    &&& s.session_count == key_count(metas, k, n)
    &&& 0 <= key_first(metas, k, n) < n
    &&& crate::permission::opt_view(s.path) == crate::permission::opt_view(
        metas[key_first(metas, k, n)].workspace,
    )
    &&& crate::permission::opt_view(s.latest_session_time) == match key_latest(metas, k, n) {
        Some(t) => rfc3339_of(t.secs, t.nanos),
        None => None,
    }
}

/// `None` sorts before any text; texts sort lexicographically.
pub open spec fn opt_lt(a: Option<Seq<char>>, b: Option<Seq<char>>) -> bool {
    match (a, b) {
        (None, Some(_)) => true,
        (Some(x), Some(y)) => seq_lt(x, y),
        _ => false,
    }
}

proof fn lemma_opt_lt_order(a: Option<Seq<char>>, b: Option<Seq<char>>, c: Option<Seq<char>>)
    ensures
        opt_lt(a, b) || a == b || opt_lt(b, a),
        !(opt_lt(a, b) && opt_lt(b, a)),
        opt_lt(a, b) && opt_lt(b, c) ==> opt_lt(a, c),
        !opt_lt(a, a),
{
    match (a, b) {
        (Some(x), Some(y)) => {
            crate::text::lemma_seq_lt_trichotomy(x, y);
        },
        _ => {},
    }
    match a {
        Some(x) => crate::text::lemma_seq_lt_trichotomy(x, x),
        None => {},
    }
    if opt_lt(a, b) && opt_lt(b, c) {
        match (a, b, c) {
            (Some(x), Some(y), Some(z)) => crate::text::lemma_seq_lt_transitive(x, y, z),
            _ => {},
        }
    }
}

fn opt_str_lt(a: &Option<String>, b: &Option<String>) -> (r: bool)
    ensures
        r == opt_lt(crate::permission::opt_view(*a), crate::permission::opt_view(*b)),
{
    match (a, b) {
        (None, Some(_)) => true,
        (Some(x), Some(y)) => str_lt(x.as_str(), y.as_str()),
        _ => false,
    }
}

/// Whether some summary in `r` is the group `key`.
pub open spec fn has_group(r: Seq<WorkspaceSummary>, key: Seq<char>) -> bool {
    exists|i: int| 0 <= i < r.len() && (#[trigger] r[i]).id.0@ == key
}

/// Whether summaries are in dashboard order: the no-workspace group only
/// last, the others newest first.
pub open spec fn dashboard_order(r: Seq<WorkspaceSummary>) -> bool {
    &&& forall|i: int| 0 <= i < r.len() - 1 ==> (#[trigger] r[i]).id.0@ != "none"@
    &&& forall|i: int, j: int|
        0 <= i < j < r.len() && r[j].id.0@ != "none"@ ==> !opt_lt(
            crate::permission::opt_view((#[trigger] r[i]).latest_session_time),
            crate::permission::opt_view((#[trigger] r[j]).latest_session_time),
        )
}

struct Group {
    key: String,
    first: usize,
    count: usize,
    latest: Timestamp,
}

fn key_of(m: &SessionMeta) -> (r: String)
    ensures
        r@ == meta_key(*m),
{
    proof {
        reveal(meta_key);
    }
    match &m.workspace {
        Some(p) => WorkspaceId::from_path(p.as_str()).0,
        None => WorkspaceId::none().0,
    }
}

proof fn lemma_key_step(metas: Seq<SessionMeta>, k: Seq<char>, n: int)
    requires
        0 <= n < metas.len(),
    ensures
        key_count(metas, k, n + 1) == key_count(metas, k, n) + if meta_key(metas[n]) == k {
            1nat
        } else {
            0nat
        },
        key_first(metas, k, n + 1) == if key_first(metas, k, n) >= 0 {
            key_first(metas, k, n)
        } else if meta_key(metas[n]) == k {
            n
        } else {
            -1
        },
        meta_key(metas[n]) != k ==> key_latest(metas, k, n + 1) == key_latest(metas, k, n),
        meta_key(metas[n]) == k ==> key_latest(metas, k, n + 1) == Some(
            match key_latest(metas, k, n) {
                Some(t) => if earlier(t, metas[n].created_at) {
                    metas[n].created_at
                } else {
                    t
                },
                None => metas[n].created_at,
            },
        ),
{
}

/// One group record agrees with the first `n` sessions.
spec fn group_ok(g: Group, metas: Seq<SessionMeta>, n: int) -> bool {
    &&& key_count(metas, g.key@, n) == g.count
    &&& g.count > 0
    &&& g.count <= n
    &&& key_first(metas, g.key@, n) == g.first
    &&& key_latest(metas, g.key@, n) == Some(g.latest)
}

/// Whether group records match the first `n` sessions exactly.
#[verifier::opaque]
spec fn groups_match(groups: Seq<Group>, metas: Seq<SessionMeta>, n: int) -> bool {
    &&& forall|g: int| 0 <= g < groups.len() ==> group_ok(#[trigger] groups[g], metas, n)
    &&& forall|a: int, b: int| 0 <= a < b < groups.len() ==> (#[trigger] groups[a]).key@ != (#[trigger] groups[b]).key@
    &&& forall|k: Seq<char>|
        (forall|g: int| 0 <= g < groups.len() ==> (#[trigger] groups[g]).key@ != k) ==> #[trigger] key_count(metas, k, n)
            == 0 && key_first(metas, k, n) == -1 && key_latest(metas, k, n) is None
    &&& forall|j: int| 0 <= j < n ==> exists|g: int| 0 <= g < groups.len() && (#[trigger] groups[g]).key@ == meta_key(#[trigger] metas[j])
}

fn find_group(groups: &Vec<Group>, key: &String) -> (r: Option<usize>)
    ensures
        match r {
            Some(g) => g < groups@.len() && groups@[g as int].key@ == key@,
            None => forall|x: int| 0 <= x < groups@.len() ==> (#[trigger] groups@[x]).key@ != key@,
        },
{
    let mut g: usize = 0;
    while g < groups.len()
        invariant
            g <= groups@.len(),
            forall|x: int| 0 <= x < g ==> (#[trigger] groups@[x]).key@ != key@,
        decreases groups.len() - g,
    {
        if str_eq(groups[g].key.as_str(), key.as_str()) {
            return Some(g);
        }
        g += 1;
    }
    None
}

proof fn lemma_groups_step_existing(old_groups: Seq<Group>, groups: Seq<Group>, metas: Seq<SessionMeta>, n: int, g: int)
    requires
        0 <= n < metas.len(),
        groups_match(old_groups, metas, n),
        0 <= g < old_groups.len(),
        old_groups[g].key@ == meta_key(metas[n]),
        groups.len() == old_groups.len(),
        forall|x: int| 0 <= x < groups.len() && x != g ==> groups[x] == old_groups[x],
        groups[g].key@ == old_groups[g].key@,
        groups[g].first == old_groups[g].first,
        groups[g].count == old_groups[g].count + 1,
        groups[g].latest == if earlier(old_groups[g].latest, metas[n].created_at) {
            metas[n].created_at
        } else {
            old_groups[g].latest
        },
    ensures
        groups_match(groups, metas, n + 1),
{
    reveal(groups_match);
    assert forall|x: int| 0 <= x < groups.len() implies group_ok(#[trigger] groups[x], metas, n + 1) by {
        lemma_key_step(metas, groups[x].key@, n);
        assert(group_ok(old_groups[x], metas, n));
        if x != g {
            assert(old_groups[x].key@ != old_groups[g].key@);
        }
    }
    assert forall|a: int, b: int| 0 <= a < b < groups.len() implies (#[trigger] groups[a]).key@ != (#[trigger] groups[b]).key@ by {
        assert(old_groups[a].key@ != old_groups[b].key@);
    }
    assert forall|k: Seq<char>|
        (forall|x: int| 0 <= x < groups.len() ==> (#[trigger] groups[x]).key@ != k) implies #[trigger] key_count(metas, k, n + 1)
            == 0 && key_first(metas, k, n + 1) == -1 && key_latest(metas, k, n + 1) is None by {
        lemma_key_step(metas, k, n);
        assert forall|x: int| 0 <= x < old_groups.len() implies (#[trigger] old_groups[x]).key@ != k by {
            assert(groups[x].key@ == old_groups[x].key@);
        }
        assert(groups[g].key@ != k);
    }
    assert forall|j: int| 0 <= j < n + 1 implies exists|x: int| 0 <= x < groups.len() && (#[trigger] groups[x]).key@ == meta_key(#[trigger] metas[j]) by {
        if j < n {
            let x = choose|x: int| 0 <= x < old_groups.len() && (#[trigger] old_groups[x]).key@ == meta_key(metas[j]);
            assert(groups[x].key@ == old_groups[x].key@);
        } else {
            assert(groups[g].key@ == meta_key(metas[j]));
        }
    }
    assert(forall|x: int| 0 <= x < groups.len() ==> group_ok(#[trigger] groups[x], metas, n + 1));
    assert(forall|a: int, b: int| 0 <= a < b < groups.len() ==> (#[trigger] groups[a]).key@ != (#[trigger] groups[b]).key@);
    assert(forall|j: int| 0 <= j < n + 1 ==> exists|x: int| 0 <= x < groups.len() && (#[trigger] groups[x]).key@ == meta_key(#[trigger] metas[j]));
}

proof fn lemma_groups_step_new(old_groups: Seq<Group>, groups: Seq<Group>, metas: Seq<SessionMeta>, n: int)
    requires
        0 <= n < metas.len(),
        groups_match(old_groups, metas, n),
        forall|x: int| 0 <= x < old_groups.len() ==> (#[trigger] old_groups[x]).key@ != meta_key(metas[n]),
        groups.len() == old_groups.len() + 1,
        forall|x: int| 0 <= x < old_groups.len() ==> groups[x] == old_groups[x],
        groups.last().key@ == meta_key(metas[n]),
        groups.last().first == n,
        groups.last().count == 1,
        groups.last().latest == metas[n].created_at,
    ensures
        groups_match(groups, metas, n + 1),
{
    reveal(groups_match);
    let last = old_groups.len() as int;
    assert forall|x: int| 0 <= x < groups.len() implies group_ok(#[trigger] groups[x], metas, n + 1) by {
        lemma_key_step(metas, groups[x].key@, n);
        if x < last {
            assert(group_ok(old_groups[x], metas, n));
        } else {
            assert forall|y: int| 0 <= y < old_groups.len() implies (#[trigger] old_groups[y]).key@ != groups[x].key@ by {
            }
        }
    }
    assert forall|a: int, b: int| 0 <= a < b < groups.len() implies (#[trigger] groups[a]).key@ != (#[trigger] groups[b]).key@ by {
        if b < last {
            assert(old_groups[a].key@ != old_groups[b].key@);
        } else {
            assert(old_groups[a].key@ != meta_key(metas[n]));
        }
    }
    assert forall|k: Seq<char>|
        (forall|x: int| 0 <= x < groups.len() ==> (#[trigger] groups[x]).key@ != k) implies #[trigger] key_count(metas, k, n + 1)
            == 0 && key_first(metas, k, n + 1) == -1 && key_latest(metas, k, n + 1) is None by {
        lemma_key_step(metas, k, n);
        assert forall|x: int| 0 <= x < old_groups.len() implies (#[trigger] old_groups[x]).key@ != k by {
            assert(groups[x] == old_groups[x]);
        }
        assert(groups[last].key@ != k);
    }
    assert forall|j: int| 0 <= j < n + 1 implies exists|x: int| 0 <= x < groups.len() && (#[trigger] groups[x]).key@ == meta_key(#[trigger] metas[j]) by {
        if j < n {
            let x = choose|x: int| 0 <= x < old_groups.len() && (#[trigger] old_groups[x]).key@ == meta_key(metas[j]);
            assert(groups[x] == old_groups[x]);
        } else {
            assert(groups[last].key@ == meta_key(metas[j]));
        }
    }
}

fn collect_groups(metas: &Vec<SessionMeta>) -> (groups: Vec<Group>)
    ensures
        groups_match(groups@, metas@, metas@.len() as int),
{
    let mut groups: Vec<Group> = Vec::new();
    proof {
        reveal(groups_match);
    }
    let mut i: usize = 0;
    while i < metas.len()
        invariant
            i <= metas@.len(),
            groups_match(groups@, metas@, i as int),
        decreases metas.len() - i,
    {
        let key = key_of(&metas[i]);
        let created = metas[i].created_at;
        let ghost old_groups = groups@;
        match find_group(&groups, &key) {
            Some(g) => {
                proof {
                    reveal(groups_match);
                    assert(group_ok(old_groups[g as int], metas@, i as int));
                }
                let old = &groups[g];
                let latest = if created.secs > old.latest.secs || (created.secs == old.latest.secs
                    && created.nanos > old.latest.nanos) {
                    created
                } else {
                    old.latest
                };
                let updated = Group { key: old.key.clone(), first: old.first, count: old.count + 1, latest };
                groups.set(g, updated);
                proof {
                    lemma_groups_step_existing(old_groups, groups@, metas@, i as int, g as int);
                }
            },
            None => {
                groups.push(Group { key, first: i, count: 1, latest: created });
                proof {
                    lemma_groups_step_new(old_groups, groups@, metas@, i as int);
                }
            },
        }
        i += 1;
    }
    groups
}

/// The summaries placed so far are true, not the `"none"` group, distinct
/// and newest first.
#[verifier::opaque]
spec fn placed_ok(out: Seq<WorkspaceSummary>, metas: Seq<SessionMeta>) -> bool {
    &&& forall|x: int| 0 <= x < out.len() ==> summarizes(#[trigger] out[x], metas) && out[x].id.0@ != "none"@
    &&& forall|a: int, b: int| 0 <= a < b < out.len() ==> (#[trigger] out[a]).id.0@ != (#[trigger] out[b]).id.0@
    &&& forall|a: int, b: int|
        0 <= a < b < out.len() ==> !opt_lt(
            crate::permission::opt_view((#[trigger] out[a]).latest_session_time),
            crate::permission::opt_view((#[trigger] out[b]).latest_session_time),
        )
}

/// The summaries placed so far come from the first `j` groups, and every
/// such group is placed (the `"none"` group in its own slot).
#[verifier::opaque]
spec fn placed_from(out: Seq<WorkspaceSummary>, has_none: bool, groups: Seq<Group>, j: int) -> bool {
    &&& forall|x: int| 0 <= x < out.len() ==> exists|gj: int| 0 <= gj < j && (#[trigger] groups[gj]).key@ == (#[trigger] out[x]).id.0@
    &&& forall|gj: int|
        0 <= gj < j ==> ((#[trigger] groups[gj]).key@ == "none"@ ==> has_none) && (groups[gj].key@ != "none"@
            ==> exists|x: int| 0 <= x < out.len() && (#[trigger] out[x]).id.0@ == groups[gj].key@)
}

/// Insert `s` after every summary at least as recent and before the first
/// older one; returns where it went.
fn insert_by_recency(out: &mut Vec<WorkspaceSummary>, s: WorkspaceSummary) -> (p: usize)
    ensures
        p <= old(out)@.len(),
        final(out)@ == old(out)@.insert(p as int, s),
        forall|x: int|
            0 <= x < p ==> !opt_lt(
                crate::permission::opt_view((#[trigger] old(out)@[x]).latest_session_time),
                crate::permission::opt_view(s.latest_session_time),
            ),
        p < old(out)@.len() ==> opt_lt(
            crate::permission::opt_view(old(out)@[p as int].latest_session_time),
            crate::permission::opt_view(s.latest_session_time),
        ),
{
    let mut p: usize = 0;
    while p < out.len()
        invariant
            p <= out@.len(),
            out@ == old(out)@,
            forall|x: int|
                0 <= x < p ==> !opt_lt(
                    crate::permission::opt_view((#[trigger] out@[x]).latest_session_time),
                    crate::permission::opt_view(s.latest_session_time),
                ),
        decreases out.len() - p,
    {
        if opt_str_lt(&out[p].latest_session_time, &s.latest_session_time) {
            out.insert(p, s);
            return p;
        }
        p += 1;
    }
    out.insert(p, s);
    p
}

proof fn lemma_place_ok(prev: Seq<WorkspaceSummary>, p: int, s: WorkspaceSummary, metas: Seq<SessionMeta>)
    requires
        placed_ok(prev, metas),
        forall|x: int| 0 <= x < prev.len() ==> (#[trigger] prev[x]).id.0@ != s.id.0@,
        s.id.0@ != "none"@,
        summarizes(s, metas),
        0 <= p <= prev.len(),
        forall|x: int|
            0 <= x < p ==> !opt_lt(
                crate::permission::opt_view((#[trigger] prev[x]).latest_session_time),
                crate::permission::opt_view(s.latest_session_time),
            ),
        p < prev.len() ==> opt_lt(
            crate::permission::opt_view(prev[p].latest_session_time),
            crate::permission::opt_view(s.latest_session_time),
        ),
    ensures
        placed_ok(prev.insert(p, s), metas),
{
    reveal(placed_ok);
    let q = prev.insert(p, s);
    let sl = crate::permission::opt_view(s.latest_session_time);
    assert forall|x: int| p <= x < prev.len() implies !opt_lt(sl, crate::permission::opt_view((#[trigger] prev[x]).latest_session_time)) by {
        let a = crate::permission::opt_view(prev[x].latest_session_time);
        let b = crate::permission::opt_view(prev[p].latest_session_time);
        if x > p {
            assert(!opt_lt(b, a));
        }
        lemma_opt_lt_order(a, b, sl);
        lemma_opt_lt_order(b, sl, a);
        lemma_opt_lt_order(sl, a, b);
        lemma_opt_lt_order(a, sl, b);
    }
    assert forall|x: int| 0 <= x < q.len() implies summarizes(#[trigger] q[x], metas) && q[x].id.0@ != "none"@ by {
        if x < p {
            assert(q[x] == prev[x]);
        } else if x > p {
            assert(q[x] == prev[x - 1]);
        }
    }
    assert forall|a: int, b: int| 0 <= a < b < q.len() implies (#[trigger] q[a]).id.0@ != (#[trigger] q[b]).id.0@ by {
        if b < p {
            assert(q[a] == prev[a] && q[b] == prev[b]);
        } else if b == p {
            assert(q[a] == prev[a]);
        } else if a < p {
            assert(q[a] == prev[a] && q[b] == prev[b - 1]);
        } else if a == p {
            assert(q[b] == prev[b - 1]);
        } else {
            assert(q[a] == prev[a - 1] && q[b] == prev[b - 1]);
        }
    }
    assert forall|a: int, b: int|
        0 <= a < b < q.len() implies !opt_lt(
            crate::permission::opt_view((#[trigger] q[a]).latest_session_time),
            crate::permission::opt_view((#[trigger] q[b]).latest_session_time),
        ) by {
        if b < p {
            assert(q[a] == prev[a] && q[b] == prev[b]);
        } else if b == p {
            assert(q[a] == prev[a]);
        } else if a < p {
            assert(q[a] == prev[a] && q[b] == prev[b - 1]);
            let x = crate::permission::opt_view(prev[a].latest_session_time);
            let z = crate::permission::opt_view(prev[b - 1].latest_session_time);
            assert(!opt_lt(x, sl));
            assert(!opt_lt(sl, z));
            lemma_opt_lt_order(x, sl, z);
            lemma_opt_lt_order(z, sl, x);
            lemma_opt_lt_order(x, z, sl);
            lemma_opt_lt_order(sl, x, z);
        } else if a == p {
            assert(q[b] == prev[b - 1]);
        } else {
            assert(q[a] == prev[a - 1] && q[b] == prev[b - 1]);
        }
    }
}

proof fn lemma_place_from(
    prev: Seq<WorkspaceSummary>,
    p: int,
    s: WorkspaceSummary,
    has_none: bool,
    groups: Seq<Group>,
    j: int,
)
    requires
        placed_from(prev, has_none, groups, j),
        0 <= j < groups.len(),
        s.id.0@ == groups[j].key@,
        s.id.0@ != "none"@,
        0 <= p <= prev.len(),
    ensures
        placed_from(prev.insert(p, s), has_none, groups, j + 1),
{
    reveal(placed_from);
    let q = prev.insert(p, s);
    assert forall|x: int| 0 <= x < q.len() implies exists|gj: int| 0 <= gj < j + 1 && (#[trigger] groups[gj]).key@ == (#[trigger] q[x]).id.0@ by {
        if x < p {
            assert(q[x] == prev[x]);
            let gj = choose|gj: int| 0 <= gj < j && (#[trigger] groups[gj]).key@ == prev[x].id.0@;
            assert(groups[gj].key@ == q[x].id.0@);
        } else if x > p {
            assert(q[x] == prev[x - 1]);
            let gj = choose|gj: int| 0 <= gj < j && (#[trigger] groups[gj]).key@ == prev[x - 1].id.0@;
            assert(groups[gj].key@ == q[x].id.0@);
        } else {
            assert(groups[j].key@ == q[x].id.0@);
        }
    }
    assert forall|gj: int|
        0 <= gj < j + 1 implies ((#[trigger] groups[gj]).key@ == "none"@ ==> has_none) && (groups[gj].key@ != "none"@
            ==> exists|x: int| 0 <= x < q.len() && (#[trigger] q[x]).id.0@ == groups[gj].key@) by {
        if gj < j {
            if groups[gj].key@ != "none"@ {
                let x = choose|x: int| 0 <= x < prev.len() && (#[trigger] prev[x]).id.0@ == groups[gj].key@;
                if x < p {
                    assert(q[x] == prev[x]);
                } else {
                    assert(q[x + 1] == prev[x]);
                }
            }
        } else {
            assert(q[p].id.0@ == groups[gj].key@);
        }
    }
}

proof fn lemma_new_key_is_fresh(prev: Seq<WorkspaceSummary>, has_none: bool, groups: Seq<Group>, j: int)
    requires
        placed_from(prev, has_none, groups, j),
        0 <= j < groups.len(),
        forall|a: int, b: int| 0 <= a < b < groups.len() ==> (#[trigger] groups[a]).key@ != (#[trigger] groups[b]).key@,
    ensures
        forall|x: int| 0 <= x < prev.len() ==> (#[trigger] prev[x]).id.0@ != groups[j].key@,
{
    reveal(placed_from);
    assert forall|x: int| 0 <= x < prev.len() implies (#[trigger] prev[x]).id.0@ != groups[j].key@ by {
        let gj = choose|gj: int| 0 <= gj < j && (#[trigger] groups[gj]).key@ == prev[x].id.0@;
        assert(groups[gj].key@ != groups[j].key@);
    }
}

proof fn lemma_place_none(out: Seq<WorkspaceSummary>, has_none: bool, groups: Seq<Group>, j: int)
    requires
        placed_from(out, has_none, groups, j),
        0 <= j < groups.len(),
        groups[j].key@ == "none"@,
    ensures
        placed_from(out, true, groups, j + 1),
{
    reveal(placed_from);
    assert forall|x: int| 0 <= x < out.len() implies exists|gj: int| 0 <= gj < j + 1 && (#[trigger] groups[gj]).key@ == (#[trigger] out[x]).id.0@ by {
        let gj = choose|gj: int| 0 <= gj < j && (#[trigger] groups[gj]).key@ == out[x].id.0@;
    }
}

proof fn lemma_finish_ok(body: Seq<WorkspaceSummary>, none_slot: Option<WorkspaceSummary>, r: Seq<WorkspaceSummary>, metas: Seq<SessionMeta>)
    requires
        placed_ok(body, metas),
        none_slot matches Some(ns) ==> summarizes(ns, metas) && ns.id.0@ == "none"@,
        r == match none_slot {
            Some(ns) => body.push(ns),
            None => body,
        },
    ensures
        forall|i: int, j: int| 0 <= i < j < r.len() ==> (#[trigger] r[i]).id.0@ != (#[trigger] r[j]).id.0@,
        forall|i: int| 0 <= i < r.len() ==> summarizes(#[trigger] r[i], metas),
        dashboard_order(r),
{
    reveal(placed_ok);
    assert forall|i: int| 0 <= i < r.len() implies summarizes(#[trigger] r[i], metas) by {
        if i < body.len() {
            assert(r[i] == body[i]);
        }
    }
    assert forall|a: int, b: int| 0 <= a < b < r.len() implies (#[trigger] r[a]).id.0@ != (#[trigger] r[b]).id.0@ by {
        if b < body.len() {
            assert(r[a] == body[a] && r[b] == body[b]);
        } else {
            assert(r[a] == body[a]);
        }
    }
    assert forall|i: int| 0 <= i < r.len() - 1 implies (#[trigger] r[i]).id.0@ != "none"@ by {
        assert(r[i] == body[i]);
    }
    assert forall|a: int, b: int|
        0 <= a < b < r.len() && r[b].id.0@ != "none"@ implies !opt_lt(
            crate::permission::opt_view((#[trigger] r[a]).latest_session_time),
            crate::permission::opt_view((#[trigger] r[b]).latest_session_time),
        ) by {
        assert(r[a] == body[a]);
        if b < body.len() {
            assert(r[b] == body[b]);
        }
    }
}

proof fn lemma_finish_covers(
    body: Seq<WorkspaceSummary>,
    none_slot: Option<WorkspaceSummary>,
    r: Seq<WorkspaceSummary>,
    groups: Seq<Group>,
    metas: Seq<SessionMeta>,
)
    requires
        placed_from(body, none_slot is Some, groups, groups.len() as int),
        groups_match(groups, metas, metas.len() as int),
        none_slot matches Some(ns) ==> ns.id.0@ == "none"@,
        r == match none_slot {
            Some(ns) => body.push(ns),
            None => body,
        },
    ensures
        forall|jj: int| 0 <= jj < metas.len() ==> has_group(r, meta_key(#[trigger] metas[jj])),
{
    reveal(placed_from);
    reveal(groups_match);
    assert forall|jj: int| 0 <= jj < metas.len() implies has_group(r, meta_key(#[trigger] metas[jj])) by {
        let gj = choose|gj: int| 0 <= gj < groups.len() && (#[trigger] groups[gj]).key@ == meta_key(metas[jj]);
        if groups[gj].key@ == "none"@ {
            assert(none_slot is Some);
            let ns = none_slot->0;
            assert(r == body.push(ns));
            assert(r[body.len() as int] == ns);
            assert(r[body.len() as int].id.0@ == meta_key(metas[jj]));
        } else {
            let x = choose|x: int| 0 <= x < body.len() && (#[trigger] body[x]).id.0@ == groups[gj].key@;
            assert(r[x] == body[x]);
        }
    }
}

/// Group sessions by workspace: one summary per workspace, sessions without
/// a workspace in the `"none"` group; newest workspace first, the `"none"`
/// group always last. The order of workspaces whose newest sessions have the
/// same time is unspecified.
pub fn group_sessions(metas: Vec<SessionMeta>) -> (r: Vec<WorkspaceSummary>)
    ensures
        forall|i: int, j: int| 0 <= i < j < r@.len() ==> (#[trigger] r@[i]).id.0@ != (#[trigger] r@[j]).id.0@,
        forall|i: int| 0 <= i < r@.len() ==> summarizes(#[trigger] r@[i], metas@),
        forall|j: int| 0 <= j < metas@.len() ==> has_group(r@, meta_key(#[trigger] metas@[j])),
        dashboard_order(r@),
{
    proof {
        reveal_strlit("none");
    }
    let groups = collect_groups(&metas);
    let mut out: Vec<WorkspaceSummary> = Vec::new();
    let mut none_slot: Option<WorkspaceSummary> = None;
    proof {
        reveal(placed_ok);
        reveal(placed_from);
    }
    let mut j: usize = 0;
    while j < groups.len()
        invariant
            j <= groups@.len(),
            groups_match(groups@, metas@, metas@.len() as int),
            placed_ok(out@, metas@),
            placed_from(out@, none_slot is Some, groups@, j as int),
            none_slot matches Some(ns) ==> summarizes(ns, metas@) && ns.id.0@ == "none"@,
        decreases groups.len() - j,
    {
        proof {
            reveal(groups_match);
            assert(group_ok(groups@[j as int], metas@, metas@.len() as int));
            lemma_key_count_bound(metas@, groups@[j as int].key@, metas@.len() as int);
        }
        let g = &groups[j];
        let summary = WorkspaceSummary {
            id: WorkspaceId(g.key.clone()),
            path: crate::permission::clone_opt(&metas[g.first].workspace),
            session_count: g.count,
            latest_session_time: rfc3339(g.latest),
        };
        proof {
            reveal(summarizes);
        }
        let ghost prev = out@;
        if str_eq(g.key.as_str(), "none") {
            proof {
                lemma_place_none(prev, none_slot is Some, groups@, j as int);
            }
            none_slot = Some(summary);
        } else {
            let ghost s = summary;
            proof {
                reveal(groups_match);
                lemma_new_key_is_fresh(prev, none_slot is Some, groups@, j as int);
            }
            let p = insert_by_recency(&mut out, summary);
            proof {
                lemma_place_ok(prev, p as int, s, metas@);
                lemma_place_from(prev, p as int, s, none_slot is Some, groups@, j as int);
            }
        }
        j += 1;
    }
    let ghost body = out@;
    let ghost slot = none_slot;
    match none_slot {
        Some(ns) => out.push(ns),
        None => {},
    }
    proof {
        lemma_finish_ok(body, slot, out@, metas@);
        lemma_finish_covers(body, slot, out@, groups@, metas@);
    }
    out
}

proof fn lemma_key_count_bound(metas: Seq<SessionMeta>, k: Seq<char>, n: int)
    requires
        0 <= n <= metas.len(),
    ensures
        key_count(metas, k, n) <= n,
        key_first(metas, k, n) < n,
    decreases n,
{
    if n > 0 {
        lemma_key_count_bound(metas, k, n - 1);
    }
}

} // verus!
