//! The session monitor's counting: a fold over committed events that tallies
//! turns, model requests, tokens, tool calls and failures, errors by code,
//! and the session's opening and latest user input. Pricing (floating
//! point) is the caller's: each completed request whose model is known is
//! reported back for it.

use vstd::prelude::*;

use crate::event::{Event, ModelEvent, Payload, Timestamp, ToolEvent, TurnEvent, Usage};
use crate::text::{is_blank, str_eq, str_is_blank};

verus! {

broadcast use vstd::std_specs::vec::group_vec_axioms;

// ── Keyed tables ──────────────────────────────────────────────────────────

/// The map a keyed list denotes (keys assumed unique).
pub open spec fn kv_map<V>(s: Seq<(String, V)>) -> Map<Seq<char>, V>
    decreases s.len(),
{
    if s.len() == 0 {
        Map::empty()
    } else {
        kv_map(s.drop_last()).insert(s.last().0@, s.last().1)
    }
}

/// No key occurs twice.
pub open spec fn kv_unique<V>(s: Seq<(String, V)>) -> bool {
    forall|i: int, j: int| 0 <= i < j < s.len() ==> (#[trigger] s[i]).0@ != (#[trigger] s[j]).0@
}

proof fn lemma_kv_lookup<V>(s: Seq<(String, V)>)
    requires
        kv_unique(s),
    ensures
        forall|k: Seq<char>| #[trigger] kv_map(s).contains_key(k) <==> exists|i: int| 0 <= i < s.len() && (#[trigger] s[i]).0@ == k,
        forall|i: int| 0 <= i < s.len() ==> #[trigger] kv_map(s)[s[i].0@] == s[i].1,
    decreases s.len(),
{
    if s.len() > 0 {
        let t = s.drop_last();
        let n = s.len() - 1;
        assert forall|a: int, b: int| 0 <= a < b < t.len() implies (#[trigger] t[a]).0@ != (#[trigger] t[b]).0@ by {
            assert(s[a].0@ != s[b].0@);
        }
        lemma_kv_lookup(t);
        assert forall|k: Seq<char>| #[trigger] kv_map(s).contains_key(k) implies exists|i: int| 0 <= i < s.len() && (#[trigger] s[i]).0@ == k by {
            if k == s[n].0@ {
                assert(s[n].0@ == k);
            } else {
                assert(kv_map(t).contains_key(k));
                let i = choose|i: int| 0 <= i < t.len() && (#[trigger] t[i]).0@ == k;
                assert(s[i] == t[i]);
            }
        }
        assert forall|k: Seq<char>| (exists|i: int| 0 <= i < s.len() && (#[trigger] s[i]).0@ == k) implies #[trigger] kv_map(s).contains_key(k) by {
            let i = choose|i: int| 0 <= i < s.len() && (#[trigger] s[i]).0@ == k;
            if i < n {
                assert(t[i] == s[i]);
                assert(kv_map(t).contains_key(k));
            }
        }
        assert forall|i: int| 0 <= i < s.len() implies #[trigger] kv_map(s)[s[i].0@] == s[i].1 by {
            if i < n {
                assert(t[i] == s[i]);
                assert(s[i].0@ != s[n].0@);
                assert(kv_map(t)[t[i].0@] == t[i].1);
            }
        }
    }
}

proof fn lemma_kv_update<V>(s: Seq<(String, V)>, i: int, e: (String, V))
    requires
        kv_unique(s),
        0 <= i < s.len(),
        s[i].0@ == e.0@,
    ensures
        kv_map(s.update(i, e)) == kv_map(s).insert(e.0@, e.1),
        kv_unique(s.update(i, e)),
    decreases s.len(),
{
    let u = s.update(i, e);
    if i == s.len() - 1 {
        assert(u.drop_last() =~= s.drop_last());
        assert(kv_map(u) =~= kv_map(s).insert(e.0@, e.1));
    } else {
        let t = s.drop_last();
        assert(u.drop_last() =~= t.update(i, e));
        assert forall|a: int, b: int| 0 <= a < b < t.len() implies (#[trigger] t[a]).0@ != (#[trigger] t[b]).0@ by {
            assert(s[a].0@ != s[b].0@);
        }
        lemma_kv_update(t, i, e);
        assert(s.last().0@ != e.0@) by {
            assert(s[i].0@ != s[s.len() - 1].0@);
        }
        assert(kv_map(u) =~= kv_map(s).insert(e.0@, e.1));
    }
    assert forall|a: int, b: int| 0 <= a < b < u.len() implies (#[trigger] u[a]).0@ != (#[trigger] u[b]).0@ by {
        assert(s[a].0@ != s[b].0@);
    }
}

fn kv_find<V>(s: &Vec<(String, V)>, key: &str) -> (r: Option<usize>)
    ensures
        match r {
            Some(i) => i < s@.len() && s@[i as int].0@ == key@,
            None => forall|j: int| 0 <= j < s@.len() ==> (#[trigger] s@[j]).0@ != key@,
        },
{
    let mut i: usize = 0;
    while i < s.len()
        invariant
            i <= s@.len(),
            forall|j: int| 0 <= j < i ==> (#[trigger] s@[j]).0@ != key@,
        decreases s.len() - i,
    {
        if str_eq(s[i].0.as_str(), key) {
            return Some(i);
        }
        i += 1;
    }
    None
}

fn kv_put<V>(s: &mut Vec<(String, V)>, key: String, value: V)
    requires
        kv_unique(old(s)@),
    ensures
        kv_unique(final(s)@),
        kv_map(final(s)@) == kv_map(old(s)@).insert(key@, value),
{
    let ghost s0 = s@;
    match kv_find(s, key.as_str()) {
        Some(i) => {
            proof {
                lemma_kv_update(s0, i as int, (key, value));
            }
            s.set(i, (key, value));
        },
        None => {
            s.push((key, value));
            proof {
                assert(s@.drop_last() =~= s0);
                assert forall|a: int, b: int| 0 <= a < b < s@.len() implies (#[trigger] s@[a]).0@ != (#[trigger] s@[b]).0@ by {
                    if b == s0.len() {
                        assert(s0[a].0@ != key@);
                    } else {
                        assert(s0[a].0@ != s0[b].0@);
                    }
                }
            }
        },
    }
}

/// A count one higher (starting from zero for an absent key).
pub open spec fn bumped(m: Map<Seq<char>, u64>, k: Seq<char>) -> Map<Seq<char>, u64> {
    m.insert(k, if m.contains_key(k) { (m[k] + 1) as u64 } else { 1u64 })
}

/// Whether a counter can still be bumped.
pub open spec fn can_bump(m: Map<Seq<char>, u64>, k: Seq<char>) -> bool {
    m.contains_key(k) ==> m[k] < u64::MAX
}

fn bump(s: &mut Vec<(String, u64)>, key: &str)
    requires
        kv_unique(old(s)@),
        can_bump(kv_map(old(s)@), key@),
    ensures
        kv_unique(final(s)@),
        kv_map(final(s)@) == bumped(kv_map(old(s)@), key@),
{
    proof {
        lemma_kv_lookup(s@);
    }
    let ghost s0 = s@;
    match kv_find(s, key) {
        Some(i) => {
            let n = s[i].1;
            proof {
                lemma_kv_update(s0, i as int, (s0[i as int].0, (n + 1) as u64));
            }
            let k = s[i].0.clone();
            s.set(i, (k, n + 1));
        },
        None => {
            kv_put(s, crate::text::owned(key), 1);
        },
    }
}

// ── The tally ─────────────────────────────────────────────────────────────

/// What the monitor has counted so far.
pub struct TallyV {
    pub total_turns: u32,
    pub total_model_requests: u32,
    pub total_tool_calls: u32,
    pub total_tool_failures: u32,
    pub total_input_tokens: u64,
    pub total_output_tokens: u64,
    pub total_cache_read_tokens: u64,
    pub first_user_input: Option<Seq<char>>,
    pub last_user_message_at: Option<Timestamp>,
    pub tools_used: Map<Seq<char>, u64>,
    pub errors: Map<Seq<char>, u64>,
    pub request_models: Map<Seq<char>, String>,
}

/// `a + b`, saturating at the type's maximum.
pub open spec fn sat_u32(a: u32, b: u32) -> u32 {
    if a + b > u32::MAX { u32::MAX } else { (a + b) as u32 }
}

/// `a + b`, saturating at the type's maximum.
pub open spec fn sat_u64(a: u64, b: u64) -> u64 {
    if a + b > u64::MAX { u64::MAX } else { (a + b) as u64 }
}

/// Nothing counted.
pub open spec fn tally_init() -> TallyV {
    TallyV {
        total_turns: 0,
        total_model_requests: 0,
        total_tool_calls: 0,
        total_tool_failures: 0,
        total_input_tokens: 0,
        total_output_tokens: 0,
        total_cache_read_tokens: 0,
        first_user_input: None,
        last_user_message_at: None,
        tools_used: Map::empty(),
        errors: Map::empty(),
        request_models: Map::empty(),
    }
}

/// One event counted: a started turn (its input, when not blank, is the
/// opening input if none was seen and is the latest user message); a
/// started request (its model remembered); a completed request (its
/// tokens); a started tool (by name); a failed tool (and its error code);
/// a raised error (by code). Everything else counts nothing.
pub open spec fn observe_spec(s: TallyV, e: Event) -> TallyV {
    match e.payload {
        Payload::Turn(TurnEvent::Started { input, .. }) => {
            let s1 = TallyV { total_turns: sat_u32(s.total_turns, 1), ..s };
            match input {
                Some(text) => if !is_blank(text@) {
                    TallyV {
                        first_user_input: if s1.first_user_input is None {
                            Some(text@)
                        } else {
                            s1.first_user_input
                        },
                        last_user_message_at: Some(e.timestamp),
                        ..s1
                    }
                } else {
                    s1
                },
                None => s1,
            }
        },
        Payload::Model(ModelEvent::RequestStarted { request_id, model }) => TallyV {
            request_models: s.request_models.insert(request_id@, model),
            ..s
        },
        Payload::Model(ModelEvent::RequestCompleted { usage, .. }) => TallyV {
            total_model_requests: sat_u32(s.total_model_requests, 1),
            total_input_tokens: sat_u64(s.total_input_tokens, usage.input_tokens as u64),
            total_output_tokens: sat_u64(s.total_output_tokens, usage.output_tokens as u64),
            total_cache_read_tokens: sat_u64(s.total_cache_read_tokens, usage.cache_read_tokens as u64),
            ..s
        },
        Payload::Tool(ToolEvent::Started { tool_name, .. }) => TallyV {
            total_tool_calls: sat_u32(s.total_tool_calls, 1),
            tools_used: bumped(s.tools_used, tool_name@),
            ..s
        },
        Payload::Tool(ToolEvent::Failed { error, .. }) => TallyV {
            total_tool_failures: sat_u32(s.total_tool_failures, 1),
            errors: bumped(s.errors, error.code@),
            ..s
        },
        Payload::Error(detail) => TallyV { errors: bumped(s.errors, detail.code@), ..s },
        _ => s,
    }
}

/// Whether counting `e` keeps every per-name counter in range (a counter
/// at its maximum cannot be bumped).
pub open spec fn observable(s: TallyV, e: Event) -> bool {
    match e.payload {
        Payload::Tool(ToolEvent::Started { tool_name, .. }) => can_bump(s.tools_used, tool_name@),
        Payload::Tool(ToolEvent::Failed { error, .. }) => can_bump(s.errors, error.code@),
        Payload::Error(detail) => can_bump(s.errors, detail.code@),
        _ => true,
    }
}

/// The model that served a completed request and its usage, reported for
/// pricing: only for a completion whose request's model is known.
pub open spec fn priced_request(s: TallyV, e: Event) -> Option<(String, Usage)> {
    match e.payload {
        Payload::Model(ModelEvent::RequestCompleted { request_id, usage }) => if s.request_models.contains_key(
            request_id@,
        ) {
            Some((s.request_models[request_id@], usage))
        } else {
            None
        },
        _ => None,
    }
}

/// Counts a session's committed events.
pub struct Monitor {
    total_turns: u32,
    total_model_requests: u32,
    total_tool_calls: u32,
    total_tool_failures: u32,
    total_input_tokens: u64,
    total_output_tokens: u64,
    total_cache_read_tokens: u64,
    first_user_input: Option<String>,
    last_user_message_at: Option<Timestamp>,
    tools_used: Vec<(String, u64)>,
    errors: Vec<(String, u64)>,
    request_models: Vec<(String, String)>,
}

/// The counts of a session, as plain values.
#[derive(Debug, Clone, PartialEq, Eq)]
pub struct SessionTally {
    pub total_turns: u32,
    pub total_model_requests: u32,
    pub total_tool_calls: u32,
    pub total_tool_failures: u32,
    pub total_input_tokens: u64,
    pub total_output_tokens: u64,
    pub total_cache_read_tokens: u64,
    pub first_user_input: Option<String>,
    pub last_user_message_at: Option<Timestamp>,
    /// Tool calls by tool name.
    pub tools_used: Vec<(String, u64)>,
    /// Failures and errors by code.
    pub errors: Vec<(String, u64)>,
}

impl View for Monitor {
    type V = TallyV;

    closed spec fn view(&self) -> TallyV {
        TallyV {
            total_turns: self.total_turns,
            total_model_requests: self.total_model_requests,
            total_tool_calls: self.total_tool_calls,
            total_tool_failures: self.total_tool_failures,
            total_input_tokens: self.total_input_tokens,
            total_output_tokens: self.total_output_tokens,
            total_cache_read_tokens: self.total_cache_read_tokens,
            first_user_input: crate::permission::opt_view(self.first_user_input),
            last_user_message_at: self.last_user_message_at,
            tools_used: kv_map(self.tools_used@),
            errors: kv_map(self.errors@),
            request_models: kv_map(self.request_models@),
        }
    }
}

fn sat_add_u32(a: u32, b: u32) -> (r: u32)
    ensures
        r == sat_u32(a, b),
{
    if a > u32::MAX - b {
        u32::MAX
    } else {
        a + b
    }
}

fn sat_add_u64(a: u64, b: u64) -> (r: u64)
    ensures
        r == sat_u64(a, b),
{
    if a > u64::MAX - b {
        u64::MAX
    } else {
        a + b
    }
}

impl Monitor {
    /// The keyed tables have unique keys.
    pub closed spec fn well_formed(&self) -> bool {
        &&& kv_unique(self.tools_used@)
        &&& kv_unique(self.errors@)
        &&& kv_unique(self.request_models@)
    }

    /// Nothing counted yet.
    pub fn new() -> (r: Self)
        ensures
            r.well_formed(),
            r@ == tally_init(),
    {
        let r = Monitor {
            total_turns: 0,
            total_model_requests: 0,
            total_tool_calls: 0,
            total_tool_failures: 0,
            total_input_tokens: 0,
            total_output_tokens: 0,
            total_cache_read_tokens: 0,
            first_user_input: None,
            last_user_message_at: None,
            tools_used: Vec::new(),
            errors: Vec::new(),
            request_models: Vec::new(),
        };
        assert(r@.tools_used =~= Map::<Seq<char>, u64>::empty());
        assert(r@.errors =~= Map::<Seq<char>, u64>::empty());
        assert(r@.request_models =~= Map::<Seq<char>, String>::empty());
        r
    }

    /// Whether `event` can be counted without a per-name counter passing
    /// its maximum.
    pub fn can_observe(&self, event: &Event) -> (r: bool)
        requires
            self.well_formed(),
        ensures
            r == observable(self@, *event),
    {
        proof {
            lemma_kv_lookup(self.tools_used@);
            lemma_kv_lookup(self.errors@);
        }
        let (table, key): (&Vec<(String, u64)>, &str) = match &event.payload {
            Payload::Tool(ToolEvent::Started { tool_name, .. }) => (&self.tools_used, tool_name.as_str()),
            Payload::Tool(ToolEvent::Failed { error, .. }) => (&self.errors, error.code.as_str()),
            Payload::Error(detail) => (&self.errors, detail.code.as_str()),
            _ => return true,
        };
        match kv_find(table, key) {
            Some(i) => table[i].1 < u64::MAX,
            None => true,
        }
    }

    /// Count one event (see [`observe_spec`]); for a completed request
    /// whose model is known, returns that model and the usage, for pricing.
    pub fn observe(&mut self, event: &Event) -> (priced: Option<(String, Usage)>)
        requires
            old(self).well_formed(),
            observable(old(self)@, *event),
        ensures
            final(self).well_formed(),
            final(self)@ == observe_spec(old(self)@, *event),
            priced == priced_request(old(self)@, *event),
    {
        proof {
            lemma_kv_lookup(self.request_models@);
        }
        match &event.payload {
            Payload::Turn(TurnEvent::Started { input, .. }) => {
                self.total_turns = sat_add_u32(self.total_turns, 1);
                match input {
                    Some(text) => {
                        if !str_is_blank(text.as_str()) {
                            if self.first_user_input.is_none() {
                                self.first_user_input = Some(text.clone());
                            }
                            self.last_user_message_at = Some(event.timestamp);
                        }
                    },
                    None => {},
                }
                None
            },
            Payload::Model(ModelEvent::RequestStarted { request_id, model }) => {
                kv_put(&mut self.request_models, request_id.clone(), model.clone());
                None
            },
            Payload::Model(ModelEvent::RequestCompleted { request_id, usage }) => {
                self.total_model_requests = sat_add_u32(self.total_model_requests, 1);
                self.total_input_tokens = sat_add_u64(self.total_input_tokens, usage.input_tokens as u64);
                self.total_output_tokens = sat_add_u64(self.total_output_tokens, usage.output_tokens as u64);
                self.total_cache_read_tokens = sat_add_u64(
                    self.total_cache_read_tokens,
                    usage.cache_read_tokens as u64,
                );
                match kv_find(&self.request_models, request_id.as_str()) {
                    Some(i) => Some((self.request_models[i].1.clone(), *usage)),
                    None => None,
                }
            },
            Payload::Tool(ToolEvent::Started { tool_name, .. }) => {
                self.total_tool_calls = sat_add_u32(self.total_tool_calls, 1);
                bump(&mut self.tools_used, tool_name.as_str());
                None
            },
            Payload::Tool(ToolEvent::Failed { error, .. }) => {
                self.total_tool_failures = sat_add_u32(self.total_tool_failures, 1);
                bump(&mut self.errors, error.code.as_str());
                None
            },
            Payload::Error(detail) => {
                bump(&mut self.errors, detail.code.as_str());
                None
            },
            _ => None,
        }
    }

    /// The counts so far.
    pub fn tally(&self) -> (r: SessionTally)
        requires
            self.well_formed(),
        ensures
            r.total_turns == self@.total_turns,
            r.total_model_requests == self@.total_model_requests,
            r.total_tool_calls == self@.total_tool_calls,
            r.total_tool_failures == self@.total_tool_failures,
            r.total_input_tokens == self@.total_input_tokens,
            r.total_output_tokens == self@.total_output_tokens,
            r.total_cache_read_tokens == self@.total_cache_read_tokens,
            crate::permission::opt_view(r.first_user_input) == self@.first_user_input,
            r.last_user_message_at == self@.last_user_message_at,
            kv_unique(r.tools_used@) && kv_map(r.tools_used@) == self@.tools_used,
            kv_unique(r.errors@) && kv_map(r.errors@) == self@.errors,
    {
        SessionTally {
            total_turns: self.total_turns,
            total_model_requests: self.total_model_requests,
            total_tool_calls: self.total_tool_calls,
            total_tool_failures: self.total_tool_failures,
            total_input_tokens: self.total_input_tokens,
            total_output_tokens: self.total_output_tokens,
            total_cache_read_tokens: self.total_cache_read_tokens,
            first_user_input: crate::permission::clone_opt(&self.first_user_input),
            last_user_message_at: self.last_user_message_at,
            tools_used: copy_counts(&self.tools_used),
            errors: copy_counts(&self.errors),
        }
    }
}

fn copy_counts(v: &Vec<(String, u64)>) -> (r: Vec<(String, u64)>)
    ensures
        r@ == v@,
{
    let mut out: Vec<(String, u64)> = Vec::new();
    let mut i: usize = 0;
    while i < v.len()
        invariant
            i <= v@.len(),
            out@ == v@.subrange(0, i as int),
        decreases v.len() - i,
    {
        out.push((v[i].0.clone(), v[i].1));
        i += 1;
    }
    assert(out@ =~= v@);
    out
}

/// The opening input, once set, never changes: later turns do not
/// overwrite the session's title.
pub proof fn law_first_input_is_kept(s: TallyV, e: Event)
    requires
        s.first_user_input is Some,
    ensures
        observe_spec(s, e).first_user_input == s.first_user_input,
{
}

/// Counts never decrease.
pub proof fn law_counts_never_decrease(s: TallyV, e: Event)
    ensures
        observe_spec(s, e).total_turns >= s.total_turns,
        observe_spec(s, e).total_model_requests >= s.total_model_requests,
        observe_spec(s, e).total_tool_calls >= s.total_tool_calls,
        observe_spec(s, e).total_tool_failures >= s.total_tool_failures,
        observe_spec(s, e).total_input_tokens >= s.total_input_tokens,
        observe_spec(s, e).total_output_tokens >= s.total_output_tokens,
        observe_spec(s, e).total_cache_read_tokens >= s.total_cache_read_tokens,
{
}

/// The activity time is the latest real user message: a turn started with
/// non-blank input sets it to that event's time, and no other event (a
/// blank or missing input included) moves it.
pub proof fn law_activity_time_is_the_latest_user_message(s: TallyV, e: Event)
    ensures
        (e.payload matches Payload::Turn(TurnEvent::Started { input: Some(text), .. }) && !is_blank(
            text@,
        )) ==> observe_spec(s, e).last_user_message_at == Some(e.timestamp),
        !(e.payload matches Payload::Turn(TurnEvent::Started { input: Some(text), .. }) && !is_blank(
            text@,
        )) ==> observe_spec(s, e).last_user_message_at == s.last_user_message_at,
{
}

} // verus!
