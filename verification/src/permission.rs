//! The permission gate: a two-list rule table (`deny`, `ask`) that classifies
//! every tool call as allow / deny / ask before it runs. A matching deny rule
//! wins outright; otherwise a matching ask rule asks; otherwise the call is
//! allowed.

use vstd::prelude::*;

use crate::json::{Json, JsonV, json_get, json_view};
use crate::text::{has_substring, is_prefix_of, owned, str_contains, str_eq, str_starts_with};

verus! {

broadcast use vstd::std_specs::vec::group_vec_axioms;

/// What the policy decided for one tool call.
#[derive(Debug, Clone, Copy, PartialEq, Eq, Structural)]
pub enum Decision {
    /// Run the tool without interruption.
    Allow,
    /// Block the tool.
    Deny,
    /// Pause and ask a human.
    Ask,
}

/// How a rule's patterns are compared against the input text.
#[derive(Debug, Clone, Copy, PartialEq, Eq, Structural)]
pub enum MatchMode {
    /// A pattern matches when it occurs anywhere as a substring.
    Substring,
    /// A pattern matches when the text starts with it.
    Prefix,
}

impl Default for MatchMode {
    fn default() -> (r: Self)
        ensures
            r == MatchMode::Substring,
    {
        MatchMode::Substring
    }
}

impl MatchMode {
    /// Whether this is the default mode (substring).
    pub fn is_default(&self) -> (r: bool)
        ensures
            r == (*self == MatchMode::Substring),
    {
        matches!(self, MatchMode::Substring)
    }

    /// Whether `text` matches `pattern` under this mode.
    fn hit(self, text: &str, pattern: &str) -> (r: bool)
        ensures
            r == mode_hit(self, text@, pattern@),
    {
        match self {
            MatchMode::Substring => str_contains(text, pattern),
            MatchMode::Prefix => str_starts_with(text, pattern),
        }
    }
}

/// Whether `text` matches `pattern` under `mode`.
pub open spec fn mode_hit(mode: MatchMode, text: Seq<char>, pattern: Seq<char>) -> bool {
    match mode {
        MatchMode::Substring => has_substring(text, pattern),
        MatchMode::Prefix => is_prefix_of(pattern, text),
    }
}

/// Whether `pattern` matches (under `mode`) any string value reachable in `v`,
/// recursing into arrays and object member values (never object keys).
pub open spec fn value_hits(v: JsonV, pattern: Seq<char>, mode: MatchMode) -> bool
    decreases v, 0int,
{
    match v {
        JsonV::Str(s) => mode_hit(mode, s, pattern),
        JsonV::Array(items) => items_hit(items, pattern, mode, items.len() as int),
        JsonV::Object(members) => members_hit(members, pattern, mode, members.len() as int),
        _ => false,
    }
}

/// Whether `pattern` hits one of the first `k` items.
pub open spec fn items_hit(items: Seq<JsonV>, pattern: Seq<char>, mode: MatchMode, k: int) -> bool
    decreases items, k,
{
    if k <= 0 || k > items.len() {
        false
    } else {
        items_hit(items, pattern, mode, k - 1) || value_hits(items[k - 1], pattern, mode)
    }
}

/// Whether `pattern` hits the value of one of the first `k` members.
pub open spec fn members_hit(
    members: Seq<(Seq<char>, JsonV)>,
    pattern: Seq<char>,
    mode: MatchMode,
    k: int,
) -> bool
    decreases members, k,
{
    if k <= 0 || k > members.len() {
        false
    } else {
        members_hit(members, pattern, mode, k - 1) || value_hits(members[k - 1].1, pattern, mode)
    }
}

/// One rule: it matches a call when the tool name matches and the input
/// satisfies the field / mode / pattern test.
#[derive(Debug, Clone, PartialEq, Eq)]
pub struct Rule {
    /// The tool this rule applies to; `"*"` matches any tool.
    pub tool: String,
    /// The top-level input field the patterns test; `None` searches every
    /// string value of the input, recursively. A named field that is absent
    /// or not a string yields no text, so its patterns hit nothing.
    pub field: Option<String>,
    /// How patterns are compared.
    pub mode: MatchMode,
    /// The patterns; empty means "any input for this tool" (unless negated).
    pub patterns: Vec<String>,
    /// Match when no pattern hits (an allow-list).
    pub negate: bool,
}

/// The mathematical form of a [`Rule`].
pub struct RuleV {
    pub tool: Seq<char>,
    pub field: Option<Seq<char>>,
    pub mode: MatchMode,
    pub patterns: Seq<Seq<char>>,
    pub negate: bool,
}

/// The view of an optional string.
pub open spec fn opt_view(o: Option<String>) -> Option<Seq<char>> {
    match o {
        Some(s) => Some(s@),
        None => None,
    }
}

/// The views of a list of strings.
pub open spec fn strings_view(v: Seq<String>) -> Seq<Seq<char>> {
    v.map_values(|s: String| s@)
}

impl View for Rule {
    type V = RuleV;

    open spec fn view(&self) -> RuleV {
        RuleV {
            tool: self.tool@,
            field: opt_view(self.field),
            mode: self.mode,
            patterns: strings_view(self.patterns@),
            negate: self.negate,
        }
    }
}

impl Default for Rule {
    /// An empty rule for `tool = ""`, which matches no real tool.
    fn default() -> (r: Self)
        ensures
            r@ == (RuleV {
                tool: Seq::empty(),
                field: None,
                mode: MatchMode::Substring,
                patterns: Seq::empty(),
                negate: false,
            }),
    {
        let r = Rule {
            tool: String::new(),
            field: None,
            mode: MatchMode::Substring,
            patterns: Vec::new(),
            negate: false,
        };
        assert(r@.patterns =~= Seq::<Seq<char>>::empty());
        r
    }
}

/// Whether any of `patterns` hits `v` under `mode`.
pub open spec fn any_pattern_hits(patterns: Seq<Seq<char>>, v: JsonV, mode: MatchMode) -> bool {
    exists|j: int| 0 <= j < patterns.len() && #[trigger] value_hits(v, patterns[j], mode)
}

/// Whether any pattern of `r` hits `input`, honoring the field scope: an
/// unscoped rule searches every string in the input; a field-scoped rule
/// tests only that top-level member's text, and a member that is absent or
/// not a string yields no hit.
pub open spec fn pattern_hits(r: RuleV, input: JsonV) -> bool {
    match r.field {
        None => any_pattern_hits(r.patterns, input, r.mode),
        Some(name) => match json_get(input, name) {
            Some(JsonV::Str(text)) => any_pattern_hits(r.patterns, JsonV::Str(text), r.mode),
            _ => false,
        },
    }
}

/// Whether rule `r` matches a call of `tool` with `input`.
pub open spec fn rule_matches(r: RuleV, tool: Seq<char>, input: JsonV) -> bool {
    &&& (r.tool == "*"@ || r.tool == tool)
    &&& if r.patterns.len() == 0 {
        !r.negate
    } else {
        pattern_hits(r, input) != r.negate
    }
}

proof fn lemma_items_hit_grows(items: Seq<JsonV>, p: Seq<char>, m: MatchMode, a: int, b: int)
    requires
        0 < a <= b <= items.len(),
        items_hit(items, p, m, a),
    ensures
        items_hit(items, p, m, b),
    decreases b - a,
{
    if a < b {
        lemma_items_hit_grows(items, p, m, a, b - 1);
    }
}

proof fn lemma_members_hit_grows(
    ms: Seq<(Seq<char>, JsonV)>,
    p: Seq<char>,
    m: MatchMode,
    a: int,
    b: int,
)
    requires
        0 < a <= b <= ms.len(),
        members_hit(ms, p, m, a),
    ensures
        members_hit(ms, p, m, b),
    decreases b - a,
{
    if a < b {
        lemma_members_hit_grows(ms, p, m, a, b - 1);
    }
}

/// Exec form of [`value_hits`].
fn value_hits_exec(v: &Json, pattern: &str, mode: MatchMode) -> (r: bool)
    ensures
        r == value_hits(v@, pattern@, mode),
    decreases v,
{
    match v {
        Json::Str(s) => mode.hit(s, pattern),
        Json::Array(items) => {
            let ghost vs = match v@ {
                JsonV::Array(vs) => vs,
                _ => Seq::empty(),
            };
            let mut i: usize = 0;
            while i < items.len()
                invariant
                    *v == Json::Array(*items),
                    v@ == JsonV::Array(vs),
                    vs.len() == items.len(),
                    i <= items.len(),
                    forall|k: int| 0 <= k < items.len() ==> #[trigger] vs[k] == json_view(items@[k]),
                    !items_hit(vs, pattern@, mode, i as int),
                decreases items.len() - i,
            {
                assert(decreases_to!(*v => (*v)->Array_0));
                assert(decreases_to!((*v)->Array_0 => (*v)->Array_0[i as int]));
                if value_hits_exec(&items[i], pattern, mode) {
                    assert(vs[i as int] == json_view(items@[i as int]));
                    assert(items_hit(vs, pattern@, mode, i + 1));
                    assert(items_hit(vs, pattern@, mode, vs.len() as int)) by {
                        lemma_items_hit_grows(vs, pattern@, mode, i + 1, vs.len() as int);
                    }
                    return true;
                }
                assert(!items_hit(vs, pattern@, mode, i + 1));
                i += 1;
            }
            false
        },
        Json::Object(members) => {
            let ghost ms = match v@ {
                JsonV::Object(ms) => ms,
                _ => Seq::empty(),
            };
            let mut i: usize = 0;
            while i < members.len()
                invariant
                    *v == Json::Object(*members),
                    v@ == JsonV::Object(ms),
                    ms.len() == members.len(),
                    i <= members.len(),
                    forall|k: int|
                        0 <= k < members.len() ==> #[trigger] ms[k] == (
                            members@[k].0@,
                            json_view(members@[k].1),
                        ),
                    !members_hit(ms, pattern@, mode, i as int),
                decreases members.len() - i,
            {
                assert(decreases_to!(*v => (*v)->Object_0));
                assert(decreases_to!((*v)->Object_0 => (*v)->Object_0[i as int]));
                assert(decreases_to!((*v)->Object_0[i as int] => (*v)->Object_0[i as int].1));
                if value_hits_exec(&members[i].1, pattern, mode) {
                    assert(ms[i as int] == (members@[i as int].0@, json_view(members@[i as int].1)));
                    assert(members_hit(ms, pattern@, mode, i + 1));
                    assert(members_hit(ms, pattern@, mode, ms.len() as int)) by {
                        lemma_members_hit_grows(ms, pattern@, mode, i + 1, ms.len() as int);
                    }
                    return true;
                }
                assert(!members_hit(ms, pattern@, mode, i + 1));
                i += 1;
            }
            false
        },
        _ => false,
    }
}

/// A copy of a list of strings.
pub fn clone_strings(v: &Vec<String>) -> (r: Vec<String>)
    ensures
        r@ == v@,
{
    let mut out: Vec<String> = Vec::new();
    let mut i: usize = 0;
    while i < v.len()
        invariant
            i <= v.len(),
            out@ == v@.subrange(0, i as int),
        decreases v.len() - i,
    {
        out.push(v[i].clone());
        i += 1;
    }
    assert(out@ =~= v@);
    out
}

/// A copy of an optional string.
pub fn clone_opt(o: &Option<String>) -> (r: Option<String>)
    ensures
        r == *o,
{
    match o {
        Some(s) => Some(s.clone()),
        None => None,
    }
}

impl Rule {
    /// A substring rule over the whole input: an empty `patterns` is a
    /// tool-level rule.
    pub fn contains(tool: &str, patterns: Vec<String>) -> (r: Self)
        ensures
            r@ == (RuleV {
                tool: tool@,
                field: None,
                mode: MatchMode::Substring,
                patterns: strings_view(patterns@),
                negate: false,
            }),
    {
        Rule { tool: owned(tool), field: None, mode: MatchMode::Substring, patterns, negate: false }
    }

    /// A copy of this rule.
    pub fn duplicate(&self) -> (r: Self)
        ensures
            r@ == self@,
    {
        Rule {
            tool: self.tool.clone(),
            field: clone_opt(&self.field),
            mode: self.mode,
            patterns: clone_strings(&self.patterns),
            negate: self.negate,
        }
    }

    /// Whether any pattern hits `v` under this rule's mode.
    fn any_hits(&self, v: &Json) -> (r: bool)
        ensures
            r == any_pattern_hits(self@.patterns, v@, self.mode),
    {
        let mut j: usize = 0;
        while j < self.patterns.len()
            invariant
                j <= self.patterns.len(),
                self@.patterns.len() == self.patterns.len(),
                forall|k: int|
                    0 <= k < j ==> !value_hits(v@, #[trigger] self@.patterns[k], self.mode),
            decreases self.patterns.len() - j,
        {
            if value_hits_exec(v, &self.patterns[j], self.mode) {
                assert(self@.patterns[j as int] == self.patterns@[j as int]@);
                return true;
            }
            assert(self@.patterns[j as int] == self.patterns@[j as int]@);
            j += 1;
        }
        false
    }

    /// Whether any pattern hits, honoring the rule's field scope and mode.
    fn pattern_hits(&self, input: &Json) -> (r: bool)
        ensures
            r == pattern_hits(self@, input@),
    {
        match &self.field {
            None => self.any_hits(input),
            Some(name) => match input.get(name) {
                Some(v) => match v {
                    Json::Str(_) => self.any_hits(v),
                    _ => false,
                },
                None => false,
            },
        }
    }

    /// Whether this rule matches a call to `tool` with the given `input`.
    pub fn matches(&self, tool: &str, input: &Json) -> (r: bool)
        ensures
            r == rule_matches(self@, tool@, input@),
    {
        let wildcard = str_eq(&self.tool, "*");
        if !wildcard && !str_eq(&self.tool, tool) {
            return false;
        }
        if self.patterns.len() == 0 {
            return !self.negate;
        }
        let hit = self.pattern_hits(input);
        hit != self.negate
    }
}

/// Whether two rules are the same rule (every field equal).
pub fn same_rule(a: &Rule, b: &Rule) -> (r: bool)
    ensures
        r == (a@ == b@),
{
    if a.tool != b.tool || a.mode != b.mode || a.negate != b.negate {
        return false;
    }
    let fields_equal = match (&a.field, &b.field) {
        (Some(x), Some(y)) => *x == *y,
        (None, None) => true,
        _ => false,
    };
    if !fields_equal {
        return false;
    }
    if a.patterns.len() != b.patterns.len() {
        assert(a@.patterns.len() != b@.patterns.len());
        return false;
    }
    let mut i: usize = 0;
    while i < a.patterns.len()
        invariant
            i <= a.patterns.len(),
            a.patterns.len() == b.patterns.len(),
            forall|k: int| 0 <= k < i ==> a.patterns@[k]@ == b.patterns@[k]@,
        decreases a.patterns.len() - i,
    {
        if a.patterns[i] != b.patterns[i] {
            assert(a@.patterns[i as int] != b@.patterns[i as int]);
            return false;
        }
        i += 1;
    }
    assert(a@.patterns =~= b@.patterns);
    true
}

/// A tool-call gate: two ordered rule lists whose precedence is fixed by
/// [`PermissionPolicy::evaluate`]. The empty policy allows everything.
#[derive(Debug, Clone, PartialEq, Eq)]
pub struct PermissionPolicy {
    /// Rules that, when matched, block the call. Highest precedence.
    pub deny: Vec<Rule>,
    /// Rules that, when matched (and no deny rule matched), require approval.
    pub ask: Vec<Rule>,
}

/// The mathematical form of a [`PermissionPolicy`].
pub struct PolicyV {
    pub deny: Seq<RuleV>,
    pub ask: Seq<RuleV>,
}

/// The views of a list of rules.
pub open spec fn rules_view(v: Seq<Rule>) -> Seq<RuleV> {
    v.map_values(|r: Rule| r@)
}

impl View for PermissionPolicy {
    type V = PolicyV;

    open spec fn view(&self) -> PolicyV {
        PolicyV { deny: rules_view(self.deny@), ask: rules_view(self.ask@) }
    }
}

/// Whether some rule of `rules` matches the call.
pub open spec fn any_rule_matches(rules: Seq<RuleV>, tool: Seq<char>, input: JsonV) -> bool {
    exists|i: int| 0 <= i < rules.len() && #[trigger] rule_matches(rules[i], tool, input)
}

/// The decision for a call: a matching deny rule first, then a matching ask rule, otherwise allow.
pub open spec fn evaluate(p: PolicyV, tool: Seq<char>, input: JsonV) -> Decision {
    if any_rule_matches(p.deny, tool, input) {
        Decision::Deny
    } else if any_rule_matches(p.ask, tool, input) {
        Decision::Ask
    } else {
        Decision::Allow
    }
}

/// `acc` followed by each rule of `extra` that is not already present, in
/// order (a duplicate-collapsing union).
pub open spec fn union_keep_order(acc: Seq<RuleV>, extra: Seq<RuleV>) -> Seq<RuleV>
    decreases extra.len(),
{
    if extra.len() == 0 {
        acc
    } else {
        let prev = union_keep_order(acc, extra.drop_last());
        if prev.contains(extra.last()) {
            prev
        } else {
            prev.push(extra.last())
        }
    }
}

/// `over` layered on `base`: deny lists union (a floor the override cannot
/// lower); a non-empty override ask list replaces the base's.
pub open spec fn layered(over: PolicyV, base: PolicyV) -> PolicyV {
    PolicyV {
        deny: union_keep_order(base.deny, over.deny),
        ask: if over.ask.len() == 0 {
            base.ask
        } else {
            over.ask
        },
    }
}

/// Whether some rule of `rules` matches the call.
fn any_matches(rules: &Vec<Rule>, tool: &str, input: &Json) -> (r: bool)
    ensures
        r == any_rule_matches(rules_view(rules@), tool@, input@),
{
    let mut i: usize = 0;
    while i < rules.len()
        invariant
            i <= rules.len(),
            forall|k: int|
                0 <= k < i ==> !rule_matches(#[trigger] rules_view(rules@)[k], tool@, input@),
        decreases rules.len() - i,
    {
        if rules[i].matches(tool, input) {
            assert(rules_view(rules@)[i as int] == rules@[i as int]@);
            return true;
        }
        assert(rules_view(rules@)[i as int] == rules@[i as int]@);
        i += 1;
    }
    false
}

/// Whether `rules` already holds a rule equal to `rule`.
fn holds_rule(rules: &Vec<Rule>, rule: &Rule) -> (r: bool)
    ensures
        r == rules_view(rules@).contains(rule@),
{
    let mut i: usize = 0;
    while i < rules.len()
        invariant
            i <= rules.len(),
            forall|k: int| 0 <= k < i ==> #[trigger] rules_view(rules@)[k] != rule@,
        decreases rules.len() - i,
    {
        if same_rule(&rules[i], rule) {
            assert(rules_view(rules@)[i as int] == rule@);
            return true;
        }
        i += 1;
    }
    false
}

impl Default for PermissionPolicy {
    /// The empty policy, which allows every call.
    fn default() -> (r: Self)
        ensures
            r.deny@.len() == 0,
            r.ask@.len() == 0,
    {
        PermissionPolicy { deny: Vec::new(), ask: Vec::new() }
    }
}

impl PermissionPolicy {

    /// Classify a tool call: a matching deny rule wins outright; otherwise a
    /// matching ask rule requires approval; otherwise the call is allowed.
    pub fn evaluate(&self, tool: &str, input: &Json) -> (r: Decision)
        ensures
            r == evaluate(self@, tool@, input@),
    {
        if any_matches(&self.deny, tool, input) {
            return Decision::Deny;
        }
        if any_matches(&self.ask, tool, input) {
            return Decision::Ask;
        }
        Decision::Allow
    }

    /// Whether the policy has no rules at all.
    pub fn is_empty(&self) -> (r: bool)
        ensures
            r == (self.deny@.len() == 0 && self.ask@.len() == 0),
    {
        self.deny.len() == 0 && self.ask.len() == 0
    }

    /// Layer this policy (the higher-precedence override) over `base`: `deny`
    /// is union-inherited with duplicates collapsed, `ask` is replaced by a
    /// non-empty override list and inherited otherwise.
    pub fn layer_over(self, base: Self) -> (r: Self)
        ensures
            r@ == layered(self@, base@),
    {
        let mut deny = base.deny;
        let ghost base_deny = rules_view(deny@);
        let mut i: usize = 0;
        while i < self.deny.len()
            invariant
                i <= self.deny.len(),
                rules_view(deny@) == union_keep_order(
                    base_deny,
                    rules_view(self.deny@).subrange(0, i as int),
                ),
            decreases self.deny.len() - i,
        {
            let ghost extra = rules_view(self.deny@).subrange(0, i + 1);
            assert(extra.drop_last() =~= rules_view(self.deny@).subrange(0, i as int));
            assert(extra.last() == self.deny@[i as int]@);
            if !holds_rule(&deny, &self.deny[i]) {
                let rule = self.deny[i].duplicate();
                deny.push(rule);
                assert(rules_view(deny@) =~= union_keep_order(base_deny, extra));
            }
            i += 1;
        }
        assert(rules_view(self.deny@).subrange(0, self.deny.len() as int) =~= rules_view(
            self.deny@,
        ));
        let ask = if self.ask.len() == 0 {
            base.ask
        } else {
            self.ask
        };
        PermissionPolicy { deny, ask }
    }
}


proof fn lemma_union_contents(acc: Seq<RuleV>, extra: Seq<RuleV>)
    ensures
        forall|r: RuleV|
            #[trigger] union_keep_order(acc, extra).contains(r) <==> (acc.contains(r)
                || extra.contains(r)),
        union_keep_order(acc, extra).len() >= acc.len(),
        union_keep_order(acc, extra).subrange(0, acc.len() as int) == acc,
    decreases extra.len(),
{
    if extra.len() > 0 {
        let init = extra.drop_last();
        lemma_union_contents(acc, init);
        let prev = union_keep_order(acc, init);
        assert forall|r: RuleV| #[trigger] union_keep_order(acc, extra).contains(r) <==> (
        acc.contains(r) || extra.contains(r)) by {
            if extra.contains(r) && !init.contains(r) {
                assert(r == extra.last()) by {
                    let k = choose|k: int| 0 <= k < extra.len() && extra[k] == r;
                    if k < extra.len() - 1 {
                        assert(init[k] == r);
                    }
                }
            }
            if init.contains(r) {
                let k = choose|k: int| 0 <= k < init.len() && init[k] == r;
                assert(extra[k] == r);
            }
            if !prev.contains(extra.last()) {
                let u = prev.push(extra.last());
                if u.contains(r) {
                    let k = choose|k: int| 0 <= k < u.len() && u[k] == r;
                    if k < prev.len() {
                        assert(prev[k] == r);
                    }
                }
                if prev.contains(r) {
                    let k = choose|k: int| 0 <= k < prev.len() && prev[k] == r;
                    assert(u[k] == r);
                }
                assert(u[prev.len() as int] == extra.last());
            }
        }
        assert(union_keep_order(acc, extra).subrange(0, acc.len() as int) =~= acc);
    }
}

proof fn lemma_union_absorbs(acc: Seq<RuleV>, extra: Seq<RuleV>)
    requires
        forall|r: RuleV| extra.contains(r) ==> acc.contains(r),
    ensures
        union_keep_order(acc, extra) == acc,
    decreases extra.len(),
{
    if extra.len() > 0 {
        let init = extra.drop_last();
        assert forall|r: RuleV| init.contains(r) implies acc.contains(r) by {
            let k = choose|k: int| 0 <= k < init.len() && init[k] == r;
            assert(extra[k] == r);
        }
        lemma_union_absorbs(acc, init);
        assert(extra.contains(extra.last())) by {
            assert(extra[extra.len() - 1] == extra.last());
        }
    }
}

/// Some rule matches exactly when some rule in a list with the same members
/// matches.
proof fn lemma_any_match_by_contents(a: Seq<RuleV>, b: Seq<RuleV>, tool: Seq<char>, input: JsonV)
    requires
        forall|r: RuleV| a.contains(r) ==> b.contains(r),
        any_rule_matches(a, tool, input),
    ensures
        any_rule_matches(b, tool, input),
{
    let i = choose|i: int| 0 <= i < a.len() && #[trigger] rule_matches(a[i], tool, input);
    assert(a.contains(a[i]));
    let j = choose|j: int| 0 <= j < b.len() && b[j] == a[i];
    assert(rule_matches(b[j], tool, input));
}

/// Deny lists union under layering: the layered policy's deny list matches a
/// call exactly when the base's or the override's does. So an override can add
/// denials but never drop an inherited one.
pub proof fn law_layered_denials_are_the_union(
    over: PolicyV,
    base: PolicyV,
    tool: Seq<char>,
    input: JsonV,
)
    ensures
        any_rule_matches(layered(over, base).deny, tool, input) <==> (any_rule_matches(
            base.deny,
            tool,
            input,
        ) || any_rule_matches(over.deny, tool, input)),
{
    let u = layered(over, base).deny;
    lemma_union_contents(base.deny, over.deny);
    if any_rule_matches(base.deny, tool, input) {
        lemma_any_match_by_contents(base.deny, u, tool, input);
    }
    if any_rule_matches(over.deny, tool, input) {
        lemma_any_match_by_contents(over.deny, u, tool, input);
    }
    if any_rule_matches(u, tool, input) {
        let i = choose|i: int| 0 <= i < u.len() && #[trigger] rule_matches(u[i], tool, input);
        assert(u.contains(u[i]));
        if base.deny.contains(u[i]) {
            let j = choose|j: int| 0 <= j < base.deny.len() && base.deny[j] == u[i];
            assert(rule_matches(base.deny[j], tool, input));
        } else {
            let j = choose|j: int| 0 <= j < over.deny.len() && over.deny[j] == u[i];
            assert(rule_matches(over.deny[j], tool, input));
        }
    }
}

/// Layering never weakens a denial: a call either layer denies is denied by
/// the layered policy.
pub proof fn law_layering_keeps_every_denial(
    over: PolicyV,
    base: PolicyV,
    tool: Seq<char>,
    input: JsonV,
)
    requires
        evaluate(base, tool, input) == Decision::Deny || evaluate(over, tool, input)
            == Decision::Deny,
    ensures
        evaluate(layered(over, base), tool, input) == Decision::Deny,
{
    law_layered_denials_are_the_union(over, base, tool, input);
}

/// Layering the same override twice is the same as layering it once
/// (duplicate denials collapse).
pub proof fn law_layering_is_idempotent(over: PolicyV, base: PolicyV)
    ensures
        layered(over, layered(over, base)) == layered(over, base),
{
    let once = layered(over, base);
    lemma_union_contents(base.deny, over.deny);
    assert forall|r: RuleV| over.deny.contains(r) implies once.deny.contains(r) by {}
    lemma_union_absorbs(once.deny, over.deny);
}

/// An override with no rules is a no-op: the base policy comes back unchanged.
pub proof fn law_empty_override_inherits_base(base: PolicyV)
    ensures
        layered(PolicyV { deny: Seq::empty(), ask: Seq::empty() }, base) == base,
{
}

/// The empty policy allows every call.
pub proof fn law_empty_policy_allows_everything(tool: Seq<char>, input: JsonV)
    ensures
        evaluate(PolicyV { deny: Seq::empty(), ask: Seq::empty() }, tool, input)
            == Decision::Allow,
{
}

/// A negated rule with no patterns never matches: an empty allow-list cannot
/// lock a tool out.
pub proof fn law_empty_negated_rule_never_matches(r: RuleV, tool: Seq<char>, input: JsonV)
    requires
        r.negate,
        r.patterns.len() == 0,
    ensures
        !rule_matches(r, tool, input),
{
}

/// Deny outranks ask: a call some deny rule matches is denied, whatever the
/// ask rules say.
pub proof fn law_deny_outranks_ask(p: PolicyV, tool: Seq<char>, input: JsonV)
    requires
        any_rule_matches(p.deny, tool, input),
    ensures
        evaluate(p, tool, input) == Decision::Deny,
{
}

/// A field-scoped rule looks only at its field: two inputs whose member of
/// that name is the same (or absent from both) get the same verdict from it.
pub proof fn law_field_scope_ignores_other_members(
    r: RuleV,
    tool: Seq<char>,
    a: JsonV,
    b: JsonV,
)
    requires
        r.field is Some,
        json_get(a, r.field->0) == json_get(b, r.field->0),
    ensures
        rule_matches(r, tool, a) == rule_matches(r, tool, b),
{
}

/// A field-scoped rule whose field is absent or not a string reads no text:
/// with patterns, it then matches exactly when it is negated (and the tool
/// matches).
pub proof fn law_non_text_field_yields_no_text(r: RuleV, tool: Seq<char>, input: JsonV)
    requires
        r.field is Some,
        r.patterns.len() > 0,
        !(json_get(input, r.field->0) matches Some(JsonV::Str(_))),
    ensures
        rule_matches(r, tool, input) == ((r.tool == "*"@ || r.tool == tool) && r.negate),
{
}

} // verus!
