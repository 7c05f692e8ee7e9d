//! A JSON value model: the tool-call inputs, hook payloads and plan arguments
//! the decision logic inspects.

use vstd::prelude::*;

verus! {

broadcast use vstd::std_specs::vec::group_vec_axioms;

/// A JSON value. Numbers keep their literal text; object members keep their
/// order (keys are unique in every value this crate builds or parses).
#[derive(Debug, PartialEq, Eq)]
pub enum Json {
    Null,
    Bool(bool),
    Number(String),
    Str(String),
    Array(Vec<Json>),
    Object(Vec<(String, Json)>),
}

/// The mathematical form of a [`Json`] value.
pub enum JsonV {
    Null,
    Bool(bool),
    Number(Seq<char>),
    Str(Seq<char>),
    Array(Seq<JsonV>),
    Object(Seq<(Seq<char>, JsonV)>),
}

/// The view of a JSON value: strings become character sequences.
pub open spec fn json_view(j: Json) -> JsonV
    decreases j,
{
    match j {
        Json::Null => JsonV::Null,
        Json::Bool(b) => JsonV::Bool(b),
        Json::Number(n) => JsonV::Number(n@),
        Json::Str(s) => JsonV::Str(s@),
        Json::Array(items) => JsonV::Array(
            Seq::new(
                items.len() as nat,
                |i: int|
                    if 0 <= i < items.len() {
                        json_view(items[i])
                    } else {
                        JsonV::Null
                    },
            ),
        ),
        Json::Object(members) => JsonV::Object(
            Seq::new(
                members.len() as nat,
                |i: int|
                    if 0 <= i < members.len() {
                        (members[i].0@, json_view(members[i].1))
                    } else {
                        (Seq::empty(), JsonV::Null)
                    },
            ),
        ),
    }
}

impl View for Json {
    type V = JsonV;

    open spec fn view(&self) -> JsonV {
        json_view(*self)
    }
}

/// The index of the first member named `key` at or after `i`, or `-1`.
pub open spec fn first_member(members: Seq<(Seq<char>, JsonV)>, key: Seq<char>, i: int) -> int
    decreases members.len() - i,
{
    if i < 0 || i >= members.len() {
        -1
    } else if members[i].0 == key {
        i
    } else {
        first_member(members, key, i + 1)
    }
}

/// The value of member `key` of an object (`None` for a missing member or a
/// value that is not an object).
pub open spec fn json_get(v: JsonV, key: Seq<char>) -> Option<JsonV> {
    match v {
        JsonV::Object(members) => {
            let i = first_member(members, key, 0);
            if 0 <= i < members.len() {
                Some(members[i].1)
            } else {
                None
            }
        },
        _ => None,
    }
}

proof fn lemma_first_member_range(members: Seq<(Seq<char>, JsonV)>, key: Seq<char>, i: int)
    requires
        0 <= i,
    ensures
        first_member(members, key, i) == -1 || (i <= first_member(members, key, i) < members.len()
            && members[first_member(members, key, i)].0 == key),
    decreases members.len() - i,
{
    if i < members.len() && members[i].0 != key {
        lemma_first_member_range(members, key, i + 1);
    }
}

/// A deep copy of `j`.
pub fn json_clone(j: &Json) -> (r: Json)
    ensures
        r@ == j@,
    decreases j,
{
    match j {
        Json::Null => Json::Null,
        Json::Bool(b) => Json::Bool(*b),
        Json::Number(n) => Json::Number(n.clone()),
        Json::Str(s) => Json::Str(s.clone()),
        Json::Array(items) => {
            let mut out: Vec<Json> = Vec::new();
            let mut i: usize = 0;
            while i < items.len()
                invariant
                    *j == Json::Array(*items),
                    i <= items.len(),
                    out.len() == i,
                    forall|k: int| 0 <= k < i ==> json_view(#[trigger] out@[k]) == json_view(items@[k]),
                decreases items.len() - i,
            {
                assert(decreases_to!(*j => (*j)->Array_0));
                assert(decreases_to!(*items => items[i as int]));
                let c = json_clone(&items[i]);
                out.push(c);
                i += 1;
            }
            let r = Json::Array(out);
            assert(json_view(r) =~= json_view(*j)) by {
                if let JsonV::Array(a) = json_view(r) {
                    if let JsonV::Array(b) = json_view(*j) {
                        assert(a =~= b);
                    }
                }
            }
            r
        },
        Json::Object(members) => {
            let mut out: Vec<(String, Json)> = Vec::new();
            let mut i: usize = 0;
            while i < members.len()
                invariant
                    *j == Json::Object(*members),
                    i <= members.len(),
                    out.len() == i,
                    forall|k: int|
                        0 <= k < i ==> (#[trigger] out@[k]).0@ == members@[k].0@ && json_view(
                            out@[k].1,
                        ) == json_view(members@[k].1),
                decreases members.len() - i,
            {
                assert(decreases_to!(*j => (*j)->Object_0));
                assert(decreases_to!(*members => members[i as int]));
                assert(decreases_to!(members[i as int] => members[i as int].1));
                let c = json_clone(&members[i].1);
                let k = members[i].0.clone();
                out.push((k, c));
                i += 1;
            }
            let r = Json::Object(out);
            assert(json_view(r) =~= json_view(*j)) by {
                if let JsonV::Object(a) = json_view(r) {
                    if let JsonV::Object(b) = json_view(*j) {
                        assert(a =~= b);
                    }
                }
            }
            r
        },
    }
}

impl Json {
    /// The value of member `key` when `self` is an object holding it.
    pub fn get(&self, key: &str) -> (r: Option<&Json>)
        ensures
            match r {
                Some(v) => json_get(self@, key@) == Some(v@),
                None => json_get(self@, key@) is None,
            },
    {
        match self {
            Json::Object(members) => {
                let ghost ms = match self@ {
                    JsonV::Object(ms) => ms,
                    _ => Seq::empty(),
                };
                assert(ms.len() == members.len());
                let mut i: usize = 0;
                while i < members.len()
                    invariant
                        i <= members.len(),
                        self@ == JsonV::Object(ms),
                        ms.len() == members.len(),
                        forall|k: int| 0 <= k < members.len() ==> #[trigger] ms[k] == (members@[k].0@, json_view(members@[k].1)),
                        first_member(ms, key@, 0) == first_member(ms, key@, i as int),
                    decreases members.len() - i,
                {
                    if crate::text::str_eq(&members[i].0, key) {
                        assert(ms[i as int] == (members@[i as int].0@, json_view(members@[i as int].1)));
                        assert(first_member(ms, key@, i as int) == i);
                        assert(self@ == JsonV::Object(ms));
                        assert(json_get(self@, key@) == Some(ms[i as int].1));
                        return Some(&members[i].1);
                    }
                    assert(ms[i as int].0 != key@);
                    i += 1;
                }
                None
            },
            _ => None,
        }
    }

    /// The text of a JSON string value.
    pub fn as_str(&self) -> (r: Option<&String>)
        ensures
            match r {
                Some(s) => self@ == JsonV::Str(s@),
                None => !(self@ is Str),
            },
    {
        match self {
            Json::Str(s) => Some(s),
            _ => None,
        }
    }
}

/// The value a JSON text denotes, or `None` when the text is not valid JSON.
pub uninterp spec fn json_text_value(text: Seq<char>) -> Option<JsonV>;

/// Parses JSON text with `serde_json::from_str::<serde_json::Value>`; the
/// contract claims only that the result is the value the text denotes
/// (`None` exactly when serde_json rejects the text).
#[verifier::external_body]
pub(crate) fn parse_json(text: &str) -> (r: Option<Json>)
    ensures
        match r {
            Some(v) => json_text_value(text@) == Some(v@),
            None => json_text_value(text@) is None,
        },
{
    serde_json::from_str::<serde_json::Value>(text).ok().map(|v| from_serde(&v))
}

/// The compact JSON text serde_json writes for a value.
pub uninterp spec fn json_text(v: JsonV) -> Seq<char>;

/// Writes a value as compact JSON text with serde_json (`Value::to_string`);
/// the contract claims only that the text is the one serde_json writes for
/// this value (which order object members come out in, and how numbers and
/// strings are spelled, is left to serde_json).
#[verifier::external_body]
pub(crate) fn json_to_text(j: &Json) -> (r: String)
    ensures
        r@ == json_text(j@),
{
    to_serde(j).to_string()
}

/// `serde_json::Value`, carried opaquely between the converters and serde_json.
#[verifier::external_type_specification]
#[verifier::external_body]
pub struct ExSerdeJsonValue(serde_json::Value);

/// Converts a parsed `serde_json::Value` one for one into a [`Json`]; used
/// only inside [`parse_json`], whose contract covers it.
#[verifier::external_body]
fn from_serde(v: &serde_json::Value) -> Json {
    match v {
        serde_json::Value::Null => Json::Null,
        serde_json::Value::Bool(b) => Json::Bool(*b),
        serde_json::Value::Number(n) => Json::Number(n.to_string()),
        serde_json::Value::String(s) => Json::Str(s.clone()),
        serde_json::Value::Array(a) => Json::Array(a.iter().map(from_serde).collect()),
        serde_json::Value::Object(m) => Json::Object(m.iter().map(|(k, x)| (k.clone(), from_serde(x))).collect()),
    }
}

/// Converts a [`Json`] one for one into a `serde_json::Value`; used only
/// inside [`json_to_text`], whose contract covers it. A number whose text
/// serde_json does not accept becomes `null`.
#[verifier::external_body]
fn to_serde(j: &Json) -> serde_json::Value {
    match j {
        Json::Null => serde_json::Value::Null,
        Json::Bool(b) => serde_json::Value::Bool(*b),
        Json::Number(n) => match n.parse::<serde_json::Number>() {
            Ok(x) => serde_json::Value::Number(x),
            Err(_) => serde_json::Value::Null,
        },
        Json::Str(s) => serde_json::Value::String(s.clone()),
        Json::Array(a) => serde_json::Value::Array(a.iter().map(to_serde).collect()),
        Json::Object(m) => serde_json::Value::Object(m.iter().map(|(k, x)| (k.clone(), to_serde(x))).collect()),
    }
}

} // verus!
