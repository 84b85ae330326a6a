//! JSON values as the runtime reads and builds them.
//!
//! Object members keep the order in which they are serialized (key order);
//! numbers keep the text by which they are written.
use vstd::prelude::*;

use crate::text::{copy_string, str_eq};

verus! {

/// A JSON value.
#[derive(Debug, PartialEq)]
pub enum JsonValue {
    Null,
    Bool(bool),
    Number(String),
    String(String),
    Array(Vec<JsonValue>),
    Object(Vec<JsonMember>),
}

/// One member of a JSON object.
#[derive(Debug, PartialEq)]
pub struct JsonMember {
    pub key: String,
    pub value: JsonValue,
}

/// What a JSON value stands for.
pub enum Json {
    Null,
    Bool(bool),
    Number(Seq<char>),
    Str(Seq<char>),
    Array(Seq<Json>),
    Object(Seq<(Seq<char>, Json)>),
}

/// The value a JSON value stands for.
pub open spec fn json_view(v: JsonValue) -> Json
    decreases v,
{
    match v {
        JsonValue::Null => Json::Null,
        JsonValue::Bool(b) => Json::Bool(b),
        JsonValue::Number(n) => Json::Number(n@),
        JsonValue::String(s) => Json::Str(s@),
        JsonValue::Array(items) => Json::Array(json_seq_view(items@)),
        JsonValue::Object(members) => Json::Object(members_view(members@)),
    }
}

/// The values a sequence of JSON values stands for.
pub open spec fn json_seq_view(s: Seq<JsonValue>) -> Seq<Json>
    decreases s,
{
    if s.len() == 0 {
        Seq::empty()
    } else {
        json_seq_view(s.subrange(0, s.len() - 1)).push(json_view(s[s.len() - 1]))
    }
}

/// The members a sequence of object members stands for.
pub open spec fn members_view(s: Seq<JsonMember>) -> Seq<(Seq<char>, Json)>
    decreases s,
{
    if s.len() == 0 {
        Seq::empty()
    } else {
        members_view(s.subrange(0, s.len() - 1)).push(
            (s[s.len() - 1].key@, json_view(s[s.len() - 1].value)),
        )
    }
}

/// The member list has one entry per element, in order.
pub proof fn lemma_json_seq_view(s: Seq<JsonValue>)
    ensures
        json_seq_view(s).len() == s.len(),
        forall|i: int| 0 <= i < s.len() ==> #[trigger] json_seq_view(s)[i] == json_view(s[i]),
    decreases s.len(),
{
    if s.len() > 0 {
        let p = s.subrange(0, s.len() - 1);
        lemma_json_seq_view(p);
        assert forall|i: int| 0 <= i < s.len() implies #[trigger] json_seq_view(s)[i] == json_view(
            s[i],
        ) by {
            if i < s.len() - 1 {
                assert(p[i] == s[i]);
            }
        }
    }
}

/// The member list has one entry per member, in order.
pub proof fn lemma_members_view(s: Seq<JsonMember>)
    ensures
        members_view(s).len() == s.len(),
        forall|i: int|
            0 <= i < s.len() ==> #[trigger] members_view(s)[i] == (s[i].key@, json_view(s[i].value)),
    decreases s.len(),
{
    if s.len() > 0 {
        let p = s.subrange(0, s.len() - 1);
        lemma_members_view(p);
        assert forall|i: int| 0 <= i < s.len() implies #[trigger] members_view(s)[i] == (
            s[i].key@,
            json_view(s[i].value),
        ) by {
            if i < s.len() - 1 {
                assert(p[i] == s[i]);
            }
        }
    }
}

/// The value of the first member named `key`, if any.
pub open spec fn json_get(v: Json, key: Seq<char>) -> Option<Json> {
    match v {
        Json::Object(members) => members_get(members, key),
        _ => None,
    }
}

/// The value of the first member named `key` in a member list.
pub open spec fn members_get(members: Seq<(Seq<char>, Json)>, key: Seq<char>) -> Option<Json>
    decreases members.len(),
{
    if members.len() == 0 {
        None
    } else if members[0].0 == key {
        Some(members[0].1)
    } else {
        members_get(members.subrange(1, members.len() as int), key)
    }
}

/// The text of a JSON string, `None` for other values.
pub open spec fn json_as_str(v: Option<Json>) -> Option<Seq<char>> {
    match v {
        Some(Json::Str(s)) => Some(s),
        _ => None,
    }
}

/// The string member named `key`, if there is one and it is a string.
pub open spec fn json_str_member(v: Json, key: Seq<char>) -> Option<Seq<char>> {
    json_as_str(json_get(v, key))
}

/// The first member at position `i` or later whose key is `key`.
pub proof fn lemma_members_get_from(members: Seq<(Seq<char>, Json)>, i: int, key: Seq<char>)
    requires
        0 <= i <= members.len(),
        forall|j: int| 0 <= j < i ==> (#[trigger] members[j]).0 != key,
    ensures
        members_get(members, key) == members_get(members.subrange(i, members.len() as int), key),
    decreases i,
{
    if i > 0 {
        let t = members.subrange(1, members.len() as int);
        assert forall|j: int| 0 <= j < i - 1 implies (#[trigger] t[j]).0 != key by {
            assert(t[j] == members[j + 1]);
        }
        assert(members[0].0 != key);
        lemma_members_get_from(t, i - 1, key);
        assert(t.subrange(i - 1, t.len() as int) =~= members.subrange(i, members.len() as int));
    } else {
        assert(members.subrange(0, members.len() as int) =~= members);
    }
}

impl JsonValue {
    /// The value of the first member named `key` when this is an object.
    #[verifier::loop_isolation(false)]
    pub fn get(&self, key: &str) -> (res: Option<&JsonValue>)
        ensures
            match res {
                Some(r) => json_get(json_view(*self), key@) == Some(json_view(*r)),
                None => json_get(json_view(*self), key@).is_none(),
            },
    {
        match self {
            JsonValue::Object(members) => {
                proof {
                    lemma_members_view(members@);
                }
                let ghost mv = members_view(members@);
                let mut i: usize = 0;
                while i < members.len()
                    invariant
                        i <= members@.len(),
                        mv == members_view(members@),
                        mv.len() == members@.len(),
                        forall|k: int|
                            0 <= k < members@.len() ==> #[trigger] mv[k] == (
                                members@[k].key@,
                                json_view(members@[k].value),
                            ),
                        forall|j: int| 0 <= j < i ==> (#[trigger] mv[j]).0 != key@,
                    decreases members@.len() - i,
                {
                    if str_eq(members[i].key.as_str(), key) {
                        proof {
                            lemma_members_get_from(mv, i as int, key@);
                            let t = mv.subrange(i as int, mv.len() as int);
                            assert(t[0] == mv[i as int]);
                            assert(mv[i as int].0 == key@);
                            assert(members_get(t, key@) == Some(t[0].1));
                            assert(json_view(*self) == Json::Object(mv));
                        }
                        return Some(&members[i].value);
                    }
                    i = i + 1;
                }
                proof {
                    lemma_members_get_from(mv, i as int, key@);
                }
                None
            },
            _ => None,
        }
    }

    /// The text of this value when it is a string.
    pub fn as_str(&self) -> (res: Option<&str>)
        ensures
            match res {
                Some(s) => json_view(*self) == Json::Str(s@),
                None => !(json_view(*self) is Str),
            },
    {
        match self {
            JsonValue::String(s) => Some(s.as_str()),
            _ => None,
        }
    }

    /// A JSON string with the given text.
    pub fn from_str(s: &str) -> (res: JsonValue)
        ensures
            json_view(res) == Json::Str(s@),
    {
        JsonValue::String(String::from_str(s))
    }
}

/// The text of the string member named `key`, if any.
pub fn get_str<'a>(v: &'a JsonValue, key: &str) -> (res: Option<&'a str>)
    ensures
        match res {
            Some(s) => json_str_member(json_view(*v), key@) == Some(s@),
            None => json_str_member(json_view(*v), key@).is_none(),
        },
{
    match v.get(key) {
        Some(m) => m.as_str(),
        None => None,
    }
}

/// Whether two JSON values are the same value.
#[verifier::loop_isolation(false)]
pub fn json_eq(a: &JsonValue, b: &JsonValue) -> (res: bool)
    ensures
        res == (json_view(*a) == json_view(*b)),
    decreases a,
{
    match a {
        JsonValue::Null => match b {
            JsonValue::Null => true,
            _ => false,
        },
        JsonValue::Bool(x) => match b {
            JsonValue::Bool(y) => *x == *y,
            _ => false,
        },
        JsonValue::Number(x) => match b {
            JsonValue::Number(y) => str_eq(x.as_str(), y.as_str()),
            _ => false,
        },
        JsonValue::String(x) => match b {
            JsonValue::String(y) => str_eq(x.as_str(), y.as_str()),
            _ => false,
        },
        JsonValue::Array(xs) => {
            let ys = match b {
                JsonValue::Array(ys) => ys,
                _ => {
                    return false;
                },
            };
            proof {
                lemma_json_seq_view(xs@);
                lemma_json_seq_view(ys@);
            }
            if xs.len() != ys.len() {
                return false;
            }
            let mut i: usize = 0;
            while i < xs.len()
                invariant
                    i <= xs@.len(),
                    xs@.len() == ys@.len(),
                    json_seq_view(xs@).len() == xs@.len(),
                    json_seq_view(ys@).len() == ys@.len(),
                    forall|k: int|
                        0 <= k < xs@.len() ==> #[trigger] json_seq_view(xs@)[k] == json_view(
                            xs@[k],
                        ),
                    forall|k: int|
                        0 <= k < ys@.len() ==> #[trigger] json_seq_view(ys@)[k] == json_view(
                            ys@[k],
                        ),
                    forall|k: int| 0 <= k < i ==> json_view(#[trigger] xs@[k]) == json_view(ys@[k]),
                decreases xs@.len() - i,
            {
                proof {
                    assert(decreases_to!(*a => *xs));
                    assert(decreases_to!(*xs => xs@));
                    assert(decreases_to!(xs@ => xs@[i as int]));
                }
                if !json_eq(&xs[i], &ys[i]) {
                    assert(json_seq_view(xs@)[i as int] != json_seq_view(ys@)[i as int]);
                    return false;
                }
                i = i + 1;
            }
            assert(json_seq_view(xs@) =~= json_seq_view(ys@));
            true
        },
        JsonValue::Object(xs) => {
            let ys = match b {
                JsonValue::Object(ys) => ys,
                _ => {
                    return false;
                },
            };
            proof {
                lemma_members_view(xs@);
                lemma_members_view(ys@);
            }
            if xs.len() != ys.len() {
                return false;
            }
            let mut i: usize = 0;
            while i < xs.len()
                invariant
                    i <= xs@.len(),
                    xs@.len() == ys@.len(),
                    members_view(xs@).len() == xs@.len(),
                    members_view(ys@).len() == ys@.len(),
                    forall|k: int|
                        0 <= k < xs@.len() ==> #[trigger] members_view(xs@)[k] == (
                            xs@[k].key@,
                            json_view(xs@[k].value),
                        ),
                    forall|k: int|
                        0 <= k < ys@.len() ==> #[trigger] members_view(ys@)[k] == (
                            ys@[k].key@,
                            json_view(ys@[k].value),
                        ),
                    forall|k: int|
                        0 <= k < i ==> #[trigger] members_view(xs@)[k] == members_view(ys@)[k],
                decreases xs@.len() - i,
            {
                proof {
                    assert(decreases_to!(*a => *xs));
                    assert(decreases_to!(*xs => xs@));
                    assert(decreases_to!(xs@ => xs@[i as int]));
                    assert(decreases_to!(xs@[i as int] => xs@[i as int].value));
                }
                if !str_eq(xs[i].key.as_str(), ys[i].key.as_str()) {
                    assert(members_view(xs@)[i as int] != members_view(ys@)[i as int]);
                    return false;
                }
                if !json_eq(&xs[i].value, &ys[i].value) {
                    assert(members_view(xs@)[i as int] != members_view(ys@)[i as int]);
                    return false;
                }
                i = i + 1;
            }
            assert(members_view(xs@) =~= members_view(ys@));
            true
        },
    }
}

/// Copies a JSON value.
#[verifier::loop_isolation(false)]
pub fn json_clone(a: &JsonValue) -> (res: JsonValue)
    ensures
        json_view(res) == json_view(*a),
    decreases a,
{
    match a {
        JsonValue::Null => JsonValue::Null,
        JsonValue::Bool(x) => JsonValue::Bool(*x),
        JsonValue::Number(x) => JsonValue::Number(copy_string(x)),
        JsonValue::String(x) => JsonValue::String(copy_string(x)),
        JsonValue::Array(xs) => {
            proof {
                lemma_json_seq_view(xs@);
            }
            let mut out: Vec<JsonValue> = Vec::new();
            let mut i: usize = 0;
            while i < xs.len()
                invariant
                    i <= xs@.len(),
                    out@.len() == i,
                    json_seq_view(xs@).len() == xs@.len(),
                    forall|k: int|
                        0 <= k < xs@.len() ==> #[trigger] json_seq_view(xs@)[k] == json_view(
                            xs@[k],
                        ),
                    forall|k: int| 0 <= k < i ==> json_view(#[trigger] out@[k]) == json_view(xs@[k]),
                decreases xs@.len() - i,
            {
                proof {
                    assert(decreases_to!(*a => *xs));
                    assert(decreases_to!(*xs => xs@));
                    assert(decreases_to!(xs@ => xs@[i as int]));
                }
                out.push(json_clone(&xs[i]));
                i = i + 1;
            }
            proof {
                lemma_json_seq_view(out@);
                assert(json_seq_view(out@) =~= json_seq_view(xs@));
            }
            JsonValue::Array(out)
        },
        JsonValue::Object(xs) => {
            proof {
                lemma_members_view(xs@);
            }
            let mut out: Vec<JsonMember> = Vec::new();
            let mut i: usize = 0;
            while i < xs.len()
                invariant
                    i <= xs@.len(),
                    out@.len() == i,
                    members_view(xs@).len() == xs@.len(),
                    forall|k: int|
                        0 <= k < xs@.len() ==> #[trigger] members_view(xs@)[k] == (
                            xs@[k].key@,
                            json_view(xs@[k].value),
                        ),
                    forall|k: int|
                        0 <= k < i ==> (#[trigger] out@[k]).key@ == xs@[k].key@ && json_view(
                            out@[k].value,
                        ) == json_view(xs@[k].value),
                decreases xs@.len() - i,
            {
                proof {
                    assert(decreases_to!(*a => *xs));
                    assert(decreases_to!(*xs => xs@));
                    assert(decreases_to!(xs@ => xs@[i as int]));
                    assert(decreases_to!(xs@[i as int] => xs@[i as int].value));
                }
                let m = JsonMember { key: copy_string(&xs[i].key), value: json_clone(&xs[i].value) };
                out.push(m);
                i = i + 1;
            }
            proof {
                lemma_members_view(out@);
                assert(members_view(out@) =~= members_view(xs@));
            }
            JsonValue::Object(out)
        },
    }
}

/// `serde_json::Value`, built from a JSON value to have it written out.
#[verifier::external_type_specification]
#[verifier::external_body]
pub struct ExSerdeJsonValue(serde_json::Value);

/// Builds the `serde_json::Value` a JSON value stands for.  Number text is read
/// by `serde_json::Number`'s `FromStr`; text it refuses becomes `null`.
#[verifier::external_body]
fn to_serde_value(v: &JsonValue) -> serde_json::Value {
    match v {
        JsonValue::Null => serde_json::Value::Null,
        JsonValue::Bool(b) => serde_json::Value::Bool(*b),
        JsonValue::Number(n) => n.parse::<serde_json::Number>().map(serde_json::Value::Number).unwrap_or(
            serde_json::Value::Null,
        ),
        JsonValue::String(s) => serde_json::Value::String(s.clone()),
        JsonValue::Array(items) => serde_json::Value::Array(items.iter().map(to_serde_value).collect()),
        JsonValue::Object(members) => serde_json::Value::Object(
            members.iter().map(|m| (m.key.clone(), to_serde_value(&m.value))).collect(),
        ),
    }
}

/// Builds the JSON value a `serde_json::Value` stands for; numbers keep the
/// text `serde_json::Number` writes for them.
#[verifier::external_body]
fn from_serde_value(v: &serde_json::Value) -> JsonValue {
    match v {
        serde_json::Value::Null => JsonValue::Null,
        serde_json::Value::Bool(b) => JsonValue::Bool(*b),
        serde_json::Value::Number(n) => JsonValue::Number(n.to_string()),
        serde_json::Value::String(s) => JsonValue::String(s.clone()),
        serde_json::Value::Array(items) => JsonValue::Array(items.iter().map(from_serde_value).collect()),
        serde_json::Value::Object(members) => JsonValue::Object(
            members.iter().map(|(k, m)| JsonMember { key: k.clone(), value: from_serde_value(m) }).collect(),
        ),
    }
}

/// What `serde_json::from_str` reads from JSON text: the value, or the text
/// of the error it refuses the text with.
pub uninterp spec fn json_parse(text: Seq<char>) -> Result<Json, Seq<char>>;

/// Reads JSON text with `serde_json::from_str`.  The outcome, value or error
/// text, is the name `json_parse` applied to the text; nothing more is claimed
/// of it.
#[verifier::external_body]
pub(crate) fn parse_json(text: &str) -> (res: Result<JsonValue, String>)
    ensures
        match res {
            Ok(v) => json_parse(text@) == Ok::<Json, Seq<char>>(json_view(v)),
            Err(e) => json_parse(text@) == Err::<Json, Seq<char>>(e@),
        },
{
    match serde_json::from_str::<serde_json::Value>(text) {
        Ok(v) => Ok(from_serde_value(&v)),
        Err(e) => Err(e.to_string()),
    }
}

/// The compact JSON text `serde_json::to_string` writes for a value.
pub uninterp spec fn json_text(v: Json) -> Seq<char>;

/// Writes a value as compact JSON text with `serde_json::to_string`.  The text
/// is the name `json_text` applied to the value; nothing more is claimed of it.
#[verifier::external_body]
pub(crate) fn json_to_string(v: &JsonValue) -> (res: String)
    ensures
        res@ == json_text(json_view(*v)),
{
    serde_json::to_string(&to_serde_value(v)).unwrap_or_default()
}

/// The indented JSON text `serde_json::to_string_pretty` writes for a value.
pub uninterp spec fn json_pretty_text(v: Json) -> Seq<char>;

/// Writes a value as indented JSON text with `serde_json::to_string_pretty`.
/// The text is the name `json_pretty_text` applied to the value; nothing more
/// is claimed of it.
#[verifier::external_body]
pub(crate) fn json_to_pretty_string(v: &JsonValue) -> (res: String)
    ensures
        res@ == json_pretty_text(json_view(*v)),
{
    serde_json::to_string_pretty(&to_serde_value(v)).unwrap_or_default()
}

} // verus!
