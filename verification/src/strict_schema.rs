//! Bringing a JSON schema into the strict subset that structured outputs
//! accept: objects close their properties and require all of them, `oneOf`
//! becomes `anyOf`, a single `allOf` entry is merged into its parent,
//! references with siblings are expanded, and `null` defaults are dropped.
//!
//! Objects are read as maps with one member per key (as `serde_json` keeps
//! them, in key order); a member is set in place, added at its place in key
//! order, or removed.
use vstd::prelude::*;

use crate::errors::UserError;
use crate::json::{
    json_seq_view, json_view, lemma_json_seq_view, lemma_members_get_from, lemma_members_view,
    members_get, members_view, Json, JsonMember, JsonValue,
};
use crate::ordered::{seq_lt, str_lt};
use crate::text::str_eq;

verus! {

/// The size of a JSON value: one for each value and each member.
pub open spec fn json_size(v: Json) -> nat
    decreases v,
{
    match v {
        Json::Array(items) => 1 + items_size(items),
        Json::Object(members) => 1 + members_size(members),
        _ => 1,
    }
}

/// The size of the values of a list.
pub open spec fn items_size(items: Seq<Json>) -> nat
    decreases items,
{
    if items.len() == 0 {
        0
    } else {
        items_size(items.subrange(0, items.len() - 1)) + 1 + json_size(items[items.len() - 1])
    }
}

/// The size of the members of an object.
pub open spec fn members_size(members: Seq<(Seq<char>, Json)>) -> nat
    decreases members,
{
    if members.len() == 0 {
        0
    } else {
        members_size(members.subrange(0, members.len() - 1)) + 1 + json_size(members[members.len() - 1].1)
    }
}

/// The position of the first member named `key` at `from` or later.
pub open spec fn first_index(members: Seq<(Seq<char>, Json)>, key: Seq<char>, from: int) -> Option<int>
    decreases members.len() - from,
{
    if from < 0 || from >= members.len() {
        None
    } else if members[from].0 == key {
        Some(from)
    } else {
        first_index(members, key, from + 1)
    }
}

/// The position at `from` or later of the first member whose key comes after
/// `key`, or the end.
pub open spec fn insert_position(members: Seq<(Seq<char>, Json)>, key: Seq<char>, from: int) -> int
    decreases members.len() - from,
{
    if from < 0 || from >= members.len() {
        members.len() as int
    } else if seq_lt(key, members[from].0) {
        from
    } else {
        insert_position(members, key, from + 1)
    }
}

/// The object with `key` set to `value`: in place when it has the key, else
/// added at its place in key order.
pub open spec fn obj_insert(members: Seq<(Seq<char>, Json)>, key: Seq<char>, value: Json) -> Seq<(Seq<char>, Json)> {
    match first_index(members, key, 0) {
        Some(i) => members.update(i, (key, value)),
        None => {
            let p = insert_position(members, key, 0);
            members.subrange(0, p).push((key, value)) + members.subrange(p, members.len() as int)
        },
    }
}

/// The object without its member named `key`.
pub open spec fn obj_remove(members: Seq<(Seq<char>, Json)>, key: Seq<char>) -> Seq<(Seq<char>, Json)> {
    match first_index(members, key, 0) {
        Some(i) => members.remove(i),
        None => members,
    }
}

/// A value of a list is smaller than the list.
pub proof fn lemma_item_smaller(items: Seq<Json>, i: int)
    requires
        0 <= i < items.len(),
    ensures
        json_size(items[i]) < items_size(items),
    decreases items.len(),
{
    if i < items.len() - 1 {
        let p = items.subrange(0, items.len() - 1);
        assert(p[i] == items[i]);
        lemma_item_smaller(p, i);
    }
}

/// A member's value is smaller than the members.
pub proof fn lemma_member_smaller(members: Seq<(Seq<char>, Json)>, i: int)
    requires
        0 <= i < members.len(),
    ensures
        json_size(members[i].1) < members_size(members),
    decreases members.len(),
{
    if i < members.len() - 1 {
        let p = members.subrange(0, members.len() - 1);
        assert(p[i] == members[i]);
        lemma_member_smaller(p, i);
    }
}

/// `first_index` finds the first member with the key.
pub proof fn lemma_first_index(members: Seq<(Seq<char>, Json)>, key: Seq<char>, from: int)
    requires
        0 <= from,
    ensures
        match first_index(members, key, from) {
            Some(i) => from <= i < members.len() && members[i].0 == key && forall|j: int|
                from <= j < i ==> (#[trigger] members[j]).0 != key,
            None => forall|j: int| from <= j < members.len() ==> (#[trigger] members[j]).0 != key,
        },
    decreases members.len() - from,
{
    if from < members.len() && members[from].0 != key {
        lemma_first_index(members, key, from + 1);
    }
}

/// The value `members_get` gives is the one at the first position with the key.
pub proof fn lemma_get_first(members: Seq<(Seq<char>, Json)>, key: Seq<char>)
    ensures
        members_get(members, key) == match first_index(members, key, 0) {
            Some(i) => Some(members[i].1),
            None => None::<Json>,
        },
{
    lemma_first_index(members, key, 0);
    match first_index(members, key, 0) {
        Some(i) => {
            lemma_members_get_from(members, i, key);
            let t = members.subrange(i, members.len() as int);
            assert(t[0] == members[i]);
        },
        None => {
            lemma_members_get_from(members, members.len() as int, key);
            assert(members.subrange(members.len() as int, members.len() as int).len() == 0);
        },
    }
}

/// A member's value from `members_get` is smaller than the members.
pub proof fn lemma_get_smaller(members: Seq<(Seq<char>, Json)>, key: Seq<char>)
    ensures
        members_get(members, key) matches Some(v) ==> json_size(v) < members_size(members),
{
    lemma_get_first(members, key);
    lemma_first_index(members, key, 0);
    if let Some(i) = first_index(members, key, 0) {
        lemma_member_smaller(members, i);
    }
}

/// The position of the first member named `key`.
fn find_member(members: &Vec<JsonMember>, key: &str) -> (res: Option<usize>)
    ensures
        match res {
            Some(i) => first_index(members_view(members@), key@, 0) == Some(i as int),
            None => first_index(members_view(members@), key@, 0).is_none(),
        },
{
    let ghost mv = members_view(members@);
    proof {
        lemma_members_view(members@);
        lemma_first_index(mv, key@, 0);
    }
    let mut i: usize = 0;
    while i < members.len()
        invariant
            i <= members@.len(),
            mv == members_view(members@),
            mv.len() == members@.len(),
            forall|k: int| 0 <= k < members@.len() ==> #[trigger] mv[k] == (members@[k].key@, json_view(members@[k].value)),
            first_index(mv, key@, 0) == first_index(mv, key@, i as int),
        decreases members@.len() - i,
    {
        if str_eq(members[i].key.as_str(), key) {
            return Some(i);
        }
        i = i + 1;
    }
    None
}

/// Sets the member named `key` to `value`, in place or at its place in key order.
fn member_insert(members: &mut Vec<JsonMember>, key: String, value: JsonValue)
    ensures
        members_view(final(members)@) == obj_insert(members_view(old(members)@), key@, json_view(value)),
{
    let ghost mv = members_view(members@);
    let ghost entry = (key@, json_view(value));
    proof {
        lemma_members_view(members@);
        lemma_first_index(mv, key@, 0);
    }
    match find_member(members, key.as_str()) {
        Some(i) => {
            let ghost before = members@;
            members.set(i, JsonMember { key, value });
            proof {
                lemma_members_view(members@);
                assert forall|k: int| 0 <= k < members@.len() implies #[trigger] members_view(members@)[k]
                    == mv.update(i as int, entry)[k] by {
                    if k != i {
                        assert(members@[k] == before[k]);
                    }
                }
                assert(members_view(members@) =~= mv.update(i as int, entry));
            }
        },
        None => {
            let mut p: usize = 0;
            while p < members.len() && !str_lt(key.as_str(), members[p].key.as_str())
                invariant
                    p <= members@.len(),
                    mv == members_view(members@),
                    mv.len() == members@.len(),
                    forall|k: int| 0 <= k < members@.len() ==> #[trigger] mv[k] == (members@[k].key@, json_view(members@[k].value)),
                    insert_position(mv, key@, 0) == insert_position(mv, key@, p as int),
                decreases members@.len() - p,
            {
                p = p + 1;
            }
            let ghost before = members@;
            members.insert(p, JsonMember { key, value });
            proof {
                lemma_members_view(members@);
                let expected = mv.subrange(0, p as int).push(entry) + mv.subrange(p as int, mv.len() as int);
                assert forall|k: int| 0 <= k < members@.len() implies #[trigger] members_view(members@)[k]
                    == expected[k] by {
                    if k < p {
                        assert(members@[k] == before[k]);
                    } else if k > p {
                        assert(members@[k] == before[k - 1]);
                    }
                }
                assert(members_view(members@) =~= expected);
            }
        },
    }
}

/// Removes the member named `key`, giving back its value.
fn member_remove(members: &mut Vec<JsonMember>, key: &str) -> (res: Option<JsonValue>)
    ensures
        members_view(final(members)@) == obj_remove(members_view(old(members)@), key@),
        match res {
            Some(v) => members_get(members_view(old(members)@), key@) == Some(json_view(v)),
            None => members_get(members_view(old(members)@), key@).is_none(),
        },
{
    let ghost mv = members_view(members@);
    proof {
        lemma_members_view(members@);
        lemma_get_first(mv, key@);
        lemma_first_index(mv, key@, 0);
    }
    match find_member(members, key) {
        Some(i) => {
            let ghost before = members@;
            let m = members.remove(i);
            proof {
                lemma_members_view(members@);
                assert forall|k: int| 0 <= k < members@.len() implies #[trigger] members_view(members@)[k]
                    == mv.remove(i as int)[k] by {
                    if k < i {
                        assert(members@[k] == before[k]);
                    } else {
                        assert(members@[k] == before[k + 1]);
                    }
                }
                assert(members_view(members@) =~= mv.remove(i as int));
                assert(mv[i as int] == (m.key@, json_view(m.value)));
            }
            Some(m.value)
        },
        None => None,
    }
}

/// The outcome of normalizing: `None` when the expansion would not end
/// within the given number of re-entries, else the result or the error text.
pub type Outcome<T> = Option<Result<T, Seq<char>>>;

/// The message of an object schema that allows additional properties.
pub open spec fn additional_properties_message() -> Seq<char> {
    "additionalProperties must be false for strict object schemas"@
}

/// The message of a reference that names nothing.
pub open spec fn unresolved_reference_message(reference: Seq<char>) -> Seq<char> {
    "could not resolve schema reference `"@ + reference + "`"@
}

/// `target` with each member of `source`, in order, set as `obj_insert` sets it.
pub open spec fn obj_insert_all(target: Seq<(Seq<char>, Json)>, source: Seq<(Seq<char>, Json)>) -> Seq<(Seq<char>, Json)>
    decreases source.len(),
{
    if source.len() == 0 {
        target
    } else {
        let prev = obj_insert_all(target, source.drop_last());
        obj_insert(prev, source.last().0, source.last().1)
    }
}

/// `target` with each member of `source` but those named `skip`, in order.
pub open spec fn obj_insert_all_except(
    target: Seq<(Seq<char>, Json)>,
    source: Seq<(Seq<char>, Json)>,
    skip: Seq<char>,
) -> Seq<(Seq<char>, Json)>
    decreases source.len(),
{
    if source.len() == 0 {
        target
    } else {
        let prev = obj_insert_all_except(target, source.drop_last(), skip);
        if source.last().0 == skip {
            prev
        } else {
            obj_insert(prev, source.last().0, source.last().1)
        }
    }
}

/// The value a path of member names leads to from `current`.
pub open spec fn walk_path(current: Json, segments: Seq<Seq<char>>) -> Option<Json>
    decreases segments.len(),
{
    if segments.len() == 0 {
        Some(current)
    } else {
        match crate::json::json_get(current, segments[0]) {
            Some(next) => walk_path(next, segments.subrange(1, segments.len() as int)),
            None => None,
        }
    }
}

/// The value a local reference `#/a/b` names in `root`: the path after `#/`,
/// split at each `/`, followed member by member.
pub open spec fn resolve_reference(root: Json, reference: Seq<char>) -> Option<Json> {
    if reference.len() >= 2 && reference[0] == '#' && reference[1] == '/' {
        walk_path(root, crate::lines::split_on(reference.subrange(2, reference.len() as int), '/'))
    } else {
        None
    }
}

/// A step that normalizes the members of an object-valued member: `result`
/// is `None` when the member is not an object, else the outcome for its members.
pub open spec fn step_values(
    current: Outcome<Seq<(Seq<char>, Json)>>,
    key: Seq<char>,
    result: Option<Outcome<Seq<(Seq<char>, Json)>>>,
) -> Outcome<Seq<(Seq<char>, Json)>> {
    match current {
        Some(Ok(o)) => match result {
            None => Some(Ok(o)),
            Some(None) => None,
            Some(Some(Err(e))) => Some(Err(e)),
            Some(Some(Ok(v))) => Some(Ok(obj_insert(o, key, Json::Object(v)))),
        },
        other => other,
    }
}

/// A step that normalizes a member's value: `result` is `None` when there is
/// no such member.
pub open spec fn step_node(
    current: Outcome<Seq<(Seq<char>, Json)>>,
    key: Seq<char>,
    result: Option<Outcome<Json>>,
) -> Outcome<Seq<(Seq<char>, Json)>> {
    match current {
        Some(Ok(o)) => match result {
            None => Some(Ok(o)),
            Some(None) => None,
            Some(Some(Err(e))) => Some(Err(e)),
            Some(Some(Ok(v))) => Some(Ok(obj_insert(o, key, v))),
        },
        other => other,
    }
}

/// A step that normalizes the entries of an array-valued member: `result` is
/// `None` when the member is not an array.
pub open spec fn step_items(
    current: Outcome<Seq<(Seq<char>, Json)>>,
    key: Seq<char>,
    result: Option<Outcome<Seq<Json>>>,
) -> Outcome<Seq<(Seq<char>, Json)>> {
    match current {
        Some(Ok(o)) => match result {
            None => Some(Ok(o)),
            Some(None) => None,
            Some(Some(Err(e))) => Some(Err(e)),
            Some(Some(Ok(v))) => Some(Ok(obj_insert(o, key, Json::Array(v)))),
        },
        other => other,
    }
}

/// An object schema closes its properties: `additionalProperties` becomes
/// `false` when missing and may not be `true`.
pub open spec fn step_type(current: Outcome<Seq<(Seq<char>, Json)>>) -> Outcome<Seq<(Seq<char>, Json)>> {
    match current {
        Some(Ok(o)) => if crate::json::json_as_str(members_get(o, "type"@)) == Some("object"@) {
            match members_get(o, "additionalProperties"@) {
                None => Some(Ok(obj_insert(o, "additionalProperties"@, Json::Bool(false)))),
                Some(Json::Bool(true)) => Some(Err(additional_properties_message())),
                _ => Some(Ok(o)),
            }
        } else {
            Some(Ok(o))
        },
        other => other,
    }
}

/// The names of an object's members, as JSON strings, in order.
pub open spec fn member_names(members: Seq<(Seq<char>, Json)>) -> Seq<Json> {
    members.map_values(|m: (Seq<char>, Json)| Json::Str(m.0))
}

/// A schema with `properties` requires every property it names.
pub open spec fn step_required(current: Outcome<Seq<(Seq<char>, Json)>>) -> Outcome<Seq<(Seq<char>, Json)>> {
    match current {
        Some(Ok(o)) => if members_get(o, "properties"@).is_some() {
            let names = match members_get(o, "properties"@) {
                Some(Json::Object(p)) => member_names(p),
                _ => Seq::empty(),
            };
            Some(Ok(obj_insert(o, "required"@, Json::Array(names))))
        } else {
            Some(Ok(o))
        },
        other => other,
    }
}

/// `oneOf` is removed; when it was an array, its normalized entries are
/// appended to `anyOf` (made an empty array first if missing).
pub open spec fn step_one_of(
    current: Outcome<Seq<(Seq<char>, Json)>>,
    result: Option<Outcome<Seq<Json>>>,
) -> Outcome<Seq<(Seq<char>, Json)>> {
    match current {
        Some(Ok(o)) => {
            let removed = obj_remove(o, "oneOf"@);
            match result {
                None => Some(Ok(removed)),
                Some(None) => None,
                Some(Some(Err(e))) => Some(Err(e)),
                Some(Some(Ok(entries))) => {
                    let with_any = if members_get(removed, "anyOf"@).is_none() {
                        obj_insert(removed, "anyOf"@, Json::Array(Seq::empty()))
                    } else {
                        removed
                    };
                    match members_get(with_any, "anyOf"@) {
                        Some(Json::Array(existing)) => Some(
                            Ok(obj_insert(with_any, "anyOf"@, Json::Array(existing + entries))),
                        ),
                        _ => Some(Ok(with_any)),
                    }
                },
            }
        },
        other => other,
    }
}

/// The object after the steps before `allOf`, given the outcomes of the
/// nested normalizations (each `None` when its member does not apply).
pub open spec fn before_all_of(
    members: Seq<(Seq<char>, Json)>,
    defs: Option<Outcome<Seq<(Seq<char>, Json)>>>,
    definitions: Option<Outcome<Seq<(Seq<char>, Json)>>>,
    properties: Option<Outcome<Seq<(Seq<char>, Json)>>>,
    items: Option<Outcome<Json>>,
    any_of: Option<Outcome<Seq<Json>>>,
    one_of: Option<Outcome<Seq<Json>>>,
) -> Outcome<Seq<(Seq<char>, Json)>> {
    let s1 = step_values(Some(Ok(members)), "$defs"@, defs);
    let s2 = step_values(s1, "definitions"@, definitions);
    let s3 = step_type(s2);
    let s4 = step_required(s3);
    let s5 = step_values(s4, "properties"@, properties);
    let s6 = step_node(s5, "items"@, items);
    let s7 = step_items(s6, "anyOf"@, any_of);
    step_one_of(s7, one_of)
}

/// The strict form of a schema node, within `fuel` re-entries: objects are
/// normalized, anything else is kept.
pub open spec fn strict_node(node: Json, root: Json, fuel: nat) -> Outcome<Json>
    decreases fuel, json_size(node), 2nat,
{
    match node {
        Json::Object(members) => strict_object(members, root, fuel),
        _ => Some(Ok(node)),
    }
}

/// The members of an object with each value in strict form, in order; the
/// first error wins.
pub open spec fn strict_values(members: Seq<(Seq<char>, Json)>, root: Json, fuel: nat) -> Outcome<Seq<(Seq<char>, Json)>>
    decreases fuel, members_size(members), 0nat,
{
    if members.len() == 0 {
        Some(Ok(members))
    } else {
        let last = members[members.len() - 1];
        match strict_values(members.subrange(0, members.len() - 1), root, fuel) {
            None => None,
            Some(Err(e)) => Some(Err(e)),
            Some(Ok(prev)) => match strict_node(last.1, root, fuel) {
                None => None,
                Some(Err(e)) => Some(Err(e)),
                Some(Ok(v)) => Some(Ok(prev.push((last.0, v)))),
            },
        }
    }
}

/// The entries of an array with each in strict form, in order; the first
/// error wins.
pub open spec fn strict_items(items: Seq<Json>, root: Json, fuel: nat) -> Outcome<Seq<Json>>
    decreases fuel, items_size(items), 0nat,
{
    if items.len() == 0 {
        Some(Ok(items))
    } else {
        match strict_items(items.subrange(0, items.len() - 1), root, fuel) {
            None => None,
            Some(Err(e)) => Some(Err(e)),
            Some(Ok(prev)) => match strict_node(items[items.len() - 1], root, fuel) {
                None => None,
                Some(Err(e)) => Some(Err(e)),
                Some(Ok(v)) => Some(Ok(prev.push(v))),
            },
        }
    }
}

/// The end of normalizing an object: a `null` default is dropped, and a
/// reference with siblings is replaced by the object it names with the
/// siblings laid over it, normalized again.
pub open spec fn after_all_of(members: Seq<(Seq<char>, Json)>, root: Json, fuel: nat) -> Outcome<Json>
    decreases fuel, 0nat, 0nat,
{
    let o = if members_get(members, "default"@) == Some(Json::Null) {
        obj_remove(members, "default"@)
    } else {
        members
    };
    match crate::json::json_as_str(members_get(o, "$ref"@)) {
        Some(reference) => if o.len() > 1 {
            match resolve_reference(root, reference) {
                None => Some(Err(unresolved_reference_message(reference))),
                Some(Json::Object(resolved)) => if fuel == 0 {
                    None
                } else {
                    strict_node(
                        Json::Object(obj_remove(obj_insert_all_except(resolved, o, "$ref"@), "$ref"@)),
                        root,
                        (fuel - 1) as nat,
                    )
                },
                Some(_) => Some(Ok(Json::Object(o))),
            }
        } else {
            Some(Ok(Json::Object(o)))
        },
        None => Some(Ok(Json::Object(o))),
    }
}

/// An object schema in strict form: see the steps above; a single `allOf`
/// entry is normalized, laid over the object, and the whole normalized again.
pub open spec fn strict_object(members: Seq<(Seq<char>, Json)>, root: Json, fuel: nat) -> Outcome<Json>
    decreases fuel, members_size(members), 1nat,
{
    proof {
        lemma_get_smaller(members, "$defs"@);
        lemma_get_smaller(members, "definitions"@);
        lemma_get_smaller(members, "properties"@);
        lemma_get_smaller(members, "items"@);
        lemma_get_smaller(members, "anyOf"@);
        lemma_get_smaller(members, "oneOf"@);
        lemma_get_smaller(members, "allOf"@);
    }
    let defs = match members_get(members, "$defs"@) {
        Some(Json::Object(d)) => Some(strict_values(d, root, fuel)),
        _ => None,
    };
    let definitions = match members_get(members, "definitions"@) {
        Some(Json::Object(d)) => Some(strict_values(d, root, fuel)),
        _ => None,
    };
    let properties = match members_get(members, "properties"@) {
        Some(Json::Object(d)) => Some(strict_values(d, root, fuel)),
        _ => None,
    };
    let items = match members_get(members, "items"@) {
        Some(v) => Some(strict_node(v, root, fuel)),
        None => None,
    };
    let any_of = match members_get(members, "anyOf"@) {
        Some(Json::Array(xs)) => Some(strict_items(xs, root, fuel)),
        _ => None,
    };
    let one_of = match members_get(members, "oneOf"@) {
        Some(Json::Array(xs)) => Some(strict_items(xs, root, fuel)),
        _ => None,
    };
    match before_all_of(members, defs, definitions, properties, items, any_of, one_of) {
        None => None,
        Some(Err(e)) => Some(Err(e)),
        Some(Ok(o)) => {
            let without = obj_remove(o, "allOf"@);
            match members_get(members, "allOf"@) {
                Some(Json::Array(entries)) => if entries.len() == 1 {
                    proof {
                        lemma_item_smaller(entries, 0);
                    }
                    match strict_node(entries[0], root, fuel) {
                        None => None,
                        Some(Err(e)) => Some(Err(e)),
                        Some(Ok(merged)) => {
                            let laid = match merged {
                                Json::Object(mm) => obj_insert_all(without, mm),
                                _ => without,
                            };
                            if fuel == 0 {
                                None
                            } else {
                                strict_node(Json::Object(laid), root, (fuel - 1) as nat)
                            }
                        },
                    }
                } else {
                    match strict_items(entries, root, fuel) {
                        None => None,
                        Some(Err(e)) => Some(Err(e)),
                        Some(Ok(normalized)) => after_all_of(
                            obj_insert(without, "allOf"@, Json::Array(normalized)),
                            root,
                            fuel,
                        ),
                    }
                },
                _ => after_all_of(without, root, fuel),
            }
        },
    }
}

/// A prefix that runs out of re-entries makes the whole list run out.
proof fn lemma_values_none(members: Seq<(Seq<char>, Json)>, root: Json, fuel: nat, n: int)
    requires
        0 <= n <= members.len(),
        strict_values(members.subrange(0, n), root, fuel).is_none(),
    ensures
        strict_values(members, root, fuel).is_none(),
    decreases members.len() - n,
{
    if n < members.len() {
        let t = members.subrange(0, n + 1);
        assert(t.subrange(0, t.len() - 1) =~= members.subrange(0, n));
        lemma_values_none(members, root, fuel, n + 1);
    } else {
        assert(members.subrange(0, n) =~= members);
    }
}

/// An error of a prefix is the error of the whole list.
proof fn lemma_values_error(members: Seq<(Seq<char>, Json)>, root: Json, fuel: nat, n: int, e: Seq<char>)
    requires
        0 <= n <= members.len(),
        strict_values(members.subrange(0, n), root, fuel) == Some(Err::<Seq<(Seq<char>, Json)>, Seq<char>>(e)),
    ensures
        strict_values(members, root, fuel) == Some(Err::<Seq<(Seq<char>, Json)>, Seq<char>>(e)),
    decreases members.len() - n,
{
    if n < members.len() {
        let t = members.subrange(0, n + 1);
        assert(t.subrange(0, t.len() - 1) =~= members.subrange(0, n));
        lemma_values_error(members, root, fuel, n + 1, e);
    } else {
        assert(members.subrange(0, n) =~= members);
    }
}

/// A prefix that runs out of re-entries makes the whole list run out.
proof fn lemma_items_none(items: Seq<Json>, root: Json, fuel: nat, n: int)
    requires
        0 <= n <= items.len(),
        strict_items(items.subrange(0, n), root, fuel).is_none(),
    ensures
        strict_items(items, root, fuel).is_none(),
    decreases items.len() - n,
{
    if n < items.len() {
        let t = items.subrange(0, n + 1);
        assert(t.subrange(0, t.len() - 1) =~= items.subrange(0, n));
        lemma_items_none(items, root, fuel, n + 1);
    } else {
        assert(items.subrange(0, n) =~= items);
    }
}

/// An error of a prefix is the error of the whole list.
proof fn lemma_items_error(items: Seq<Json>, root: Json, fuel: nat, n: int, e: Seq<char>)
    requires
        0 <= n <= items.len(),
        strict_items(items.subrange(0, n), root, fuel) == Some(Err::<Seq<Json>, Seq<char>>(e)),
    ensures
        strict_items(items, root, fuel) == Some(Err::<Seq<Json>, Seq<char>>(e)),
    decreases items.len() - n,
{
    if n < items.len() {
        let t = items.subrange(0, n + 1);
        assert(t.subrange(0, t.len() - 1) =~= items.subrange(0, n));
        lemma_items_error(items, root, fuel, n + 1, e);
    } else {
        assert(items.subrange(0, n) =~= items);
    }
}

/// A copy of the value of the first member named `key`.
fn member_value(members: &Vec<JsonMember>, key: &str) -> (res: Option<JsonValue>)
    ensures
        match res {
            Some(v) => members_get(members_view(members@), key@) == Some(json_view(v)),
            None => members_get(members_view(members@), key@).is_none(),
        },
{
    proof {
        lemma_members_view(members@);
        lemma_get_first(members_view(members@), key@);
        lemma_first_index(members_view(members@), key@, 0);
    }
    match find_member(members, key) {
        Some(i) => Some(crate::json::json_clone(&members[i].value)),
        None => None,
    }
}

/// The outcome of normalizing, as an executable result.
pub open spec fn matches_outcome<T, V>(res: Result<T, UserError>, outcome: Outcome<V>, view: spec_fn(T) -> V) -> bool {
    match res {
        Ok(v) => outcome == Some(Ok::<V, Seq<char>>(view(v))),
        Err(e) => outcome == Some(Err::<V, Seq<char>>(e.message@)),
    }
}

/// The outcome of normalizing within a number of re-entries, as an
/// executable result: nothing when the re-entries ran out.
pub open spec fn matches_bounded_outcome<T, V>(
    res: Option<Result<T, UserError>>,
    outcome: Outcome<V>,
    view: spec_fn(T) -> V,
) -> bool {
    match res {
        None => outcome.is_none(),
        Some(r) => matches_outcome(r, outcome, view),
    }
}

/// The view of a JSON value, as a function.
pub open spec fn value_view() -> spec_fn(JsonValue) -> Json {
    |v: JsonValue| json_view(v)
}

/// The view of a member list, as a function.
pub open spec fn list_view() -> spec_fn(Vec<JsonMember>) -> Seq<(Seq<char>, Json)> {
    |v: Vec<JsonMember>| members_view(v@)
}

/// The view of a value list, as a function.
pub open spec fn items_view() -> spec_fn(Vec<JsonValue>) -> Seq<Json> {
    |v: Vec<JsonValue>| json_seq_view(v@)
}

/// The values of a list laid end to end stand for the two lists laid end to end.
proof fn lemma_json_seq_append(a: Seq<JsonValue>, b: Seq<JsonValue>)
    ensures
        json_seq_view(a + b) == json_seq_view(a) + json_seq_view(b),
{
    lemma_json_seq_view(a);
    lemma_json_seq_view(b);
    lemma_json_seq_view(a + b);
    assert(json_seq_view(a + b) =~= json_seq_view(a) + json_seq_view(b));
}

/// The member names of an object, as JSON strings.
fn names_of(members: &Vec<JsonMember>) -> (res: Vec<JsonValue>)
    ensures
        json_seq_view(res@) == member_names(members_view(members@)),
{
    proof {
        lemma_members_view(members@);
    }
    let mut out: Vec<JsonValue> = Vec::new();
    let mut i: usize = 0;
    while i < members.len()
        invariant
            i <= members@.len(),
            members_view(members@).len() == members@.len(),
            forall|k: int| 0 <= k < members@.len() ==> #[trigger] members_view(members@)[k] == (members@[k].key@, json_view(members@[k].value)),
            json_seq_view(out@) == member_names(members_view(members@).subrange(0, i as int)),
        decreases members@.len() - i,
    {
        let ghost before = out@;
        out.push(JsonValue::String(members[i].key.clone()));
        proof {
            lemma_json_seq_view(before);
            lemma_json_seq_view(out@);
            let names = member_names(members_view(members@).subrange(0, i + 1));
            assert forall|k: int| 0 <= k < out@.len() implies #[trigger] json_seq_view(out@)[k] == names[k] by {
                if k < i {
                    assert(out@[k] == before[k]);
                    assert(json_seq_view(before)[k] == member_names(members_view(members@).subrange(0, i as int))[k]);
                }
            }
            assert(json_seq_view(out@) =~= names);
        }
        i = i + 1;
    }
    assert(members_view(members@).subrange(0, members@.len() as int) =~= members_view(members@));
    out
}

/// Sets each member of `source`, in order, unless it is named `skip`.
fn insert_all(target: &mut Vec<JsonMember>, source: &Vec<JsonMember>, skip: Option<&str>)
    ensures
        members_view(final(target)@) == match skip {
            Some(k) => obj_insert_all_except(members_view(old(target)@), members_view(source@), k@),
            None => obj_insert_all(members_view(old(target)@), members_view(source@)),
        },
{
    let ghost start = members_view(target@);
    let ghost src = members_view(source@);
    proof {
        lemma_members_view(source@);
    }
    let mut i: usize = 0;
    while i < source.len()
        invariant
            i <= source@.len(),
            src == members_view(source@),
            src.len() == source@.len(),
            forall|k: int| 0 <= k < source@.len() ==> #[trigger] src[k] == (source@[k].key@, json_view(source@[k].value)),
            members_view(target@) == match skip {
                Some(k) => obj_insert_all_except(start, src.subrange(0, i as int), k@),
                None => obj_insert_all(start, src.subrange(0, i as int)),
            },
        decreases source@.len() - i,
    {
        let skipped = match skip {
            Some(k) => str_eq(source[i].key.as_str(), k),
            None => false,
        };
        if !skipped {
            member_insert(target, source[i].key.clone(), crate::json::json_clone(&source[i].value));
        }
        proof {
            let t = src.subrange(0, i + 1);
            assert(t.drop_last() =~= src.subrange(0, i as int));
            assert(t.last() == src[i as int]);
        }
        i = i + 1;
    }
    assert(src.subrange(0, src.len() as int) =~= src);
}

/// The value a local reference names in `root`, copied.
#[verifier::loop_isolation(false)]
fn resolve_ref(root: &JsonValue, reference: &str) -> (res: Option<JsonValue>)
    ensures
        match res {
            Some(v) => resolve_reference(json_view(*root), reference@) == Some(json_view(v)),
            None => resolve_reference(json_view(*root), reference@).is_none(),
        },
{
    let cs = crate::text::chars_of(reference);
    if cs.len() < 2 || cs[0] != '#' || cs[1] != '/' {
        return None;
    }
    let rest = crate::lines::slice_chars(&cs, 2, cs.len());
    let segments = crate::lines::split_chars(&rest, '/');
    let ghost segs = segments@.map_values(|p: Vec<char>| p@);
    assert(rest@ =~= reference@.subrange(2, reference@.len() as int));
    let mut current = crate::json::json_clone(root);
    assert(segs.subrange(0, segs.len() as int) =~= segs);
    let mut i: usize = 0;
    while i < segments.len()
        invariant
            i <= segments@.len(),
            segs == segments@.map_values(|p: Vec<char>| p@),
            walk_path(json_view(*root), segs) == walk_path(json_view(current), segs.subrange(i as int, segs.len() as int)),
        decreases segments@.len() - i,
    {
        let segment = crate::lines::string_of(&segments[i]);
        let ghost tail = segs.subrange(i as int, segs.len() as int);
        assert(tail[0] == segment@);
        assert(tail.subrange(1, tail.len() as int) =~= segs.subrange(i + 1, segs.len() as int));
        let next = match current.get(segment.as_str()) {
            Some(v) => crate::json::json_clone(v),
            None => {
                assert(walk_path(json_view(current), tail).is_none());
                assert(resolve_reference(json_view(*root), reference@) == walk_path(json_view(*root), segs));
                return None;
            },
        };
        current = next;
        i = i + 1;
    }
    Some(current)
}

/// A schema node in strict form.
fn ensure_node(node: JsonValue, root: &JsonValue, fuel: u64) -> (res: Option<Result<JsonValue, UserError>>)
    ensures
        matches_bounded_outcome(res, strict_node(json_view(node), json_view(*root), fuel as nat), value_view()),
    decreases fuel, json_size(json_view(node)), 2nat,
{
    match node {
        JsonValue::Object(members) => ensure_object(members, root, fuel),
        other => Some(Ok(other)),
    }
}

/// The members of an object with each value in strict form.
fn ensure_values(members: Vec<JsonMember>, root: &JsonValue, fuel: u64) -> (res: Option<
    Result<Vec<JsonMember>, UserError>,
>)
    ensures
        matches_bounded_outcome(res, strict_values(members_view(members@), json_view(*root), fuel as nat), list_view()),
    decreases fuel, members_size(members_view(members@)), 0nat,
{
    let ghost mv = members_view(members@);
    let ghost r = json_view(*root);
    proof {
        lemma_members_view(members@);
        assert(mv.subrange(0, 0) =~= Seq::<(Seq<char>, Json)>::empty());
    }
    let mut out: Vec<JsonMember> = Vec::new();
    let mut i: usize = 0;
    while i < members.len()
        invariant
            i <= members@.len(),
            mv == members_view(members@),
            r == json_view(*root),
            mv.len() == members@.len(),
            forall|k: int| 0 <= k < members@.len() ==> #[trigger] mv[k] == (members@[k].key@, json_view(members@[k].value)),
            strict_values(mv.subrange(0, i as int), r, fuel as nat) == Some(Ok::<Seq<(Seq<char>, Json)>, Seq<char>>(members_view(out@))),
        decreases members@.len() - i,
    {
        let ghost t = mv.subrange(0, i + 1);
        proof {
            assert(t.subrange(0, t.len() - 1) =~= mv.subrange(0, i as int));
            assert(t[t.len() - 1] == mv[i as int]);
            lemma_member_smaller(mv, i as int);
        }
        let value = crate::json::json_clone(&members[i].value);
        match ensure_node(value, root, fuel) {
            Some(Ok(v)) => {
                let ghost before = out@;
                out.push(JsonMember { key: members[i].key.clone(), value: v });
                proof {
                    lemma_members_view(before);
                    lemma_members_view(out@);
                    assert(members_view(out@) =~= members_view(before).push((mv[i as int].0, json_view(v))));
                }
            },
            Some(Err(e)) => {
                proof {
                    lemma_values_error(mv, r, fuel as nat, i + 1, e.message@);
                }
                return Some(Err(e));
            },
            None => {
                proof {
                    lemma_values_none(mv, r, fuel as nat, i + 1);
                }
                return None;
            },
        }
        i = i + 1;
    }
    assert(mv.subrange(0, mv.len() as int) =~= mv);
    Some(Ok(out))
}

/// The entries of an array with each in strict form.
fn ensure_items(items: Vec<JsonValue>, root: &JsonValue, fuel: u64) -> (res: Option<
    Result<Vec<JsonValue>, UserError>,
>)
    ensures
        matches_bounded_outcome(res, strict_items(json_seq_view(items@), json_view(*root), fuel as nat), items_view()),
    decreases fuel, items_size(json_seq_view(items@)), 0nat,
{
    let ghost xv = json_seq_view(items@);
    let ghost r = json_view(*root);
    proof {
        lemma_json_seq_view(items@);
        assert(xv.subrange(0, 0) =~= Seq::<Json>::empty());
        lemma_json_seq_view(Seq::<JsonValue>::empty());
    }
    let mut out: Vec<JsonValue> = Vec::new();
    let mut i: usize = 0;
    while i < items.len()
        invariant
            i <= items@.len(),
            xv == json_seq_view(items@),
            r == json_view(*root),
            xv.len() == items@.len(),
            forall|k: int| 0 <= k < items@.len() ==> #[trigger] xv[k] == json_view(items@[k]),
            strict_items(xv.subrange(0, i as int), r, fuel as nat) == Some(Ok::<Seq<Json>, Seq<char>>(json_seq_view(out@))),
        decreases items@.len() - i,
    {
        let ghost t = xv.subrange(0, i + 1);
        proof {
            assert(t.subrange(0, t.len() - 1) =~= xv.subrange(0, i as int));
            assert(t[t.len() - 1] == xv[i as int]);
            lemma_item_smaller(xv, i as int);
        }
        let value = crate::json::json_clone(&items[i]);
        match ensure_node(value, root, fuel) {
            Some(Ok(v)) => {
                let ghost before = out@;
                out.push(v);
                proof {
                    lemma_json_seq_view(before);
                    lemma_json_seq_view(out@);
                    assert(json_seq_view(out@) =~= json_seq_view(before).push(json_view(v)));
                }
            },
            Some(Err(e)) => {
                proof {
                    lemma_items_error(xv, r, fuel as nat, i + 1, e.message@);
                }
                return Some(Err(e));
            },
            None => {
                proof {
                    lemma_items_none(xv, r, fuel as nat, i + 1);
                }
                return None;
            },
        }
        i = i + 1;
    }
    assert(xv.subrange(0, xv.len() as int) =~= xv);
    Some(Ok(out))
}

/// The end of normalizing an object: the `null` default and a reference with
/// siblings.
fn ensure_after_all_of(members: Vec<JsonMember>, root: &JsonValue, fuel: u64) -> (res: Option<
    Result<JsonValue, UserError>,
>)
    ensures
        matches_bounded_outcome(res, after_all_of(members_view(members@), json_view(*root), fuel as nat), value_view()),
    decreases fuel, 0nat, 0nat,
{
    let ghost mv = members_view(members@);
    let mut o = members;
    match member_value(&o, "default") {
        Some(JsonValue::Null) => {
            member_remove(&mut o, "default");
        },
        _ => {},
    }
    proof {
        reveal_strlit("default");
    }
    let reference = match member_value(&o, "$ref") {
        Some(JsonValue::String(r)) => Some(r),
        _ => None,
    };
    let ghost ov = members_view(o@);
    let ghost spec_o = if members_get(mv, "default"@) == Some(Json::Null) {
        obj_remove(mv, "default"@)
    } else {
        mv
    };
    assert(ov == spec_o);
    proof {
        lemma_members_view(o@);
        reveal_strlit("$ref");
    }
    match reference {
        Some(r) => {
            assert(crate::json::json_as_str(members_get(ov, "$ref"@)) == Some(r@));
            if o.len() > 1 {
                match resolve_ref(root, r.as_str()) {
                    None => {
                        let head = crate::text::concat2("could not resolve schema reference `", r.as_str());
                        Some(Err(UserError { message: crate::text::concat2(head.as_str(), "`") }))
                    },
                    Some(JsonValue::Object(resolved)) => {
                        if fuel == 0 {
                            return None;
                        }
                        let mut merged = resolved;
                        insert_all(&mut merged, &o, Some("$ref"));
                        member_remove(&mut merged, "$ref");
                        ensure_node(JsonValue::Object(merged), root, fuel - 1)
                    },
                    Some(_) => Some(Ok(JsonValue::Object(o))),
                }
            } else {
                Some(Ok(JsonValue::Object(o)))
            }
        },
        None => {
            assert(crate::json::json_as_str(members_get(ov, "$ref"@)).is_none());
            Some(Ok(JsonValue::Object(o)))
        },
    }
}

/// An object schema in strict form.
#[verifier::rlimit(100)]
#[verifier::spinoff_prover]
fn ensure_object(members: Vec<JsonMember>, root: &JsonValue, fuel: u64) -> (res: Option<
    Result<JsonValue, UserError>,
>)
    ensures
        matches_bounded_outcome(res, strict_object(members_view(members@), json_view(*root), fuel as nat), value_view()),
    decreases fuel, members_size(members_view(members@)), 1nat,
{
    let ghost mv = members_view(members@);
    let ghost r = json_view(*root);
    proof {
        lemma_get_smaller(mv, "$defs"@);
        lemma_get_smaller(mv, "definitions"@);
        lemma_get_smaller(mv, "properties"@);
        lemma_get_smaller(mv, "items"@);
        lemma_get_smaller(mv, "anyOf"@);
        lemma_get_smaller(mv, "oneOf"@);
        lemma_get_smaller(mv, "allOf"@);
    }
    let ghost defs = match members_get(mv, "$defs"@) {
        Some(Json::Object(d)) => Some(strict_values(d, r, fuel as nat)),
        _ => None,
    };
    let ghost definitions = match members_get(mv, "definitions"@) {
        Some(Json::Object(d)) => Some(strict_values(d, r, fuel as nat)),
        _ => None,
    };
    let ghost properties = match members_get(mv, "properties"@) {
        Some(Json::Object(d)) => Some(strict_values(d, r, fuel as nat)),
        _ => None,
    };
    let ghost items = match members_get(mv, "items"@) {
        Some(v) => Some(strict_node(v, r, fuel as nat)),
        None => None,
    };
    let ghost any_of = match members_get(mv, "anyOf"@) {
        Some(Json::Array(xs)) => Some(strict_items(xs, r, fuel as nat)),
        _ => None,
    };
    let ghost one_of = match members_get(mv, "oneOf"@) {
        Some(Json::Array(xs)) => Some(strict_items(xs, r, fuel as nat)),
        _ => None,
    };
    let defs_v = member_value(&members, "$defs");
    let definitions_v = member_value(&members, "definitions");
    let properties_v = member_value(&members, "properties");
    let items_v = member_value(&members, "items");
    let any_v = member_value(&members, "anyOf");
    let one_v = member_value(&members, "oneOf");
    let all_v = member_value(&members, "allOf");
    let mut o = members;
    // The `$defs` and `definitions` members.
    let ghost s1 = step_values(Some(Ok(mv)), "$defs"@, defs);
    if let Some(JsonValue::Object(d)) = defs_v {
        match ensure_values(d, root, fuel) {
            Some(Ok(v)) => member_insert(&mut o, String::from_str("$defs"), JsonValue::Object(v)),
            Some(Err(e)) => return Some(Err(e)),
            None => return None,
        }
    }
    proof {
        reveal_strlit("$defs");
    }
    assert(s1 == Some(Ok::<Seq<(Seq<char>, Json)>, Seq<char>>(members_view(o@))));
    let ghost s2 = step_values(s1, "definitions"@, definitions);
    if let Some(JsonValue::Object(d)) = definitions_v {
        match ensure_values(d, root, fuel) {
            Some(Ok(v)) => member_insert(&mut o, String::from_str("definitions"), JsonValue::Object(v)),
            Some(Err(e)) => return Some(Err(e)),
            None => return None,
        }
    }
    proof {
        reveal_strlit("definitions");
    }
    assert(s2 == Some(Ok::<Seq<(Seq<char>, Json)>, Seq<char>>(members_view(o@))));
    // Object schemas close their properties.
    let ghost s3 = step_type(s2);
    let is_object = match member_value(&o, "type") {
        Some(JsonValue::String(t)) => str_eq(t.as_str(), "object"),
        _ => false,
    };
    proof {
        reveal_strlit("type");
        reveal_strlit("object");
    }
    if is_object {
        match member_value(&o, "additionalProperties") {
            None => member_insert(&mut o, String::from_str("additionalProperties"), JsonValue::Bool(false)),
            Some(JsonValue::Bool(true)) => {
                return Some(
                    Err(
                        UserError {
                            message: String::from_str("additionalProperties must be false for strict object schemas"),
                        },
                    ),
                );
            },
            _ => {},
        }
    }
    proof {
        reveal_strlit("additionalProperties");
    }
    assert(s3 == Some(Ok::<Seq<(Seq<char>, Json)>, Seq<char>>(members_view(o@))));
    // Every property is required.
    let ghost s4 = step_required(s3);
    match member_value(&o, "properties") {
        Some(p) => {
            let names = match &p {
                JsonValue::Object(pm) => names_of(pm),
                _ => Vec::new(),
            };
            proof {
                lemma_json_seq_view(names@);
            }
            member_insert(&mut o, String::from_str("required"), JsonValue::Array(names));
        },
        None => {},
    }
    proof {
        reveal_strlit("properties");
        reveal_strlit("required");
    }
    assert(s4 == Some(Ok::<Seq<(Seq<char>, Json)>, Seq<char>>(members_view(o@))));
    // The properties, the items and the `anyOf` entries.
    let ghost s5 = step_values(s4, "properties"@, properties);
    if let Some(JsonValue::Object(d)) = properties_v {
        match ensure_values(d, root, fuel) {
            Some(Ok(v)) => member_insert(&mut o, String::from_str("properties"), JsonValue::Object(v)),
            Some(Err(e)) => return Some(Err(e)),
            None => return None,
        }
    }
    assert(s5 == Some(Ok::<Seq<(Seq<char>, Json)>, Seq<char>>(members_view(o@))));
    let ghost s6 = step_node(s5, "items"@, items);
    if let Some(v) = items_v {
        match ensure_node(v, root, fuel) {
            Some(Ok(n)) => member_insert(&mut o, String::from_str("items"), n),
            Some(Err(e)) => return Some(Err(e)),
            None => return None,
        }
    }
    proof {
        reveal_strlit("items");
    }
    assert(s6 == Some(Ok::<Seq<(Seq<char>, Json)>, Seq<char>>(members_view(o@))));
    let ghost s7 = step_items(s6, "anyOf"@, any_of);
    if let Some(JsonValue::Array(xs)) = any_v {
        match ensure_items(xs, root, fuel) {
            Some(Ok(v)) => member_insert(&mut o, String::from_str("anyOf"), JsonValue::Array(v)),
            Some(Err(e)) => return Some(Err(e)),
            None => return None,
        }
    }
    proof {
        reveal_strlit("anyOf");
    }
    assert(s7 == Some(Ok::<Seq<(Seq<char>, Json)>, Seq<char>>(members_view(o@))));
    // `oneOf` joins `anyOf`.
    let ghost s8 = step_one_of(s7, one_of);
    member_remove(&mut o, "oneOf");
    proof {
        reveal_strlit("oneOf");
    }
    if let Some(JsonValue::Array(xs)) = one_v {
        match ensure_items(xs, root, fuel) {
            Some(Ok(entries)) => {
                if member_value(&o, "anyOf").is_none() {
                    member_insert(&mut o, String::from_str("anyOf"), JsonValue::Array(Vec::new()));
                    proof {
                        lemma_json_seq_view(Seq::<JsonValue>::empty());
                    }
                }
                match member_value(&o, "anyOf") {
                    Some(JsonValue::Array(existing)) => {
                        let mut all = existing;
                        let ghost a = all@;
                        let mut more = entries;
                        let ghost b = more@;
                        all.append(&mut more);
                        proof {
                            lemma_json_seq_append(a, b);
                        }
                        member_insert(&mut o, String::from_str("anyOf"), JsonValue::Array(all));
                    },
                    _ => {},
                }
            },
            Some(Err(e)) => return Some(Err(e)),
            None => return None,
        }
    }
    assert(s8 == Some(Ok::<Seq<(Seq<char>, Json)>, Seq<char>>(members_view(o@))));
    assert(before_all_of(mv, defs, definitions, properties, items, any_of, one_of) == s8);
    // `allOf`.
    member_remove(&mut o, "allOf");
    proof {
        reveal_strlit("allOf");
    }
    match all_v {
        Some(JsonValue::Array(entries)) => {
            proof {
                lemma_json_seq_view(entries@);
            }
            if entries.len() == 1 {
                proof {
                    lemma_item_smaller(json_seq_view(entries@), 0);
                }
                let first = crate::json::json_clone(&entries[0]);
                match ensure_node(first, root, fuel) {
                    Some(Ok(merged)) => {
                        if let JsonValue::Object(mm) = &merged {
                            insert_all(&mut o, mm, None);
                        }
                        if fuel == 0 {
                            return None;
                        }
                        ensure_node(JsonValue::Object(o), root, fuel - 1)
                    },
                    Some(Err(e)) => Some(Err(e)),
                    None => None,
                }
            } else {
                match ensure_items(entries, root, fuel) {
                    Some(Ok(normalized)) => {
                        member_insert(&mut o, String::from_str("allOf"), JsonValue::Array(normalized));
                        ensure_after_all_of(o, root, fuel)
                    },
                    Some(Err(e)) => Some(Err(e)),
                    None => None,
                }
            }
        },
        _ => ensure_after_all_of(o, root, fuel),
    }
}

/// The strict schema of an empty schema: an object with no properties.
pub open spec fn empty_strict_schema() -> Json {
    Json::Object(
        seq![
            ("additionalProperties"@, Json::Bool(false)),
            ("properties"@, Json::Object(Seq::empty())),
            ("required"@, Json::Array(Seq::empty())),
            ("type"@, Json::Str("object"@)),
        ],
    )
}

/// The re-entries a normalization may make: a reference or a single `allOf`
/// entry that is laid over its object and normalized again is one.
pub open spec fn normalization_fuel() -> nat {
    u64::MAX as nat
}

/// Whether normalizing `schema` ends within `normalization_fuel()`
/// re-entries.  (It does not end when references expand into themselves;
/// each re-entry nests one call deeper, so a normalization that needs more
/// than that many does not end on any machine.)
pub open spec fn normalization_ends(schema: Json) -> bool {
    strict_node(schema, schema, normalization_fuel()).is_some()
}

/// The strict form of a schema, or the error that refuses it.
pub open spec fn strict_schema(schema: Json) -> Result<Json, Seq<char>> {
    if schema == Json::Object(Seq::empty()) {
        Ok(empty_strict_schema())
    } else {
        strict_node(schema, schema, normalization_fuel()).unwrap()
    }
}

/// Brings a JSON schema into the strict subset that structured outputs
/// accept, unless its normalization does not end: then nothing.  References
/// are resolved against the schema itself.
pub fn try_ensure_strict_json_schema(schema: JsonValue) -> (res: Option<Result<JsonValue, UserError>>)
    ensures
        match res {
            None => json_view(schema) != Json::Object(Seq::empty()) && !normalization_ends(json_view(schema)),
            Some(r) => (json_view(schema) == Json::Object(Seq::empty()) || normalization_ends(json_view(schema)))
                && match r {
                Ok(v) => strict_schema(json_view(schema)) == Ok::<Json, Seq<char>>(json_view(v)),
                Err(e) => strict_schema(json_view(schema)) == Err::<Json, Seq<char>>(e.message@),
            },
        },
{
    if let JsonValue::Object(members) = &schema {
        if members.len() == 0 {
            let mut out: Vec<JsonMember> = Vec::new();
            out.push(JsonMember { key: String::from_str("additionalProperties"), value: JsonValue::Bool(false) });
            out.push(JsonMember { key: String::from_str("properties"), value: JsonValue::Object(Vec::new()) });
            out.push(JsonMember { key: String::from_str("required"), value: JsonValue::Array(Vec::new()) });
            out.push(JsonMember { key: String::from_str("type"), value: JsonValue::String(String::from_str("object")) });
            proof {
                lemma_members_view(out@);
                lemma_members_view(Seq::<JsonMember>::empty());
                lemma_json_seq_view(Seq::<JsonValue>::empty());
                assert(members_view(members@) =~= Seq::<(Seq<char>, Json)>::empty());
                assert(members_view(out@) =~= seq![
                    ("additionalProperties"@, Json::Bool(false)),
                    ("properties"@, Json::Object(Seq::empty())),
                    ("required"@, Json::Array(Seq::empty())),
                    ("type"@, Json::Str("object"@)),
                ]);
            }
            return Some(Ok(JsonValue::Object(out)));
        }
    }
    let ghost v = json_view(schema);
    proof {
        if schema is Object {
            lemma_members_view(schema->Object_0@);
        }
        assert(v != Json::Object(Seq::empty()));
    }
    let root = crate::json::json_clone(&schema);
    ensure_node(schema, &root, u64::MAX)
}

/// Brings a JSON schema into the strict subset that structured outputs
/// accept; references are resolved against the schema itself.
pub fn ensure_strict_json_schema(schema: JsonValue) -> (res: Result<JsonValue, UserError>)
    requires
        json_view(schema) == Json::Object(Seq::empty()) || normalization_ends(json_view(schema)),
    ensures
        match res {
            Ok(v) => strict_schema(json_view(schema)) == Ok::<Json, Seq<char>>(json_view(v)),
            Err(e) => strict_schema(json_view(schema)) == Err::<Json, Seq<char>>(e.message@),
        },
{
    match try_ensure_strict_json_schema(schema) {
        Some(r) => r,
        None => {
            proof {
                assert(false);
            }
            Err(UserError { message: String::new() })
        },
    }
}

/// Looking a key up in two lists laid end to end finds it in the first when
/// it is there, else in the second.
proof fn lemma_get_concat(a: Seq<(Seq<char>, Json)>, b: Seq<(Seq<char>, Json)>, key: Seq<char>)
    ensures
        members_get(a + b, key) == if members_get(a, key).is_some() {
            members_get(a, key)
        } else {
            members_get(b, key)
        },
    decreases a.len(),
{
    if a.len() == 0 {
        assert(a + b =~= b);
    } else {
        let ab = a + b;
        assert(ab[0] == a[0]);
        if a[0].0 != key {
            assert(ab.subrange(1, ab.len() as int) =~= a.subrange(1, a.len() as int) + b);
            lemma_get_concat(a.subrange(1, a.len() as int), b, key);
        }
    }
}

/// A single member gives its value for its own key and nothing for others.
proof fn lemma_get_single(e: (Seq<char>, Json), key: Seq<char>)
    ensures
        members_get(seq![e], key) == if e.0 == key {
            Some(e.1)
        } else {
            None
        },
{
    let s = seq![e];
    assert(s.subrange(1, 1) =~= Seq::<(Seq<char>, Json)>::empty());
    assert(members_get(Seq::<(Seq<char>, Json)>::empty(), key).is_none());
}

/// A list without the key gives nothing for it.
proof fn lemma_get_none(a: Seq<(Seq<char>, Json)>, key: Seq<char>)
    requires
        forall|j: int| 0 <= j < a.len() ==> (#[trigger] a[j]).0 != key,
    ensures
        members_get(a, key).is_none(),
{
    lemma_get_first(a, key);
    lemma_first_index(a, key, 0);
}

/// Where a new member goes lies between `from` and the end.
proof fn lemma_insert_position_bounds(members: Seq<(Seq<char>, Json)>, key: Seq<char>, from: int)
    requires
        0 <= from <= members.len(),
    ensures
        from <= insert_position(members, key, from) <= members.len(),
    decreases members.len() - from,
{
    if from < members.len() && !seq_lt(key, members[from].0) {
        lemma_insert_position_bounds(members, key, from + 1);
    }
}

/// After setting `k` to `v`, looking up `k` gives `v` and every other key
/// gives what it gave before.
pub proof fn lemma_insert_get(m: Seq<(Seq<char>, Json)>, k: Seq<char>, v: Json, key: Seq<char>)
    ensures
        members_get(obj_insert(m, k, v), key) == if key == k {
            Some(v)
        } else {
            members_get(m, key)
        },
{
    lemma_first_index(m, k, 0);
    lemma_get_single((k, v), key);
    match first_index(m, k, 0) {
        Some(i) => {
            let a = m.subrange(0, i);
            let c = m.subrange(i + 1, m.len() as int);
            assert(m =~= a + seq![m[i]] + c);
            assert(obj_insert(m, k, v) =~= a + seq![(k, v)] + c);
            lemma_get_concat(a + seq![m[i]], c, key);
            lemma_get_concat(a, seq![m[i]], key);
            lemma_get_concat(a + seq![(k, v)], c, key);
            lemma_get_concat(a, seq![(k, v)], key);
            lemma_get_single(m[i], key);
            if key == k {
                assert forall|j: int| 0 <= j < a.len() implies (#[trigger] a[j]).0 != key by {
                    assert(a[j] == m[j]);
                }
                lemma_get_none(a, key);
            }
        },
        None => {
            let p = insert_position(m, k, 0);
            lemma_insert_position_bounds(m, k, 0);
            let a = m.subrange(0, p);
            let c = m.subrange(p, m.len() as int);
            assert(m =~= a + c);
            assert(obj_insert(m, k, v) =~= a + seq![(k, v)] + c);
            lemma_get_concat(a, c, key);
            lemma_get_concat(a + seq![(k, v)], c, key);
            lemma_get_concat(a, seq![(k, v)], key);
            if key == k {
                assert forall|j: int| 0 <= j < a.len() implies (#[trigger] a[j]).0 != key by {
                    assert(a[j] == m[j]);
                }
                lemma_get_none(a, key);
            }
        },
    }
}

/// Removing `k` leaves what every other key gives.
pub proof fn lemma_remove_get(m: Seq<(Seq<char>, Json)>, k: Seq<char>, key: Seq<char>)
    requires
        key != k,
    ensures
        members_get(obj_remove(m, k), key) == members_get(m, key),
{
    lemma_first_index(m, k, 0);
    if let Some(i) = first_index(m, k, 0) {
        let a = m.subrange(0, i);
        let c = m.subrange(i + 1, m.len() as int);
        assert(m =~= a + seq![m[i]] + c);
        assert(obj_remove(m, k) =~= a + c);
        lemma_get_concat(a + seq![m[i]], c, key);
        lemma_get_concat(a, seq![m[i]], key);
        lemma_get_concat(a, c, key);
        lemma_get_single(m[i], key);
    }
}

/// Whether a step that ended with an object started with one, and left the
/// member named `key` as it was.
pub open spec fn step_keeps(
    current: Outcome<Seq<(Seq<char>, Json)>>,
    next: Outcome<Seq<(Seq<char>, Json)>>,
    key: Seq<char>,
) -> bool {
    next matches Some(Ok(o2)) ==> (current matches Some(Ok(o1)) && members_get(o2, key) == members_get(o1, key))
}

/// Normalizing an object-valued member leaves the other members.
proof fn lemma_step_values_keeps(
    current: Outcome<Seq<(Seq<char>, Json)>>,
    k: Seq<char>,
    result: Option<Outcome<Seq<(Seq<char>, Json)>>>,
    key: Seq<char>,
)
    ensures
        key != k ==> step_keeps(current, step_values(current, k, result), key),
        result matches Some(r) ==> (step_values(current, k, result) matches Some(Ok(o2)) ==> (r matches Some(
            Ok(v),
        ) && members_get(o2, k) == Some(Json::Object(v)))),
{
    if let Some(Ok(o1)) = current {
        if let Some(Some(Ok(v))) = result {
            lemma_insert_get(o1, k, Json::Object(v), key);
            lemma_insert_get(o1, k, Json::Object(v), k);
        }
    }
}

/// Normalizing a member's value leaves the other members, and an object that
/// comes out holds the normalized value.
proof fn lemma_step_node_keeps(
    current: Outcome<Seq<(Seq<char>, Json)>>,
    k: Seq<char>,
    result: Option<Outcome<Json>>,
    key: Seq<char>,
)
    ensures
        key != k ==> step_keeps(current, step_node(current, k, result), key),
        result matches Some(r) ==> (step_node(current, k, result) matches Some(Ok(o2)) ==> (r matches Some(
            Ok(v),
        ) && members_get(o2, k) == Some(v))),
{
    if let Some(Ok(o1)) = current {
        if let Some(Some(Ok(v))) = result {
            lemma_insert_get(o1, k, v, key);
            lemma_insert_get(o1, k, v, k);
        }
    }
}

/// Normalizing an array-valued member leaves the other members.
proof fn lemma_step_items_keeps(
    current: Outcome<Seq<(Seq<char>, Json)>>,
    k: Seq<char>,
    result: Option<Outcome<Seq<Json>>>,
    key: Seq<char>,
)
    ensures
        key != k ==> step_keeps(current, step_items(current, k, result), key),
        result matches Some(r) ==> (step_items(current, k, result) matches Some(Ok(o2)) ==> (r matches Some(
            Ok(v),
        ) && members_get(o2, k) == Some(Json::Array(v)))),
{
    if let Some(Ok(o1)) = current {
        if let Some(Some(Ok(v))) = result {
            lemma_insert_get(o1, k, Json::Array(v), key);
            lemma_insert_get(o1, k, Json::Array(v), k);
        }
    }
}

/// Closing an object schema leaves every member but `additionalProperties`.
proof fn lemma_step_type_keeps(current: Outcome<Seq<(Seq<char>, Json)>>, key: Seq<char>)
    requires
        key != "additionalProperties"@,
    ensures
        step_keeps(current, step_type(current), key),
{
    if let Some(Ok(o1)) = current {
        lemma_insert_get(o1, "additionalProperties"@, Json::Bool(false), key);
    }
}

/// Requiring the properties leaves every member but `required`.
proof fn lemma_step_required_keeps(current: Outcome<Seq<(Seq<char>, Json)>>, key: Seq<char>)
    requires
        key != "required"@,
    ensures
        step_keeps(current, step_required(current), key),
{
    if let Some(Ok(o1)) = current {
        let names = match members_get(o1, "properties"@) {
            Some(Json::Object(p)) => member_names(p),
            _ => Seq::empty(),
        };
        lemma_insert_get(o1, "required"@, Json::Array(names), key);
    }
}

/// Turning `oneOf` into `anyOf` leaves every other member.
proof fn lemma_step_one_of_keeps(
    current: Outcome<Seq<(Seq<char>, Json)>>,
    result: Option<Outcome<Seq<Json>>>,
    key: Seq<char>,
)
    requires
        key != "oneOf"@,
        key != "anyOf"@ || result.is_none(),
    ensures
        step_keeps(current, step_one_of(current, result), key),
{
    if let Some(Ok(o1)) = current {
        let removed = obj_remove(o1, "oneOf"@);
        lemma_remove_get(o1, "oneOf"@, key);
        if let Some(Some(Ok(entries))) = result {
            let with_any = if members_get(removed, "anyOf"@).is_none() {
                obj_insert(removed, "anyOf"@, Json::Array(Seq::empty()))
            } else {
                removed
            };
            lemma_insert_get(removed, "anyOf"@, Json::Array(Seq::empty()), key);
            if let Some(Json::Array(existing)) = members_get(with_any, "anyOf"@) {
                lemma_insert_get(with_any, "anyOf"@, Json::Array(existing + entries), key);
            }
        }
    }
}

/// Normalizing recurses into `items` exactly as into property values: for an
/// object schema with an `items` member (and neither `allOf` nor `$ref`, which
/// normalize a merged object again), the strict form is an object whose
/// `items` member is the strict form of the input's `items` member.
pub proof fn law_items_are_made_strict(members: Seq<(Seq<char>, Json)>, root: Json, fuel: nat, v: Json, r: Json)
    requires
        members_get(members, "items"@) == Some(v),
        members_get(members, "allOf"@).is_none(),
        members_get(members, "$ref"@).is_none(),
        strict_node(Json::Object(members), root, fuel) == Some(Ok::<Json, Seq<char>>(r)),
    ensures
        strict_node(v, root, fuel) matches Some(Ok(vi)) && r matches Json::Object(o) && members_get(o, "items"@)
            == Some(vi),
{
    reveal_strlit("items");
    reveal_strlit("$ref");
    reveal_strlit("allOf");
    reveal_strlit("default");
    reveal_strlit("$defs");
    reveal_strlit("definitions");
    reveal_strlit("additionalProperties");
    reveal_strlit("required");
    reveal_strlit("properties");
    reveal_strlit("anyOf");
    reveal_strlit("oneOf");
    assert("$ref"@.len() != "definitions"@.len());
    assert("$ref"@.len() != "additionalProperties"@.len());
    assert("$ref"@.len() != "default"@.len());
    assert("items"@[0] != "anyOf"@[0]);
    assert("items"@[0] != "oneOf"@[0]);
    assert("items"@[0] != "allOf"@[0]);
    let defs = match members_get(members, "$defs"@) {
        Some(Json::Object(d)) => Some(strict_values(d, root, fuel)),
        _ => None,
    };
    let definitions = match members_get(members, "definitions"@) {
        Some(Json::Object(d)) => Some(strict_values(d, root, fuel)),
        _ => None,
    };
    let properties = match members_get(members, "properties"@) {
        Some(Json::Object(d)) => Some(strict_values(d, root, fuel)),
        _ => None,
    };
    let items = Some(strict_node(v, root, fuel));
    let any_of = match members_get(members, "anyOf"@) {
        Some(Json::Array(xs)) => Some(strict_items(xs, root, fuel)),
        _ => None,
    };
    let one_of = match members_get(members, "oneOf"@) {
        Some(Json::Array(xs)) => Some(strict_items(xs, root, fuel)),
        _ => None,
    };
    let s0: Outcome<Seq<(Seq<char>, Json)>> = Some(Ok(members));
    let s1 = step_values(s0, "$defs"@, defs);
    let s2 = step_values(s1, "definitions"@, definitions);
    let s3 = step_type(s2);
    let s4 = step_required(s3);
    let s5 = step_values(s4, "properties"@, properties);
    let s6 = step_node(s5, "items"@, items);
    let s7 = step_items(s6, "anyOf"@, any_of);
    let s8 = step_one_of(s7, one_of);
    assert(before_all_of(members, defs, definitions, properties, items, any_of, one_of) == s8);
    assert(strict_node(Json::Object(members), root, fuel) == strict_object(members, root, fuel));
    lemma_step_values_keeps(s0, "$defs"@, defs, "$ref"@);
    lemma_step_values_keeps(s1, "definitions"@, definitions, "$ref"@);
    lemma_step_type_keeps(s2, "$ref"@);
    lemma_step_required_keeps(s3, "$ref"@);
    lemma_step_values_keeps(s4, "properties"@, properties, "$ref"@);
    lemma_step_node_keeps(s5, "items"@, items, "$ref"@);
    lemma_step_items_keeps(s6, "anyOf"@, any_of, "$ref"@);
    lemma_step_one_of_keeps(s7, one_of, "$ref"@);
    lemma_step_items_keeps(s6, "anyOf"@, any_of, "items"@);
    lemma_step_one_of_keeps(s7, one_of, "items"@);
    if let Some(Ok(o)) = s8 {
        let without = obj_remove(o, "allOf"@);
        lemma_remove_get(o, "allOf"@, "$ref"@);
        lemma_remove_get(o, "allOf"@, "items"@);
        lemma_remove_get(without, "default"@, "$ref"@);
        lemma_remove_get(without, "default"@, "items"@);
        assert(strict_object(members, root, fuel) == after_all_of(without, root, fuel));
    }
}

/// Normalizing the members' values keeps their names, in order.
proof fn lemma_strict_values_names(members: Seq<(Seq<char>, Json)>, root: Json, fuel: nat)
    ensures
        strict_values(members, root, fuel) matches Some(Ok(q)) ==> member_names(q) == member_names(members),
    decreases members.len(),
{
    if members.len() > 0 {
        let front = members.subrange(0, members.len() - 1);
        lemma_strict_values_names(front, root, fuel);
        if let Some(Ok(q)) = strict_values(members, root, fuel) {
            let prev = q.drop_last();
            assert(members =~= front.push(members[members.len() - 1]));
            assert(member_names(members) =~= member_names(front).push(Json::Str(members[members.len() - 1].0)));
            if let Some(Ok(p)) = strict_values(front, root, fuel) {
                assert(q =~= p.push(q.last()));
                assert(member_names(q) =~= member_names(p).push(Json::Str(q.last().0)));
            }
        }
    }
}

/// An object schema in strict form is closed and requires every property:
/// for a schema of type `object` with `properties` (and neither `allOf` nor
/// `$ref`, which normalize a merged object again) that does not allow
/// additional properties already, the strict form has `additionalProperties`
/// false, `required` listing the property names in order, and each property
/// value in strict form under its name.
pub proof fn law_object_schema_is_closed(
    members: Seq<(Seq<char>, Json)>,
    root: Json,
    fuel: nat,
    props: Seq<(Seq<char>, Json)>,
    r: Json,
)
    requires
        members_get(members, "type"@) == Some(Json::Str("object"@)),
        members_get(members, "properties"@) == Some(Json::Object(props)),
        members_get(members, "additionalProperties"@).is_none() || members_get(members, "additionalProperties"@)
            == Some(Json::Bool(false)),
        members_get(members, "allOf"@).is_none(),
        members_get(members, "$ref"@).is_none(),
        strict_node(Json::Object(members), root, fuel) == Some(Ok::<Json, Seq<char>>(r)),
    ensures
        r matches Json::Object(o) && {
            &&& members_get(o, "additionalProperties"@) == Some(Json::Bool(false))
            &&& members_get(o, "required"@) == Some(Json::Array(member_names(props)))
            &&& strict_values(props, root, fuel) matches Some(Ok(q)) && members_get(o, "properties"@) == Some(
                Json::Object(q),
            ) && member_names(q) == member_names(props)
        },
{
    reveal_strlit("type");
    reveal_strlit("object");
    reveal_strlit("items");
    reveal_strlit("$ref");
    reveal_strlit("allOf");
    reveal_strlit("default");
    reveal_strlit("$defs");
    reveal_strlit("definitions");
    reveal_strlit("additionalProperties");
    reveal_strlit("required");
    reveal_strlit("properties");
    reveal_strlit("anyOf");
    reveal_strlit("oneOf");
    assert("type"@.len() != "$defs"@.len());
    assert("type"@.len() != "definitions"@.len());
    assert("properties"@.len() != "$defs"@.len());
    assert("properties"@.len() != "definitions"@.len());
    assert("properties"@.len() != "additionalProperties"@.len());
    assert("properties"@.len() != "items"@.len());
    assert("properties"@.len() != "allOf"@.len());
    assert("properties"@.len() != "default"@.len());
    assert("additionalProperties"@.len() != "$defs"@.len());
    assert("additionalProperties"@.len() != "definitions"@.len());
    assert("additionalProperties"@.len() != "required"@.len());
    assert("additionalProperties"@.len() != "properties"@.len());
    assert("additionalProperties"@.len() != "items"@.len());
    assert("additionalProperties"@.len() != "allOf"@.len());
    assert("additionalProperties"@.len() != "default"@.len());
    assert("required"@.len() != "properties"@.len());
    assert("required"@.len() != "items"@.len());
    assert("required"@.len() != "allOf"@.len());
    assert("required"@.len() != "default"@.len());
    assert("$ref"@.len() != "definitions"@.len());
    assert("$ref"@.len() != "additionalProperties"@.len());
    assert("$ref"@.len() != "default"@.len());
    let defs = match members_get(members, "$defs"@) {
        Some(Json::Object(d)) => Some(strict_values(d, root, fuel)),
        _ => None,
    };
    let definitions = match members_get(members, "definitions"@) {
        Some(Json::Object(d)) => Some(strict_values(d, root, fuel)),
        _ => None,
    };
    let properties = Some(strict_values(props, root, fuel));
    let items = match members_get(members, "items"@) {
        Some(v) => Some(strict_node(v, root, fuel)),
        None => None,
    };
    let any_of = match members_get(members, "anyOf"@) {
        Some(Json::Array(xs)) => Some(strict_items(xs, root, fuel)),
        _ => None,
    };
    let one_of = match members_get(members, "oneOf"@) {
        Some(Json::Array(xs)) => Some(strict_items(xs, root, fuel)),
        _ => None,
    };
    let s0: Outcome<Seq<(Seq<char>, Json)>> = Some(Ok(members));
    let s1 = step_values(s0, "$defs"@, defs);
    let s2 = step_values(s1, "definitions"@, definitions);
    let s3 = step_type(s2);
    let s4 = step_required(s3);
    let s5 = step_values(s4, "properties"@, properties);
    let s6 = step_node(s5, "items"@, items);
    let s7 = step_items(s6, "anyOf"@, any_of);
    let s8 = step_one_of(s7, one_of);
    assert(before_all_of(members, defs, definitions, properties, items, any_of, one_of) == s8);
    assert(strict_node(Json::Object(members), root, fuel) == strict_object(members, root, fuel));
    lemma_strict_values_names(props, root, fuel);
    // Members the steps before their own leave alone.
    lemma_step_values_keeps(s0, "$defs"@, defs, "type"@);
    lemma_step_values_keeps(s1, "definitions"@, definitions, "type"@);
    lemma_step_values_keeps(s0, "$defs"@, defs, "properties"@);
    lemma_step_values_keeps(s1, "definitions"@, definitions, "properties"@);
    lemma_step_type_keeps(s2, "properties"@);
    lemma_step_values_keeps(s0, "$defs"@, defs, "additionalProperties"@);
    lemma_step_values_keeps(s1, "definitions"@, definitions, "additionalProperties"@);
    // What the later steps leave alone.
    lemma_step_required_keeps(s3, "additionalProperties"@);
    lemma_step_values_keeps(s4, "properties"@, properties, "additionalProperties"@);
    lemma_step_node_keeps(s5, "items"@, items, "additionalProperties"@);
    lemma_step_items_keeps(s6, "anyOf"@, any_of, "additionalProperties"@);
    lemma_step_one_of_keeps(s7, one_of, "additionalProperties"@);
    lemma_step_values_keeps(s4, "properties"@, properties, "required"@);
    lemma_step_node_keeps(s5, "items"@, items, "required"@);
    lemma_step_items_keeps(s6, "anyOf"@, any_of, "required"@);
    lemma_step_one_of_keeps(s7, one_of, "required"@);
    lemma_step_values_keeps(s4, "properties"@, properties, "properties"@);
    lemma_step_node_keeps(s5, "items"@, items, "properties"@);
    lemma_step_items_keeps(s6, "anyOf"@, any_of, "properties"@);
    lemma_step_one_of_keeps(s7, one_of, "properties"@);
    lemma_step_values_keeps(s0, "$defs"@, defs, "$ref"@);
    lemma_step_values_keeps(s1, "definitions"@, definitions, "$ref"@);
    lemma_step_type_keeps(s2, "$ref"@);
    lemma_step_required_keeps(s3, "$ref"@);
    lemma_step_values_keeps(s4, "properties"@, properties, "$ref"@);
    lemma_step_node_keeps(s5, "items"@, items, "$ref"@);
    lemma_step_items_keeps(s6, "anyOf"@, any_of, "$ref"@);
    lemma_step_one_of_keeps(s7, one_of, "$ref"@);
    if let Some(Ok(o8)) = s8 {
        // The steps that set members.
        let o2 = s2->0->Ok_0;
        assert(members_get(o2, "type"@) == Some(Json::Str("object"@)));
        if members_get(o2, "additionalProperties"@).is_none() {
            lemma_insert_get(o2, "additionalProperties"@, Json::Bool(false), "additionalProperties"@);
        }
        let o3 = s3->0->Ok_0;
        assert(members_get(o3, "properties"@) == Some(Json::Object(props)));
        lemma_insert_get(o3, "required"@, Json::Array(member_names(props)), "required"@);
        let without = obj_remove(o8, "allOf"@);
        lemma_remove_get(o8, "allOf"@, "$ref"@);
        lemma_remove_get(o8, "allOf"@, "additionalProperties"@);
        lemma_remove_get(o8, "allOf"@, "required"@);
        lemma_remove_get(o8, "allOf"@, "properties"@);
        lemma_remove_get(without, "default"@, "$ref"@);
        lemma_remove_get(without, "default"@, "additionalProperties"@);
        lemma_remove_get(without, "default"@, "required"@);
        lemma_remove_get(without, "default"@, "properties"@);
        assert(strict_object(members, root, fuel) == after_all_of(without, root, fuel));
    }
}

/// Normalizing recurses into the variants and definitions of a schema: for an
/// object schema (with neither `allOf` nor `$ref`, which normalize a merged
/// object again), an `anyOf` array comes out with each entry in strict form,
/// a `oneOf` array alone comes out as an `anyOf` array of its entries in
/// strict form, and `$defs` comes out with each definition in strict form.
pub proof fn law_variants_are_made_strict(members: Seq<(Seq<char>, Json)>, root: Json, fuel: nat, r: Json)
    requires
        members_get(members, "allOf"@).is_none(),
        members_get(members, "$ref"@).is_none(),
        strict_node(Json::Object(members), root, fuel) == Some(Ok::<Json, Seq<char>>(r)),
    ensures
        r matches Json::Object(o) && {
            &&& members_get(members, "anyOf"@) matches Some(Json::Array(xs)) ==> members_get(members, "oneOf"@).is_none()
                ==> (strict_items(xs, root, fuel) matches Some(Ok(ys)) && members_get(o, "anyOf"@) == Some(
                Json::Array(ys),
            ))
            &&& members_get(members, "oneOf"@) matches Some(Json::Array(xs)) ==> members_get(members, "anyOf"@).is_none()
                ==> (strict_items(xs, root, fuel) matches Some(Ok(ys)) && members_get(o, "anyOf"@) == Some(
                Json::Array(ys),
            ))
            &&& members_get(members, "$defs"@) matches Some(Json::Object(d)) ==> (strict_values(d, root, fuel) matches Some(
                Ok(q),
            ) && members_get(o, "$defs"@) == Some(Json::Object(q)))
        },
{
    reveal_strlit("items");
    reveal_strlit("$ref");
    reveal_strlit("allOf");
    reveal_strlit("default");
    reveal_strlit("$defs");
    reveal_strlit("definitions");
    reveal_strlit("additionalProperties");
    reveal_strlit("required");
    reveal_strlit("properties");
    reveal_strlit("anyOf");
    reveal_strlit("oneOf");
    assert("$ref"@.len() != "definitions"@.len());
    assert("$ref"@.len() != "additionalProperties"@.len());
    assert("$ref"@.len() != "default"@.len());
    assert("anyOf"@.len() != "$defs"@.len() || "anyOf"@[0] != "$defs"@[0]);
    assert("anyOf"@.len() != "definitions"@.len());
    assert("anyOf"@.len() != "additionalProperties"@.len());
    assert("anyOf"@.len() != "required"@.len());
    assert("anyOf"@.len() != "properties"@.len());
    assert("anyOf"@[0] != "items"@[0]);
    assert("anyOf"@[0] != "oneOf"@[0]);
    assert("anyOf"@[1] != "allOf"@[1]);
    assert("anyOf"@.len() != "default"@.len());
    assert("$defs"@.len() != "definitions"@.len());
    assert("$defs"@.len() != "additionalProperties"@.len());
    assert("$defs"@.len() != "required"@.len());
    assert("$defs"@.len() != "properties"@.len());
    assert("$defs"@[0] != "items"@[0]);
    assert("$defs"@[0] != "anyOf"@[0]);
    assert("$defs"@[0] != "oneOf"@[0]);
    assert("$defs"@[0] != "allOf"@[0]);
    assert("$defs"@.len() != "default"@.len());
    let defs = match members_get(members, "$defs"@) {
        Some(Json::Object(d)) => Some(strict_values(d, root, fuel)),
        _ => None,
    };
    let definitions = match members_get(members, "definitions"@) {
        Some(Json::Object(d)) => Some(strict_values(d, root, fuel)),
        _ => None,
    };
    let properties = match members_get(members, "properties"@) {
        Some(Json::Object(d)) => Some(strict_values(d, root, fuel)),
        _ => None,
    };
    let items = match members_get(members, "items"@) {
        Some(v) => Some(strict_node(v, root, fuel)),
        None => None,
    };
    let any_of = match members_get(members, "anyOf"@) {
        Some(Json::Array(xs)) => Some(strict_items(xs, root, fuel)),
        _ => None,
    };
    let one_of = match members_get(members, "oneOf"@) {
        Some(Json::Array(xs)) => Some(strict_items(xs, root, fuel)),
        _ => None,
    };
    let s0: Outcome<Seq<(Seq<char>, Json)>> = Some(Ok(members));
    let s1 = step_values(s0, "$defs"@, defs);
    let s2 = step_values(s1, "definitions"@, definitions);
    let s3 = step_type(s2);
    let s4 = step_required(s3);
    let s5 = step_values(s4, "properties"@, properties);
    let s6 = step_node(s5, "items"@, items);
    let s7 = step_items(s6, "anyOf"@, any_of);
    let s8 = step_one_of(s7, one_of);
    assert(before_all_of(members, defs, definitions, properties, items, any_of, one_of) == s8);
    assert(strict_node(Json::Object(members), root, fuel) == strict_object(members, root, fuel));
    lemma_step_values_keeps(s0, "$defs"@, defs, "$ref"@);
    lemma_step_values_keeps(s1, "definitions"@, definitions, "$ref"@);
    lemma_step_type_keeps(s2, "$ref"@);
    lemma_step_required_keeps(s3, "$ref"@);
    lemma_step_values_keeps(s4, "properties"@, properties, "$ref"@);
    lemma_step_node_keeps(s5, "items"@, items, "$ref"@);
    lemma_step_items_keeps(s6, "anyOf"@, any_of, "$ref"@);
    lemma_step_one_of_keeps(s7, one_of, "$ref"@);
    lemma_step_values_keeps(s0, "$defs"@, defs, "anyOf"@);
    lemma_step_values_keeps(s1, "definitions"@, definitions, "anyOf"@);
    lemma_step_type_keeps(s2, "anyOf"@);
    lemma_step_required_keeps(s3, "anyOf"@);
    lemma_step_values_keeps(s4, "properties"@, properties, "anyOf"@);
    lemma_step_node_keeps(s5, "items"@, items, "anyOf"@);
    lemma_step_items_keeps(s6, "anyOf"@, any_of, "anyOf"@);
    if one_of.is_none() {
        lemma_step_one_of_keeps(s7, one_of, "anyOf"@);
    }
    lemma_step_values_keeps(s0, "$defs"@, defs, "$defs"@);
    lemma_step_values_keeps(s1, "definitions"@, definitions, "$defs"@);
    lemma_step_type_keeps(s2, "$defs"@);
    lemma_step_required_keeps(s3, "$defs"@);
    lemma_step_values_keeps(s4, "properties"@, properties, "$defs"@);
    lemma_step_node_keeps(s5, "items"@, items, "$defs"@);
    lemma_step_items_keeps(s6, "anyOf"@, any_of, "$defs"@);
    lemma_step_one_of_keeps(s7, one_of, "$defs"@);
    if let Some(Ok(o8)) = s8 {
        if one_of.is_some() && members_get(members, "anyOf"@).is_none() {
            assert(s7 == s6);
            let o7 = s7->0->Ok_0;
            let removed = obj_remove(o7, "oneOf"@);
            lemma_remove_get(o7, "oneOf"@, "anyOf"@);
            assert(members_get(removed, "anyOf"@).is_none());
            let with_any = obj_insert(removed, "anyOf"@, Json::Array(Seq::empty()));
            lemma_insert_get(removed, "anyOf"@, Json::Array(Seq::empty()), "anyOf"@);
            let ws = one_of->0->0->Ok_0;
            lemma_insert_get(with_any, "anyOf"@, Json::Array(Seq::<Json>::empty() + ws), "anyOf"@);
            assert(Seq::<Json>::empty() + ws =~= ws);
        }
        let without = obj_remove(o8, "allOf"@);
        lemma_remove_get(o8, "allOf"@, "$ref"@);
        lemma_remove_get(o8, "allOf"@, "anyOf"@);
        lemma_remove_get(o8, "allOf"@, "$defs"@);
        lemma_remove_get(without, "default"@, "$ref"@);
        lemma_remove_get(without, "default"@, "anyOf"@);
        lemma_remove_get(without, "default"@, "$defs"@);
        assert(strict_object(members, root, fuel) == after_all_of(without, root, fuel));
    }
}

} // verus!
