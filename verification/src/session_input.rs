//! Preparing a turn's input from a session's history, and telling which of the
//! items a session input callback returns are new input to persist.
//!
//! An item handed to the callback carries an identity (where its text, array
//! or first object key is stored), by which an item the callback returns is
//! recognized as that same value; the caller works identities out and passes
//! them along with the items.
use vstd::prelude::*;

use crate::errors::{AgentsError, UserError};
use crate::items::{copy_input_items, inputs_view, run_as_input, runs_view, InputItem, InputView, ItemHelpers, RunItem, RunView};
use crate::json::{Json, JsonValue};

verus! {

/// Where an item's value is stored, for the items that have such a place.
#[derive(Clone, Copy, Debug, PartialEq, Eq, Structural)]
pub enum InputItemIdentity {
    Text(usize),
    JsonString(usize),
    JsonArray(usize),
    JsonObject { first_key: usize, len: usize },
}

/// `s` without its first `x`, if it holds one.
pub open spec fn remove_first<T>(s: Seq<T>, x: T) -> Seq<T>
    decreases s.len(),
{
    if s.len() == 0 {
        s
    } else if s[0] == x {
        s.subrange(1, s.len() as int)
    } else {
        seq![s[0]] + remove_first(s.subrange(1, s.len() as int), x)
    }
}

/// Whether an item that matches both sides by value alone is taken as new
/// input first: null, booleans, numbers and empty objects.
pub open spec fn prefers_new(x: InputView) -> bool {
    match x {
        InputView::Json(Json::Null) | InputView::Json(Json::Bool(_)) | InputView::Json(Json::Number(_)) => true,
        InputView::Json(Json::Object(m)) => m.len() == 0,
        _ => false,
    }
}

/// What is left to match while the callback's items are read: the identities
/// and the values of the new items and of the history.
pub struct MatchState {
    pub new_refs: Seq<(InputView, InputItemIdentity)>,
    pub history_refs: Seq<(InputView, InputItemIdentity)>,
    pub new_counts: Seq<InputView>,
    pub history_counts: Seq<InputView>,
}

/// The identities of a list of items, paired with the items.
pub open spec fn refs_of(items: Seq<InputView>, ids: Seq<Option<InputItemIdentity>>) -> Seq<
    (InputView, InputItemIdentity),
>
    decreases items.len(),
{
    if items.len() == 0 || ids.len() == 0 {
        Seq::empty()
    } else {
        let prev = refs_of(items.drop_last(), ids.drop_last());
        match ids.last() {
            Some(id) => prev.push((items.last(), id)),
            None => prev,
        }
    }
}

/// Reads one item the callback returned: whether it is new input, and what is
/// left to match.  An item with the identity of a new item is new; one with
/// the identity of a history item is not; else it matches by value, new items
/// first for null, booleans, numbers and empty objects and history first for
/// the rest; an item that matches nothing is new.
pub open spec fn match_step(st: MatchState, x: InputView, id: Option<InputItemIdentity>) -> (MatchState, bool) {
    let on_new = id matches Some(i) && st.new_refs.contains((x, i));
    let on_history = id matches Some(i) && st.history_refs.contains((x, i));
    if on_new {
        (MatchState {
            new_refs: remove_first(st.new_refs, (x, id.unwrap())),
            new_counts: remove_first(st.new_counts, x),
            ..st
        }, true)
    } else if on_history {
        (MatchState {
            history_refs: remove_first(st.history_refs, (x, id.unwrap())),
            history_counts: remove_first(st.history_counts, x),
            ..st
        }, false)
    } else if prefers_new(x) && st.new_counts.contains(x) {
        (MatchState { new_counts: remove_first(st.new_counts, x), ..st }, true)
    } else if st.history_counts.contains(x) {
        (MatchState { history_counts: remove_first(st.history_counts, x), ..st }, false)
    } else if st.new_counts.contains(x) {
        (MatchState { new_counts: remove_first(st.new_counts, x), ..st }, true)
    } else {
        (st, true)
    }
}

/// Reads the first `n` items the callback returned: what is left to match, and
/// the items found to be new input, in order.
pub open spec fn match_prefix(
    start: MatchState,
    combined: Seq<InputView>,
    ids: Seq<Option<InputItemIdentity>>,
    n: int,
) -> (MatchState, Seq<InputView>)
    decreases n,
{
    if n <= 0 {
        (start, Seq::empty())
    } else {
        let (st, picked) = match_prefix(start, combined, ids, n - 1);
        let (next, is_new) = match_step(st, combined[n - 1], ids[n - 1]);
        (next, if is_new {
            picked.push(combined[n - 1])
        } else {
            picked
        })
    }
}

/// The items of `combined` that are new input to persist.
pub open spec fn session_input_selection(
    history: Seq<InputView>,
    history_ids: Seq<Option<InputItemIdentity>>,
    new_items: Seq<InputView>,
    new_ids: Seq<Option<InputItemIdentity>>,
    combined: Seq<InputView>,
    combined_ids: Seq<Option<InputItemIdentity>>,
) -> Seq<InputView> {
    let start = MatchState {
        new_refs: refs_of(new_items, new_ids),
        history_refs: refs_of(history, history_ids),
        new_counts: new_items,
        history_counts: history,
    };
    match_prefix(start, combined, combined_ids, combined.len() as int).1
}

/// Without its first `x`, a list is the part before that `x` and the part after.
proof fn lemma_remove_first_at<T>(s: Seq<T>, x: T, i: int)
    requires
        0 <= i < s.len(),
        s[i] == x,
        forall|j: int| 0 <= j < i ==> s[j] != x,
    ensures
        remove_first(s, x) == s.subrange(0, i) + s.subrange(i + 1, s.len() as int),
    decreases i,
{
    if i == 0 {
        assert(s.subrange(0, 0) + s.subrange(1, s.len() as int) =~= s.subrange(1, s.len() as int));
    } else {
        let t = s.subrange(1, s.len() as int);
        assert forall|j: int| 0 <= j < i - 1 implies t[j] != x by {
            assert(t[j] == s[j + 1]);
        }
        lemma_remove_first_at(t, x, i - 1);
        assert(seq![s[0]] + (t.subrange(0, i - 1) + t.subrange(i, t.len() as int)) =~= s.subrange(0, i)
            + s.subrange(i + 1, s.len() as int));
    }
}

/// A list without `x` is unchanged by removing `x`.
proof fn lemma_remove_first_absent<T>(s: Seq<T>, x: T)
    requires
        !s.contains(x),
    ensures
        remove_first(s, x) == s,
    decreases s.len(),
{
    if s.len() > 0 {
        let t = s.subrange(1, s.len() as int);
        assert(!t.contains(x)) by {
            if t.contains(x) {
                let j = choose|j: int| 0 <= j < t.len() && t[j] == x;
                assert(s[j + 1] == x);
            }
        }
        lemma_remove_first_absent(t, x);
        assert(seq![s[0]] + t =~= s);
    }
}

/// The item and identity of each reference.
pub open spec fn refs_view(v: Seq<(InputItem, InputItemIdentity)>) -> Seq<(InputView, InputItemIdentity)> {
    v.map_values(|p: (InputItem, InputItemIdentity)| (p.0@, p.1))
}

/// The items and identities still to be matched, as the matching holds them.
struct MatchTables {
    new_refs: Vec<(InputItem, InputItemIdentity)>,
    history_refs: Vec<(InputItem, InputItemIdentity)>,
    new_counts: Vec<InputItem>,
    history_counts: Vec<InputItem>,
}

impl MatchTables {
    /// What is left to match.
    spec fn state(&self) -> MatchState {
        MatchState {
            new_refs: refs_view(self.new_refs@),
            history_refs: refs_view(self.history_refs@),
            new_counts: inputs_view(self.new_counts@),
            history_counts: inputs_view(self.history_counts@),
        }
    }
}

/// Removes the first reference to `item` with identity `id`; says whether there was one.
fn take_ref(refs: &mut Vec<(InputItem, InputItemIdentity)>, item: &InputItem, id: InputItemIdentity) -> (found: bool)
    ensures
        found == refs_view(old(refs)@).contains((item@, id)),
        refs_view(final(refs)@) == remove_first(refs_view(old(refs)@), (item@, id)),
{
    let ghost s = refs_view(refs@);
    let mut i: usize = 0;
    while i < refs.len()
        invariant
            i <= refs@.len(),
            s == refs_view(refs@),
            refs@ == old(refs)@,
            forall|j: int| 0 <= j < i ==> s[j] != (item@, id),
        decreases refs@.len() - i,
    {
        if refs[i].1 == id && refs[i].0.same_as(item) {
            assert(s[i as int] == (item@, id));
            assert(s.contains((item@, id)));
            proof {
                lemma_remove_first_at(s, (item@, id), i as int);
            }
            refs.remove(i);
            assert(refs_view(refs@) =~= s.subrange(0, i as int) + s.subrange(i + 1, s.len() as int));
            return true;
        }
        assert(s[i as int] != (item@, id));
        i = i + 1;
    }
    proof {
        assert(!s.contains((item@, id))) by {
            if s.contains((item@, id)) {
                let j = choose|j: int| 0 <= j < s.len() && s[j] == (item@, id);
                assert(s[j] != (item@, id));
            }
        }
        lemma_remove_first_absent(s, (item@, id));
    }
    false
}

/// Whether a reference to `item` with identity `id` is left.
fn has_ref(refs: &Vec<(InputItem, InputItemIdentity)>, item: &InputItem, id: InputItemIdentity) -> (found: bool)
    ensures
        found == refs_view(refs@).contains((item@, id)),
{
    let ghost s = refs_view(refs@);
    let mut i: usize = 0;
    while i < refs.len()
        invariant
            i <= refs@.len(),
            s == refs_view(refs@),
            forall|j: int| 0 <= j < i ==> s[j] != (item@, id),
        decreases refs@.len() - i,
    {
        if refs[i].1 == id && refs[i].0.same_as(item) {
            assert(s[i as int] == (item@, id));
            return true;
        }
        assert(s[i as int] != (item@, id));
        i = i + 1;
    }
    assert(!s.contains((item@, id))) by {
        if s.contains((item@, id)) {
            let j = choose|j: int| 0 <= j < s.len() && s[j] == (item@, id);
            assert(s[j] != (item@, id));
        }
    }
    false
}

/// Whether a value equal to `item` is left.
fn has_value(counts: &Vec<InputItem>, item: &InputItem) -> (found: bool)
    ensures
        found == inputs_view(counts@).contains(item@),
{
    let ghost s = inputs_view(counts@);
    let mut i: usize = 0;
    while i < counts.len()
        invariant
            i <= counts@.len(),
            s == inputs_view(counts@),
            forall|j: int| 0 <= j < i ==> s[j] != item@,
        decreases counts@.len() - i,
    {
        if counts[i].same_as(item) {
            assert(s[i as int] == item@);
            return true;
        }
        assert(s[i as int] != item@);
        i = i + 1;
    }
    assert(!s.contains(item@)) by {
        if s.contains(item@) {
            let j = choose|j: int| 0 <= j < s.len() && s[j] == item@;
            assert(s[j] != item@);
        }
    }
    false
}

/// Removes the first value equal to `item`, if there is one.
fn take_value(counts: &mut Vec<InputItem>, item: &InputItem)
    ensures
        inputs_view(final(counts)@) == remove_first(inputs_view(old(counts)@), item@),
{
    let ghost s = inputs_view(counts@);
    let mut i: usize = 0;
    while i < counts.len()
        invariant
            i <= counts@.len(),
            s == inputs_view(counts@),
            counts@ == old(counts)@,
            forall|j: int| 0 <= j < i ==> s[j] != item@,
        decreases counts@.len() - i,
    {
        if counts[i].same_as(item) {
            assert(s[i as int] == item@);
            proof {
                lemma_remove_first_at(s, item@, i as int);
            }
            counts.remove(i);
            assert(inputs_view(counts@) =~= s.subrange(0, i as int) + s.subrange(i + 1, s.len() as int));
            return;
        }
        assert(s[i as int] != item@);
        i = i + 1;
    }
    proof {
        assert(!s.contains(item@)) by {
            if s.contains(item@) {
                let j = choose|j: int| 0 <= j < s.len() && s[j] == item@;
                assert(s[j] != item@);
            }
        }
        lemma_remove_first_absent(s, item@);
    }
}

/// Whether null, booleans, numbers and empty objects are matched to new items first.
fn prefers_new_frequency_match(item: &InputItem) -> (res: bool)
    ensures
        res == prefers_new(item@),
{
    match item {
        InputItem::Json { value } => match value {
            JsonValue::Null | JsonValue::Bool(_) | JsonValue::Number(_) => true,
            JsonValue::Object(members) => members.len() == 0,
            _ => false,
        },
        InputItem::Text { .. } => false,
    }
}

/// Reads one item the callback returned; says whether it is new input.
fn match_one(t: &mut MatchTables, item: &InputItem, id: Option<InputItemIdentity>) -> (is_new: bool)
    ensures
        (final(t).state(), is_new) == match_step(old(t).state(), item@, id),
{
    let on_new = match id {
        Some(i) => has_ref(&t.new_refs, item, i),
        None => false,
    };
    if on_new {
        let i = id.unwrap();
        take_ref(&mut t.new_refs, item, i);
        take_value(&mut t.new_counts, item);
        return true;
    }
    let on_history = match id {
        Some(i) => has_ref(&t.history_refs, item, i),
        None => false,
    };
    if on_history {
        let i = id.unwrap();
        take_ref(&mut t.history_refs, item, i);
        take_value(&mut t.history_counts, item);
        return false;
    }
    if prefers_new_frequency_match(item) && has_value(&t.new_counts, item) {
        take_value(&mut t.new_counts, item);
        return true;
    }
    if has_value(&t.history_counts, item) {
        take_value(&mut t.history_counts, item);
        return false;
    }
    if has_value(&t.new_counts, item) {
        take_value(&mut t.new_counts, item);
        return true;
    }
    true
}

/// The identities of a list of items, paired with copies of the items.
fn build_reference_map(items: &[InputItem], ids: &[Option<InputItemIdentity>]) -> (res: Vec<
    (InputItem, InputItemIdentity),
>)
    requires
        items@.len() == ids@.len(),
    ensures
        refs_view(res@) == refs_of(inputs_view(items@), ids@),
{
    let mut out: Vec<(InputItem, InputItemIdentity)> = Vec::new();
    let mut i: usize = 0;
    while i < items.len()
        invariant
            i <= items@.len(),
            items@.len() == ids@.len(),
            refs_view(out@) == refs_of(inputs_view(items@.subrange(0, i as int)), ids@.subrange(0, i as int)),
        decreases items@.len() - i,
    {
        let ghost before = out@;
        let ghost xs = inputs_view(items@.subrange(0, i + 1));
        let ghost is = ids@.subrange(0, i + 1);
        assert(xs.drop_last() =~= inputs_view(items@.subrange(0, i as int)));
        assert(is.drop_last() =~= ids@.subrange(0, i as int));
        assert(xs.last() == items@[i as int]@);
        assert(is.last() == ids@[i as int]);
        match ids[i] {
            Some(id) => {
                out.push((items[i].copy(), id));
                assert(refs_view(out@) =~= refs_view(before).push((items@[i as int]@, id)));
            },
            None => {},
        }
        i = i + 1;
    }
    assert(items@.subrange(0, items@.len() as int) =~= items@);
    assert(ids@.subrange(0, ids@.len() as int) =~= ids@);
    out
}

/// The items a session input callback returned that are new input to persist:
/// items recognized by identity as new items, then by value, and items that
/// match nothing.  `history_ids`, `new_ids` and `combined_ids` give the
/// identity of each item of `history`, `new_items` and `combined`.
pub fn select_session_input_items(
    history: &[InputItem],
    history_ids: &[Option<InputItemIdentity>],
    new_items: &[InputItem],
    new_ids: &[Option<InputItemIdentity>],
    combined: &[InputItem],
    combined_ids: &[Option<InputItemIdentity>],
) -> (res: Vec<InputItem>)
    requires
        history@.len() == history_ids@.len(),
        new_items@.len() == new_ids@.len(),
        combined@.len() == combined_ids@.len(),
    ensures
        inputs_view(res@) == session_input_selection(
            inputs_view(history@),
            history_ids@,
            inputs_view(new_items@),
            new_ids@,
            inputs_view(combined@),
            combined_ids@,
        ),
{
    let mut tables = MatchTables {
        new_refs: build_reference_map(new_items, new_ids),
        history_refs: build_reference_map(history, history_ids),
        new_counts: copy_input_items(new_items),
        history_counts: copy_input_items(history),
    };
    let ghost start = tables.state();
    let ghost cv = inputs_view(combined@);
    let mut picked: Vec<InputItem> = Vec::new();
    let mut i: usize = 0;
    while i < combined.len()
        invariant
            i <= combined@.len(),
            combined@.len() == combined_ids@.len(),
            cv == inputs_view(combined@),
            (tables.state(), inputs_view(picked@)) == match_prefix(start, cv, combined_ids@, i as int),
        decreases combined@.len() - i,
    {
        let ghost before = picked@;
        assert(cv[i as int] == combined@[i as int]@);
        let is_new = match_one(&mut tables, &combined[i], combined_ids[i]);
        if is_new {
            picked.push(combined[i].copy());
            assert(inputs_view(picked@) =~= inputs_view(before).push(cv[i as int]));
        }
        i = i + 1;
    }
    picked
}

/// The input of a session-backed turn, the caller's input, and the items to
/// persist as new input.  Without a callback result the history is followed
/// by the caller's input, which is what is persisted; with one, the callback's
/// items are the input and `selected` what is persisted.  An empty input
/// falls back to the caller's input.
pub fn combine_session_input(
    history: &[InputItem],
    original_input: &[InputItem],
    callback_result: Option<(Vec<InputItem>, Vec<InputItem>)>,
) -> (res: (Vec<InputItem>, Vec<InputItem>, Vec<InputItem>))
    ensures
        inputs_view(res.1@) == inputs_view(original_input@),
        ({
            let (prepared, persisted) = match callback_result {
                Some((combined, selected)) => (inputs_view(combined@), inputs_view(selected@)),
                None => (inputs_view(history@) + inputs_view(original_input@), inputs_view(original_input@)),
            };
            if prepared.len() == 0 {
                inputs_view(res.0@) == inputs_view(original_input@) && inputs_view(res.2@) == inputs_view(
                    original_input@,
                )
            } else {
                inputs_view(res.0@) == prepared && inputs_view(res.2@) == persisted
            }
        }),
{
    let (mut prepared, mut session_items) = match callback_result {
        Some((combined, selected)) => (combined, selected),
        None => {
            let mut p = copy_input_items(history);
            let extra = copy_input_items(original_input);
            let mut i: usize = 0;
            let ghost base = inputs_view(p@);
            while i < extra.len()
                invariant
                    i <= extra@.len(),
                    inputs_view(p@) == base + inputs_view(extra@).subrange(0, i as int),
                decreases extra@.len() - i,
            {
                let ghost b = p@;
                p.push(extra[i].copy());
                assert(inputs_view(p@) =~= inputs_view(b).push(extra@[i as int]@));
                assert(inputs_view(extra@).subrange(0, i + 1) =~= inputs_view(extra@).subrange(0, i as int).push(
                    extra@[i as int]@,
                ));
                i = i + 1;
            }
            assert(inputs_view(extra@).subrange(0, extra@.len() as int) =~= inputs_view(extra@));
            (p, copy_input_items(original_input))
        },
    };
    if prepared.len() == 0 {
        prepared = copy_input_items(original_input);
        session_items = copy_input_items(original_input);
    }
    (prepared, copy_input_items(original_input), session_items)
}

/// Refuses session persistence in a run that also continues a conversation
/// kept by the server, unless the session itself tracks that conversation.
pub fn validate_session_conversation_settings(
    session_tracks_conversation: bool,
    conversation_id: &Option<String>,
    previous_response_id: &Option<String>,
    auto_previous_response_id: bool,
) -> (res: Result<(), AgentsError>)
    ensures
        res is Ok <==> (session_tracks_conversation || (conversation_id.is_none() && previous_response_id.is_none()
            && !auto_previous_response_id)),
        res matches Err(e) ==> (e matches AgentsError::User(u) && u.message@
            == "Session persistence cannot be combined with conversation_id, previous_response_id, or auto_previous_response_id."@),
{
    if session_tracks_conversation {
        return Ok(());
    }
    if conversation_id.is_none() && previous_response_id.is_none() && !auto_previous_response_id {
        return Ok(());
    }
    Err(
        AgentsError::User(
            UserError {
                message: String::from_str(
                    "Session persistence cannot be combined with conversation_id, previous_response_id, or auto_previous_response_id.",
                ),
            },
        ),
    )
}

/// The items a finished turn adds to its session: the caller's input, then
/// the generated items as they are replayed.
pub fn session_items_for_result(original_input: &[InputItem], new_items: &[RunItem]) -> (res: Vec<InputItem>)
    ensures
        inputs_view(res@) == inputs_view(original_input@) + runs_view(new_items@).map_values(
            |r: RunView| run_as_input(r),
        ),
{
    let mut items = copy_input_items(original_input);
    let mut generated = ItemHelpers::to_input_items(new_items);
    let ghost a = items@;
    let ghost b = generated@;
    items.append(&mut generated);
    assert(inputs_view(items@) =~= inputs_view(a) + inputs_view(b));
    items
}

/// With no history left to match, every item read is new input.
proof fn lemma_match_prefix_without_history(
    start: MatchState,
    combined: Seq<InputView>,
    ids: Seq<Option<InputItemIdentity>>,
    n: int,
)
    requires
        start.history_refs.len() == 0,
        start.history_counts.len() == 0,
        0 <= n <= combined.len(),
    ensures
        match_prefix(start, combined, ids, n).0.history_refs.len() == 0,
        match_prefix(start, combined, ids, n).0.history_counts.len() == 0,
        match_prefix(start, combined, ids, n).1 == combined.subrange(0, n),
    decreases n,
{
    if n > 0 {
        lemma_match_prefix_without_history(start, combined, ids, n - 1);
        assert(combined.subrange(0, n) =~= combined.subrange(0, n - 1).push(combined[n - 1]));
    } else {
        assert(combined.subrange(0, 0) =~= Seq::<InputView>::empty());
    }
}

/// A session without history persists every item the callback returned: no
/// item can match the history, so all of them are new input, in order.
pub proof fn law_empty_history_persists_everything(
    new_items: Seq<InputView>,
    new_ids: Seq<Option<InputItemIdentity>>,
    combined: Seq<InputView>,
    combined_ids: Seq<Option<InputItemIdentity>>,
)
    ensures
        session_input_selection(Seq::empty(), Seq::empty(), new_items, new_ids, combined, combined_ids) == combined,
{
    let start = MatchState {
        new_refs: refs_of(new_items, new_ids),
        history_refs: refs_of(Seq::empty(), Seq::empty()),
        new_counts: new_items,
        history_counts: Seq::empty(),
    };
    lemma_match_prefix_without_history(start, combined, combined_ids, combined.len() as int);
    assert(combined.subrange(0, combined.len() as int) =~= combined);
}

} // verus!
