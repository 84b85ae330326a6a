//! Tracking of what has been sent to a server-managed conversation, so that a
//! retried or continued turn only sends what the server does not have yet.
//!
//! An item's fingerprint is its serialized form; two items have the same
//! fingerprint exactly when they are the same item, so items stand for their
//! fingerprints here.  The per-fingerprint queues of source items are kept as
//! one list of (prepared item, source item) pairs in registration order: the
//! queue of a fingerprint is its pairs, oldest first.
use vstd::prelude::*;

use crate::items::{
    inputs_view, output_as_input, outputs_view, run_as_input, runs_view, InputItem, InputView,
    OutputItem, OutputView, RunItem, RunView,
};
use crate::json::{get_str, json_get, json_str_member, Json, JsonValue};
use crate::text::{copy_opt_string, opt_view, str_eq};

verus! {

/// Conversation settings persisted by a session.
pub struct OpenAIConversationSessionState {
    pub conversation_id: Option<String>,
    pub previous_response_id: Option<String>,
    pub auto_previous_response_id: bool,
}

/// A model response: the model that answered, its output, the tokens it
/// used, and the ids the provider gave it.
pub struct ModelResponse {
    pub model: Option<String>,
    pub output: Vec<OutputItem>,
    pub usage: crate::usage::Usage,
    pub response_id: Option<String>,
    pub request_id: Option<String>,
}

impl ModelResponse {
    /// The input items the response output is replayed as.
    pub fn to_input_items(&self) -> (res: Vec<InputItem>)
        ensures
            inputs_view(res@) == response_inputs(outputs_view(self.output@)),
    {
        let mut out: Vec<InputItem> = Vec::new();
        let mut i: usize = 0;
        while i < self.output.len()
            invariant
                i <= self.output@.len(),
                inputs_view(out@) =~= response_inputs(
                    outputs_view(self.output@).subrange(0, i as int),
                ),
            decreases self.output@.len() - i,
        {
            let ghost prev = out@;
            let x = self.output[i].to_input_item();
            out.push(x);
            proof {
                assert(inputs_view(out@) =~= inputs_view(prev).push(x@));
                let p = outputs_view(self.output@).subrange(0, i + 1);
                assert(p.drop_last() =~= outputs_view(self.output@).subrange(0, i as int));
            }
            i = i + 1;
        }
        assert(outputs_view(self.output@).subrange(0, self.output@.len() as int) =~= outputs_view(
            self.output@,
        ));
        out
    }
}

/// The input items a response output is replayed as.
pub open spec fn response_inputs(out: Seq<OutputView>) -> Seq<InputView>
    decreases out.len(),
{
    if out.len() == 0 {
        Seq::empty()
    } else {
        response_inputs(out.drop_last()).push(output_as_input(out.last()))
    }
}

/// What the tracker knows.
pub struct TrackerView {
    pub conversation_id: Option<Seq<char>>,
    pub previous_response_id: Option<Seq<char>>,
    pub auto_previous_response_id: bool,
    pub sent_initial_input: bool,
    pub remaining_initial_input: Option<Seq<InputView>>,
    pub sent: Seq<InputView>,
    pub server_item_ids: Seq<Seq<char>>,
    pub server_tool_call_ids: Seq<Seq<char>>,
    pub sources: Seq<(InputView, InputView)>,
}

/// `s` with `x` added unless it is already there.
pub open spec fn set_insert<A>(s: Seq<A>, x: A) -> Seq<A> {
    if s.contains(x) {
        s
    } else {
        s.push(x)
    }
}

/// `s` without any occurrence of `x`.
pub open spec fn set_remove<A>(s: Seq<A>, x: A) -> Seq<A>
    decreases s.len(),
{
    if s.len() == 0 {
        s
    } else if s.last() == x {
        set_remove(s.drop_last(), x)
    } else {
        set_remove(s.drop_last(), x).push(s.last())
    }
}

/// Index of the first pair registered for fingerprint `f`, or -1.
pub open spec fn first_pair_index(pairs: Seq<(InputView, InputView)>, f: InputView) -> int
    decreases pairs.len(),
{
    if pairs.len() == 0 {
        -1
    } else {
        let p = first_pair_index(pairs.drop_last(), f);
        if p >= 0 {
            p
        } else if pairs.last().0 == f {
            pairs.len() - 1
        } else {
            -1
        }
    }
}

/// Index of the first occurrence of `x`, or -1.
pub open spec fn first_index_of(s: Seq<InputView>, x: InputView) -> int
    decreases s.len(),
{
    if s.len() == 0 {
        -1
    } else {
        let p = first_index_of(s.drop_last(), x);
        if p >= 0 {
            p
        } else if s.last() == x {
            s.len() - 1
        } else {
            -1
        }
    }
}

/// The source recorded for an item: the oldest one registered under its
/// fingerprint, or the item itself.
pub open spec fn resolve_source(t: TrackerView, item: InputView) -> InputView {
    let i = first_pair_index(t.sources, item);
    if i >= 0 {
        t.sources[i].1
    } else {
        item
    }
}

/// Takes the oldest source registered for an item.
pub open spec fn consume_source(t: TrackerView, item: InputView) -> (TrackerView, InputView) {
    let i = first_pair_index(t.sources, item);
    if i >= 0 {
        (TrackerView { sources: t.sources.remove(i), ..t }, t.sources[i].1)
    } else {
        (t, item)
    }
}

/// Registers an item as its own source.
pub open spec fn register_self(t: TrackerView, item: InputView) -> TrackerView {
    TrackerView { sources: t.sources.push((item, item)), ..t }
}

/// The pairs registering each item as its own source.
pub open spec fn self_pairs(items: Seq<InputView>) -> Seq<(InputView, InputView)> {
    items.map_values(|x: InputView| (x, x))
}

/// The server item id of an item.
pub open spec fn item_id(x: InputView) -> Option<Seq<char>> {
    match x {
        InputView::Json(v) => json_str_member(v, "id"@),
        InputView::Text(_) => None,
    }
}

/// The call id of an item that carries a tool output.
pub open spec fn output_call_id(x: InputView) -> Option<Seq<char>> {
    match x {
        InputView::Json(v) => if json_get(v, "output"@).is_some() {
            json_str_member(v, "call_id"@)
        } else {
            None
        },
        InputView::Text(_) => None,
    }
}

/// Whether a generated item still has to be sent: the server has not produced it
/// and it has not been sent before.
pub open spec fn needs_sending(t: TrackerView, x: InputView) -> bool {
    &&& !(match item_id(x) {
        Some(id) => t.server_item_ids.contains(id),
        None => false,
    })
    &&& !(match output_call_id(x) {
        Some(id) => t.server_tool_call_ids.contains(id),
        None => false,
    })
    &&& !t.sent.contains(x)
}

/// The generated items to send, with each one registered as its own source.
pub open spec fn prepare_generated(t: TrackerView, gs: Seq<RunView>) -> (TrackerView, Seq<InputView>)
    decreases gs.len(),
{
    if gs.len() == 0 {
        (t, Seq::empty())
    } else {
        let (t1, out) = prepare_generated(t, gs.drop_last());
        let x = run_as_input(gs.last());
        if needs_sending(t1, x) {
            (register_self(t1, x), out.push(x))
        } else {
            (t1, out)
        }
    }
}

/// The initial input to send: all of it the first time, afterwards what is left of it.
pub open spec fn prepare_initial(t: TrackerView, original: Seq<InputView>) -> (TrackerView, Seq<
    InputView,
>) {
    if !t.sent_initial_input {
        (
            TrackerView {
                sources: t.sources + self_pairs(original),
                remaining_initial_input: if original.len() > 0 {
                    Some(original)
                } else {
                    None
                },
                sent_initial_input: true,
                ..t
            },
            original,
        )
    } else {
        match t.remaining_initial_input {
            Some(rem) => (TrackerView { sources: t.sources + self_pairs(rem), ..t }, rem),
            None => (t, Seq::empty()),
        }
    }
}

/// The input to send for a turn, and the tracker afterwards.
pub open spec fn prepare_input_spec(t: TrackerView, original: Seq<InputView>, gs: Seq<RunView>) -> (
    TrackerView,
    Seq<InputView>,
) {
    let (t1, p1) = prepare_initial(t, original);
    let (t2, p2) = prepare_generated(t1, gs);
    (t2, p1 + p2)
}

/// Drops the first occurrence of an item from the remaining initial input.
pub open spec fn remove_remaining(t: TrackerView, x: InputView) -> TrackerView {
    match t.remaining_initial_input {
        None => t,
        Some(rem) => {
            let i = first_index_of(rem, x);
            let rem2 = if i >= 0 {
                rem.remove(i)
            } else {
                rem
            };
            TrackerView {
                remaining_initial_input: if rem2.len() == 0 {
                    None
                } else {
                    Some(rem2)
                },
                ..t
            }
        },
    }
}

/// The tracker after the given items were sent.
pub open spec fn mark_spec(t: TrackerView, items: Seq<InputView>) -> TrackerView
    decreases items.len(),
{
    if items.len() == 0 {
        t
    } else {
        let t1 = mark_spec(t, items.drop_last());
        let (t2, src) = consume_source(t1, items.last());
        remove_remaining(TrackerView { sent: set_insert(t2.sent, src), ..t2 }, src)
    }
}

/// The tracker after the given items were taken back, and their sources in order.
pub open spec fn rewind_fold(t: TrackerView, items: Seq<InputView>) -> (TrackerView, Seq<InputView>)
    decreases items.len(),
{
    if items.len() == 0 {
        (t, Seq::empty())
    } else {
        let (t1, srcs) = rewind_fold(t, items.drop_last());
        let (t2, src) = consume_source(t1, items.last());
        (TrackerView { sent: set_remove(t2.sent, src), ..t2 }, srcs.push(src))
    }
}

/// The tracker after the given items were taken back: they are no longer sent,
/// and their sources go back to the front of the remaining initial input.
pub open spec fn rewind_spec(t: TrackerView, items: Seq<InputView>) -> TrackerView {
    let (t1, srcs) = rewind_fold(t, items);
    if srcs.len() == 0 {
        t1
    } else {
        TrackerView {
            remaining_initial_input: Some(
                srcs + match t1.remaining_initial_input {
                    Some(r) => r,
                    None => Seq::empty(),
                },
            ),
            ..t1
        }
    }
}

/// Records one server output item.
pub open spec fn track_one(t: TrackerView, x: InputView) -> TrackerView {
    TrackerView {
        server_item_ids: match item_id(x) {
            Some(id) => set_insert(t.server_item_ids, id),
            None => t.server_item_ids,
        },
        server_tool_call_ids: match output_call_id(x) {
            Some(id) => set_insert(t.server_tool_call_ids, id),
            None => t.server_tool_call_ids,
        },
        sent: set_insert(t.sent, x),
        ..t
    }
}

/// Records server output items.
pub open spec fn track_all(t: TrackerView, xs: Seq<InputView>) -> TrackerView
    decreases xs.len(),
{
    if xs.len() == 0 {
        t
    } else {
        track_one(track_all(t, xs.drop_last()), xs.last())
    }
}

/// The items of `s` that do not occur in `drop`.
pub open spec fn without_all(s: Seq<InputView>, drop: Seq<InputView>) -> Seq<InputView>
    decreases s.len(),
{
    if s.len() == 0 {
        s
    } else if drop.contains(s.last()) {
        without_all(s.drop_last(), drop)
    } else {
        without_all(s.drop_last(), drop).push(s.last())
    }
}

/// The tracker after a response: the server's items count as sent, and leave the
/// remaining initial input.
pub open spec fn track_server_items_spec(t: TrackerView, out: Seq<OutputView>) -> TrackerView {
    let xs = response_inputs(out);
    let t1 = track_all(t, xs);
    match t1.remaining_initial_input {
        None => t1,
        Some(rem) => {
            let f = without_all(rem, xs);
            TrackerView {
                remaining_initial_input: if f.len() == 0 {
                    None
                } else {
                    Some(f)
                },
                ..t1
            }
        },
    }
}

/// Available (fingerprint, source) pairs for filtered input.
pub open spec fn available_pairs(t: TrackerView, prepared: Seq<InputView>) -> Seq<
    (InputView, InputView),
> {
    prepared.map_values(|x: InputView| (x, resolve_source(t, x)))
}

/// Matches filtered items to the prepared items they came from, in order.
pub open spec fn filtered_fold(
    t: TrackerView,
    avail: Seq<(InputView, InputView)>,
    filtered: Seq<InputView>,
) -> TrackerView
    decreases filtered.len(),
{
    if filtered.len() == 0 || avail.len() == 0 {
        t
    } else {
        let x = filtered[0];
        let found = first_pair_index(avail, x);
        let idx = if found >= 0 {
            found
        } else {
            0
        };
        let t1 = TrackerView { sources: t.sources.push((x, avail[idx].1)), ..t };
        filtered_fold(t1, avail.remove(idx), filtered.subrange(1, filtered.len() as int))
    }
}

/// The tracker after filtered input replaced the prepared input: each filtered
/// item gets the source of the prepared item with the same fingerprint, or of the
/// first one left.
pub open spec fn register_filtered_spec(
    t: TrackerView,
    prepared: Seq<InputView>,
    filtered: Seq<InputView>,
) -> TrackerView {
    if prepared == filtered {
        t
    } else {
        filtered_fold(t, available_pairs(t, prepared), filtered)
    }
}

/// The pairs a vector of item pairs stands for.
pub open spec fn pairs_view(s: Seq<(InputItem, InputItem)>) -> Seq<(InputView, InputView)> {
    s.map_values(|p: (InputItem, InputItem)| (p.0@, p.1@))
}

/// The strings a vector of strings stands for.
pub open spec fn strs_view(s: Seq<String>) -> Seq<Seq<char>> {
    s.map_values(|x: String| x@)
}

/// Tracks sent items and server state for conversation-aware runs.
pub struct OpenAIServerConversationTracker {
    pub conversation_id: Option<String>,
    pub previous_response_id: Option<String>,
    pub auto_previous_response_id: bool,
    sent_initial_input: bool,
    remaining_initial_input: Option<Vec<InputItem>>,
    sent_item_fingerprints: Vec<InputItem>,
    server_item_ids: Vec<String>,
    server_tool_call_ids: Vec<String>,
    prepared_item_sources: Vec<(InputItem, InputItem)>,
}

impl View for OpenAIServerConversationTracker {
    type V = TrackerView;

    closed spec fn view(&self) -> TrackerView {
        TrackerView {
            conversation_id: opt_view(self.conversation_id),
            previous_response_id: opt_view(self.previous_response_id),
            auto_previous_response_id: self.auto_previous_response_id,
            sent_initial_input: self.sent_initial_input,
            remaining_initial_input: match self.remaining_initial_input {
                Some(v) => Some(inputs_view(v@)),
                None => None,
            },
            sent: inputs_view(self.sent_item_fingerprints@),
            server_item_ids: strs_view(self.server_item_ids@),
            server_tool_call_ids: strs_view(self.server_tool_call_ids@),
            sources: pairs_view(self.prepared_item_sources@),
        }
    }
}

/// `first_pair_index` finds the first matching pair.
proof fn lemma_first_pair_index(s: Seq<(InputView, InputView)>, f: InputView)
    ensures
        -1 <= first_pair_index(s, f) < s.len(),
        first_pair_index(s, f) == -1 ==> forall|k: int| 0 <= k < s.len() ==> (#[trigger] s[k]).0
            != f,
        first_pair_index(s, f) >= 0 ==> s[first_pair_index(s, f)].0 == f && forall|k: int|
            0 <= k < first_pair_index(s, f) ==> (#[trigger] s[k]).0 != f,
    decreases s.len(),
{
    if s.len() > 0 {
        lemma_first_pair_index(s.drop_last(), f);
        assert forall|k: int| 0 <= k < s.len() - 1 implies (#[trigger] s[k]) == s.drop_last()[k] by {
        }
    }
}

/// `first_index_of` finds the first occurrence.
proof fn lemma_first_index_of(s: Seq<InputView>, x: InputView)
    ensures
        -1 <= first_index_of(s, x) < s.len(),
        first_index_of(s, x) == -1 ==> forall|k: int| 0 <= k < s.len() ==> #[trigger] s[k] != x,
        first_index_of(s, x) >= 0 ==> s[first_index_of(s, x)] == x && forall|k: int|
            0 <= k < first_index_of(s, x) ==> #[trigger] s[k] != x,
    decreases s.len(),
{
    if s.len() > 0 {
        lemma_first_index_of(s.drop_last(), x);
        assert forall|k: int| 0 <= k < s.len() - 1 implies (#[trigger] s[k]) == s.drop_last()[k] by {
        }
    }
}

/// Finds the first pair registered for an item's fingerprint.
fn find_pair(pairs: &Vec<(InputItem, InputItem)>, item: &InputItem) -> (res: Option<usize>)
    ensures
        match res {
            Some(i) => i as int == first_pair_index(pairs_view(pairs@), item@) && i < pairs@.len(),
            None => first_pair_index(pairs_view(pairs@), item@) == -1,
        },
{
    proof {
        lemma_first_pair_index(pairs_view(pairs@), item@);
    }
    let ghost pv = pairs_view(pairs@);
    let mut i: usize = 0;
    while i < pairs.len()
        invariant
            i <= pairs@.len(),
            pv == pairs_view(pairs@),
            pv.len() == pairs@.len(),
            forall|k: int| 0 <= k < i ==> (#[trigger] pv[k]).0 != item@,
            -1 <= first_pair_index(pv, item@) < pv.len(),
            first_pair_index(pv, item@) == -1 ==> forall|k: int| 0 <= k < pv.len() ==> (
            #[trigger] pv[k]).0 != item@,
            first_pair_index(pv, item@) >= 0 ==> pv[first_pair_index(pv, item@)].0 == item@
                && forall|k: int| 0 <= k < first_pair_index(pv, item@) ==> (#[trigger] pv[k]).0
                != item@,
        decreases pairs@.len() - i,
    {
        if pairs[i].0.same_as(item) {
            assert(pv[i as int].0 == item@);
            return Some(i);
        }
        assert(pv[i as int].0 != item@);
        i = i + 1;
    }
    None
}

/// Finds the first occurrence of an item.
fn find_item(items: &Vec<InputItem>, item: &InputItem) -> (res: Option<usize>)
    ensures
        match res {
            Some(i) => i as int == first_index_of(inputs_view(items@), item@) && i < items@.len(),
            None => first_index_of(inputs_view(items@), item@) == -1,
        },
{
    proof {
        lemma_first_index_of(inputs_view(items@), item@);
    }
    let ghost iv = inputs_view(items@);
    let mut i: usize = 0;
    while i < items.len()
        invariant
            i <= items@.len(),
            iv == inputs_view(items@),
            iv.len() == items@.len(),
            forall|k: int| 0 <= k < i ==> #[trigger] iv[k] != item@,
            -1 <= first_index_of(iv, item@) < iv.len(),
            first_index_of(iv, item@) == -1 ==> forall|k: int| 0 <= k < iv.len() ==> #[trigger] iv[k]
                != item@,
            first_index_of(iv, item@) >= 0 ==> iv[first_index_of(iv, item@)] == item@ && forall|
                k: int,
            | 0 <= k < first_index_of(iv, item@) ==> #[trigger] iv[k] != item@,
        decreases items@.len() - i,
    {
        if items[i].same_as(item) {
            assert(iv[i as int] == item@);
            proof {
                let f = first_index_of(iv, item@);
                if f >= 0 && f < i {
                    assert(iv[f] != item@);
                }
            }
            return Some(i);
        }
        assert(iv[i as int] != item@);
        i = i + 1;
    }
    None
}

/// Whether a vector of items holds an item.
fn items_contain(items: &Vec<InputItem>, item: &InputItem) -> (res: bool)
    ensures
        res == inputs_view(items@).contains(item@),
{
    proof {
        lemma_first_index_of(inputs_view(items@), item@);
    }
    match find_item(items, item) {
        Some(i) => {
            assert(inputs_view(items@)[i as int] == item@);
            true
        },
        None => false,
    }
}

/// Whether a vector of strings holds a string.
fn strs_contain(v: &Vec<String>, s: &str) -> (res: bool)
    ensures
        res == strs_view(v@).contains(s@),
{
    let mut i: usize = 0;
    while i < v.len()
        invariant
            i <= v@.len(),
            forall|k: int| 0 <= k < i ==> v@[k]@ != s@,
        decreases v@.len() - i,
    {
        if str_eq(v[i].as_str(), s) {
            assert(strs_view(v@)[i as int] == s@);
            return true;
        }
        i = i + 1;
    }
    assert(!strs_view(v@).contains(s@)) by {
        if strs_view(v@).contains(s@) {
            let k = choose|k: int| 0 <= k < strs_view(v@).len() && strs_view(v@)[k] == s@;
            assert(v@[k]@ == s@);
        }
    }
    false
}

/// Adds a string unless already present.
fn strs_insert(v: &mut Vec<String>, s: &str)
    ensures
        strs_view(final(v)@) == set_insert(strs_view(old(v)@), s@),
{
    if !strs_contain(v, s) {
        let ghost prev = v@;
        v.push(String::from_str(s));
        assert(strs_view(v@) =~= strs_view(prev).push(s@));
    }
}

/// Adds an item unless already present.
fn items_insert(v: &mut Vec<InputItem>, x: &InputItem)
    ensures
        inputs_view(final(v)@) == set_insert(inputs_view(old(v)@), x@),
{
    if !items_contain(v, x) {
        let ghost prev = v@;
        let c = x.copy();
        v.push(c);
        assert(inputs_view(v@) =~= inputs_view(prev).push(x@));
    }
}

/// Removes every occurrence of an item.
fn items_remove(v: &mut Vec<InputItem>, x: &InputItem)
    ensures
        inputs_view(final(v)@) == set_remove(inputs_view(old(v)@), x@),
{
    let mut out: Vec<InputItem> = Vec::new();
    let mut i: usize = 0;
    while i < v.len()
        invariant
            i <= v@.len(),
            inputs_view(out@) =~= set_remove(inputs_view(v@).subrange(0, i as int), x@),
        decreases v@.len() - i,
    {
        let ghost prev = out@;
        proof {
            let p = inputs_view(v@).subrange(0, i + 1);
            assert(p.drop_last() =~= inputs_view(v@).subrange(0, i as int));
        }
        if !v[i].same_as(x) {
            let c = v[i].copy();
            out.push(c);
            assert(inputs_view(out@) =~= inputs_view(prev).push(c@));
        }
        i = i + 1;
    }
    assert(inputs_view(v@).subrange(0, v@.len() as int) =~= inputs_view(v@));
    *v = out;
}

/// Copies a vector of input items.
fn copy_items(v: &Vec<InputItem>) -> (res: Vec<InputItem>)
    ensures
        inputs_view(res@) == inputs_view(v@),
{
    crate::items::copy_input_items(v.as_slice())
}

impl OpenAIServerConversationTracker {
    /// A tracker for a run with the given conversation settings.
    pub fn new(
        conversation_id: Option<String>,
        previous_response_id: Option<String>,
        auto_previous_response_id: bool,
    ) -> (res: Self)
        ensures
            res@ == (TrackerView {
                conversation_id: opt_view(conversation_id),
                previous_response_id: opt_view(previous_response_id),
                auto_previous_response_id,
                sent_initial_input: false,
                remaining_initial_input: None,
                sent: Seq::empty(),
                server_item_ids: Seq::empty(),
                server_tool_call_ids: Seq::empty(),
                sources: Seq::empty(),
            }),
    {
        let r = OpenAIServerConversationTracker {
            conversation_id,
            previous_response_id,
            auto_previous_response_id,
            sent_initial_input: false,
            remaining_initial_input: None,
            sent_item_fingerprints: Vec::new(),
            server_item_ids: Vec::new(),
            server_tool_call_ids: Vec::new(),
            prepared_item_sources: Vec::new(),
        };
        assert(inputs_view(r.sent_item_fingerprints@) =~= Seq::<InputView>::empty());
        assert(strs_view(r.server_item_ids@) =~= Seq::<Seq<char>>::empty());
        assert(strs_view(r.server_tool_call_ids@) =~= Seq::<Seq<char>>::empty());
        assert(pairs_view(r.prepared_item_sources@) =~= Seq::<(InputView, InputView)>::empty());
        r
    }

    /// Whether the run continues a server-side conversation.
    pub fn is_active(&self) -> (res: bool)
        ensures
            res == (self@.conversation_id.is_some() || self@.previous_response_id.is_some()
                || self@.auto_previous_response_id),
    {
        self.conversation_id.is_some() || self.previous_response_id.is_some()
            || self.auto_previous_response_id
    }

    /// The response the next request continues from.
    pub fn previous_response_id(&self) -> (res: Option<&str>)
        ensures
            match res {
                Some(s) => self@.previous_response_id == Some(s@),
                None => self@.previous_response_id.is_none(),
            },
    {
        match &self.previous_response_id {
            Some(s) => Some(s.as_str()),
            None => None,
        }
    }

    /// The server conversation the run belongs to.
    pub fn conversation_id(&self) -> (res: Option<&str>)
        ensures
            match res {
                Some(s) => self@.conversation_id == Some(s@),
                None => self@.conversation_id.is_none(),
            },
    {
        match &self.conversation_id {
            Some(s) => Some(s.as_str()),
            None => None,
        }
    }

    /// Fills unset conversation settings from a session's persisted state.
    pub fn apply_session_state(&mut self, state: &OpenAIConversationSessionState)
        ensures
            final(self)@ == (TrackerView {
                conversation_id: if old(self)@.conversation_id.is_none() {
                    opt_view(state.conversation_id)
                } else {
                    old(self)@.conversation_id
                },
                previous_response_id: if old(self)@.previous_response_id.is_none() {
                    opt_view(state.previous_response_id)
                } else {
                    old(self)@.previous_response_id
                },
                auto_previous_response_id: old(self)@.auto_previous_response_id
                    || state.auto_previous_response_id,
                ..old(self)@
            }),
    {
        if self.conversation_id.is_none() {
            self.conversation_id = copy_opt_string(&state.conversation_id);
        }
        if self.previous_response_id.is_none() {
            self.previous_response_id = copy_opt_string(&state.previous_response_id);
        }
        self.auto_previous_response_id = self.auto_previous_response_id
            || state.auto_previous_response_id;
    }

    /// The conversation settings to persist.
    pub fn session_state(&self) -> (res: OpenAIConversationSessionState)
        ensures
            opt_view(res.conversation_id) == self@.conversation_id,
            opt_view(res.previous_response_id) == self@.previous_response_id,
            res.auto_previous_response_id == self@.auto_previous_response_id,
    {
        OpenAIConversationSessionState {
            conversation_id: copy_opt_string(&self.conversation_id),
            previous_response_id: copy_opt_string(&self.previous_response_id),
            auto_previous_response_id: self.auto_previous_response_id,
        }
    }

    /// Writes the conversation settings into a run state; nothing else of the
    /// state changes.
    pub fn apply_to_state(&self, state: &mut crate::run_state::RunState)
        ensures
            opt_view(final(state).conversation_id) == self@.conversation_id,
            opt_view(final(state).previous_response_id) == self@.previous_response_id,
            final(state).auto_previous_response_id == self@.auto_previous_response_id,
            *final(state) == (crate::run_state::RunState {
                conversation_id: final(state).conversation_id,
                previous_response_id: final(state).previous_response_id,
                auto_previous_response_id: final(state).auto_previous_response_id,
                ..*old(state)
            }),
    {
        state.conversation_id = copy_opt_string(&self.conversation_id);
        state.previous_response_id = copy_opt_string(&self.previous_response_id);
        state.auto_previous_response_id = self.auto_previous_response_id;
    }

    /// Registers `source_item` as the source of `prepared_item`.
    fn register_prepared_item_source(&mut self, prepared_item: InputItem, source_item: InputItem)
        ensures
            final(self)@ == (TrackerView {
                sources: old(self)@.sources.push((prepared_item@, source_item@)),
                ..old(self)@
            }),
    {
        let ghost prev = self.prepared_item_sources@;
        let ghost p = (prepared_item@, source_item@);
        self.prepared_item_sources.push((prepared_item, source_item));
        assert(pairs_view(self.prepared_item_sources@) =~= pairs_view(prev).push(p));
    }

    /// Registers each item as its own source.
    fn register_all_self(&mut self, items: &Vec<InputItem>)
        ensures
            final(self)@ == (TrackerView {
                sources: old(self)@.sources + self_pairs(inputs_view(items@)),
                ..old(self)@
            }),
    {
        let ghost start = self@;
        let mut i: usize = 0;
        while i < items.len()
            invariant
                i <= items@.len(),
                self@ == (TrackerView {
                    sources: start.sources + self_pairs(inputs_view(items@).subrange(0, i as int)),
                    ..start
                }),
            decreases items@.len() - i,
        {
            let a = items[i].copy();
            let b = items[i].copy();
            self.register_prepared_item_source(a, b);
            proof {
                let iv = inputs_view(items@);
                assert(self_pairs(iv.subrange(0, i + 1)) =~= self_pairs(iv.subrange(0, i as int)).push(
                    (iv[i as int], iv[i as int]),
                ));
                assert(start.sources + self_pairs(iv.subrange(0, i + 1)) =~= (start.sources
                    + self_pairs(iv.subrange(0, i as int))).push((iv[i as int], iv[i as int])));
            }
            i = i + 1;
        }
        assert(inputs_view(items@).subrange(0, items@.len() as int) =~= inputs_view(items@));
    }

    /// The source recorded for an item: the oldest one registered under its
    /// fingerprint, or the item itself.
    fn resolve_prepared_item_source(&self, item: &InputItem) -> (res: InputItem)
        ensures
            res@ == resolve_source(self@, item@),
    {
        match find_pair(&self.prepared_item_sources, item) {
            Some(i) => self.prepared_item_sources[i].1.copy(),
            None => item.copy(),
        }
    }

    /// Takes the oldest source registered for an item, or the item itself.
    fn consume_prepared_item_source(&mut self, item: &InputItem) -> (res: InputItem)
        ensures
            (final(self)@, res@) == consume_source(old(self)@, item@),
    {
        match find_pair(&self.prepared_item_sources, item) {
            Some(i) => {
                let ghost prev = self.prepared_item_sources@;
                let (_, source) = self.prepared_item_sources.remove(i);
                assert(pairs_view(self.prepared_item_sources@) =~= pairs_view(prev).remove(i as int));
                source
            },
            None => item.copy(),
        }
    }

    /// Drops the first occurrence of an item from the remaining initial input.
    fn remove_remaining_initial_item(&mut self, item: &InputItem)
        ensures
            final(self)@ == remove_remaining(old(self)@, item@),
    {
        let mut remaining = match self.remaining_initial_input.take() {
            Some(r) => r,
            None => {
                return;
            },
        };
        let ghost before = inputs_view(remaining@);
        match find_item(&remaining, item) {
            Some(i) => {
                remaining.remove(i);
                assert(inputs_view(remaining@) =~= before.remove(i as int));
            },
            None => {},
        }
        if remaining.len() == 0 {
            self.remaining_initial_input = None;
        } else {
            self.remaining_initial_input = Some(remaining);
        }
    }

    /// The server item id of an item.
    fn extract_item_id<'a>(&self, item: &'a InputItem) -> (res: Option<&'a str>)
        ensures
            match res {
                Some(s) => item_id(item@) == Some(s@),
                None => item_id(item@).is_none(),
            },
    {
        match item {
            InputItem::Text { .. } => None,
            InputItem::Json { value } => get_str(value, "id"),
        }
    }

    /// The call id of an item that carries a tool output.
    fn extract_output_call_id<'a>(&self, item: &'a InputItem) -> (res: Option<&'a str>)
        ensures
            match res {
                Some(s) => output_call_id(item@) == Some(s@),
                None => output_call_id(item@).is_none(),
            },
    {
        match item {
            InputItem::Text { .. } => None,
            InputItem::Json { value } => {
                if value.get("output").is_some() {
                    get_str(value, "call_id")
                } else {
                    None
                }
            },
        }
    }

    /// The input to send for a turn: the initial input the first time (afterwards
    /// what is left of it), then the generated items the server does not have and
    /// that were not sent before.  Every item sent is registered as its own source.
    pub fn prepare_input(&mut self, original_input: &Vec<InputItem>, generated_items: &Vec<RunItem>) -> (res:
        Vec<InputItem>)
        ensures
            (final(self)@, inputs_view(res@)) == prepare_input_spec(
                old(self)@,
                inputs_view(original_input@),
                runs_view(generated_items@),
            ),
    {
        let mut prepared: Vec<InputItem> = Vec::new();
        if !self.sent_initial_input {
            prepared = copy_items(original_input);
            self.register_all_self(original_input);
            if original_input.len() > 0 {
                self.remaining_initial_input = Some(copy_items(original_input));
            } else {
                self.remaining_initial_input = None;
            }
            self.sent_initial_input = true;
        } else {
            let remaining = match &self.remaining_initial_input {
                Some(r) => Some(copy_items(r)),
                None => None,
            };
            match remaining {
                Some(r) => {
                    self.register_all_self(&r);
                    prepared = r;
                },
                None => {},
            }
        }
        let ghost t1 = self@;
        let ghost p1 = inputs_view(prepared@);
        assert((t1, p1) == prepare_initial(old(self)@, inputs_view(original_input@)));
        let mut i: usize = 0;
        while i < generated_items.len()
            invariant
                i <= generated_items@.len(),
                ({
                    let (t2, p2) = prepare_generated(
                        t1,
                        runs_view(generated_items@).subrange(0, i as int),
                    );
                    self@ == t2 && inputs_view(prepared@) == p1 + p2
                }),
            decreases generated_items@.len() - i,
        {
            proof {
                let g = runs_view(generated_items@).subrange(0, i + 1);
                assert(g.drop_last() =~= runs_view(generated_items@).subrange(0, i as int));
                assert(g.last() == generated_items@[i as int]@);
            }
            let ghost before = prepared@;
            match generated_items[i].to_input_item() {
                Some(item) => {
                    let skip_id = match self.extract_item_id(&item) {
                        Some(id) => strs_contain(&self.server_item_ids, id),
                        None => false,
                    };
                    let skip_call = match self.extract_output_call_id(&item) {
                        Some(id) => strs_contain(&self.server_tool_call_ids, id),
                        None => false,
                    };
                    if !skip_id && !skip_call && !items_contain(&self.sent_item_fingerprints, &item) {
                        let a = item.copy();
                        let b = item.copy();
                        self.register_prepared_item_source(a, b);
                        prepared.push(item);
                        assert(inputs_view(prepared@) =~= inputs_view(before).push(item@));
                    }
                },
                None => {},
            }
            i = i + 1;
        }
        assert(runs_view(generated_items@).subrange(0, generated_items@.len() as int)
            =~= runs_view(generated_items@));
        prepared
    }

    /// Whether two item lists hold the same items in the same order.
    fn same_items(a: &Vec<InputItem>, b: &Vec<InputItem>) -> (res: bool)
        ensures
            res == (inputs_view(a@) == inputs_view(b@)),
    {
        if a.len() != b.len() {
            return false;
        }
        let mut i: usize = 0;
        while i < a.len()
            invariant
                i <= a@.len(),
                a@.len() == b@.len(),
                forall|k: int| 0 <= k < i ==> a@[k]@ == b@[k]@,
            decreases a@.len() - i,
        {
            if !a[i].same_as(&b[i]) {
                assert(inputs_view(a@)[i as int] != inputs_view(b@)[i as int]);
                return false;
            }
            i = i + 1;
        }
        assert(inputs_view(a@) =~= inputs_view(b@));
        true
    }

    /// After filtered input replaced the prepared input, gives each filtered item
    /// the source of the prepared item with the same fingerprint, or else of the
    /// first prepared item left; stops when every prepared item is used.
    pub fn register_filtered_input_sources(
        &mut self,
        prepared_input: &Vec<InputItem>,
        filtered_input: &Vec<InputItem>,
    )
        requires
            prepared_input@.len() > 0 || filtered_input@.len() == 0,
        ensures
            final(self)@ == register_filtered_spec(
                old(self)@,
                inputs_view(prepared_input@),
                inputs_view(filtered_input@),
            ),
    {
        if Self::same_items(prepared_input, filtered_input) {
            return;
        }
        let ghost start = self@;
        let mut available: Vec<(InputItem, InputItem)> = Vec::new();
        let mut i: usize = 0;
        while i < prepared_input.len()
            invariant
                i <= prepared_input@.len(),
                self@ == start,
                pairs_view(available@) =~= available_pairs(
                    start,
                    inputs_view(prepared_input@).subrange(0, i as int),
                ),
            decreases prepared_input@.len() - i,
        {
            let ghost before = available@;
            let a = prepared_input[i].copy();
            let b = self.resolve_prepared_item_source(&prepared_input[i]);
            let ghost p = (a@, b@);
            available.push((a, b));
            assert(pairs_view(available@) =~= pairs_view(before).push(p));
            i = i + 1;
        }
        assert(inputs_view(prepared_input@).subrange(0, prepared_input@.len() as int)
            =~= inputs_view(prepared_input@));
        let ghost fv = inputs_view(filtered_input@);
        let ghost avail0 = pairs_view(available@);
        assert(fv.subrange(0, fv.len() as int) =~= fv);
        let mut j: usize = 0;
        while j < filtered_input.len() && available.len() > 0
            invariant
                j <= filtered_input@.len(),
                fv == inputs_view(filtered_input@),
                filtered_fold(start, avail0, fv) == filtered_fold(
                    self@,
                    pairs_view(available@),
                    fv.subrange(j as int, fv.len() as int),
                ),
            decreases filtered_input@.len() - j,
        {
            let ghost rest = fv.subrange(j as int, fv.len() as int);
            let ghost av = pairs_view(available@);
            let idx = match find_pair(&available, &filtered_input[j]) {
                Some(k) => k,
                None => 0,
            };
            let (_, source) = available.remove(idx);
            assert(pairs_view(available@) =~= av.remove(idx as int));
            let x = filtered_input[j].copy();
            self.register_prepared_item_source(x, source);
            proof {
                assert(rest[0] == fv[j as int]);
                assert(rest.subrange(1, rest.len() as int) =~= fv.subrange(j + 1, fv.len() as int));
            }
            j = j + 1;
        }
    }

    /// Records items as sent: each one's source counts as sent and leaves the
    /// remaining initial input.
    pub fn mark_input_as_sent(&mut self, items: &Vec<InputItem>)
        ensures
            final(self)@ == mark_spec(old(self)@, inputs_view(items@)),
    {
        let ghost start = self@;
        let mut i: usize = 0;
        while i < items.len()
            invariant
                i <= items@.len(),
                self@ == mark_spec(start, inputs_view(items@).subrange(0, i as int)),
            decreases items@.len() - i,
        {
            proof {
                let g = inputs_view(items@).subrange(0, i + 1);
                assert(g.drop_last() =~= inputs_view(items@).subrange(0, i as int));
            }
            let source = self.consume_prepared_item_source(&items[i]);
            items_insert(&mut self.sent_item_fingerprints, &source);
            self.remove_remaining_initial_item(&source);
            i = i + 1;
        }
        assert(inputs_view(items@).subrange(0, items@.len() as int) =~= inputs_view(items@));
    }

    /// Takes back items that were not delivered: they no longer count as sent,
    /// and their sources go back to the front of the remaining initial input.
    pub fn rewind_input(&mut self, items: &Vec<InputItem>)
        ensures
            final(self)@ == rewind_spec(old(self)@, inputs_view(items@)),
    {
        let ghost start = self@;
        let mut rewind_items: Vec<InputItem> = Vec::new();
        let mut i: usize = 0;
        while i < items.len()
            invariant
                i <= items@.len(),
                ({
                    let (t1, srcs) = rewind_fold(start, inputs_view(items@).subrange(0, i as int));
                    self@ == t1 && inputs_view(rewind_items@) == srcs
                }),
            decreases items@.len() - i,
        {
            proof {
                let g = inputs_view(items@).subrange(0, i + 1);
                assert(g.drop_last() =~= inputs_view(items@).subrange(0, i as int));
            }
            let source = self.consume_prepared_item_source(&items[i]);
            items_remove(&mut self.sent_item_fingerprints, &source);
            let ghost before = rewind_items@;
            let ghost sv = source@;
            rewind_items.push(source);
            assert(inputs_view(rewind_items@) =~= inputs_view(before).push(sv));
            i = i + 1;
        }
        assert(inputs_view(items@).subrange(0, items@.len() as int) =~= inputs_view(items@));
        if rewind_items.len() == 0 {
            return;
        }
        let mut remaining = rewind_items;
        let ghost front = inputs_view(remaining@);
        match self.remaining_initial_input.take() {
            Some(existing) => {
                let ghost ev = inputs_view(existing@);
                let mut e = existing;
                remaining.append(&mut e);
                assert(inputs_view(remaining@) =~= front + ev);
            },
            None => {
                assert(inputs_view(remaining@) =~= front + Seq::<InputView>::empty());
            },
        }
        self.remaining_initial_input = Some(remaining);
    }

    /// Records the items of a server response: their ids and call ids are known to
    /// the server, they count as sent, and they leave the remaining initial input.
    pub fn track_server_items(&mut self, response: &ModelResponse)
        ensures
            final(self)@ == track_server_items_spec(old(self)@, outputs_view(response.output@)),
    {
        let ghost start = self@;
        let items = response.to_input_items();
        let ghost xs = inputs_view(items@);
        let mut i: usize = 0;
        while i < items.len()
            invariant
                i <= items@.len(),
                xs == inputs_view(items@),
                self@ == track_all(start, xs.subrange(0, i as int)),
            decreases items@.len() - i,
        {
            proof {
                let g = xs.subrange(0, i + 1);
                assert(g.drop_last() =~= xs.subrange(0, i as int));
            }
            let item = &items[i];
            match self.extract_item_id(item) {
                Some(id) => strs_insert(&mut self.server_item_ids, id),
                None => {},
            }
            match self.extract_output_call_id(item) {
                Some(id) => strs_insert(&mut self.server_tool_call_ids, id),
                None => {},
            }
            items_insert(&mut self.sent_item_fingerprints, item);
            i = i + 1;
        }
        assert(xs.subrange(0, items@.len() as int) =~= xs);
        match self.remaining_initial_input.take() {
            None => {},
            Some(remaining) => {
                let mut filtered: Vec<InputItem> = Vec::new();
                let ghost rv = inputs_view(remaining@);
                let mut j: usize = 0;
                while j < remaining.len()
                    invariant
                        j <= remaining@.len(),
                        rv == inputs_view(remaining@),
                        xs == inputs_view(items@),
                        inputs_view(filtered@) == without_all(rv.subrange(0, j as int), xs),
                    decreases remaining@.len() - j,
                {
                    proof {
                        let g = rv.subrange(0, j + 1);
                        assert(g.drop_last() =~= rv.subrange(0, j as int));
                    }
                    if !items_contain(&items, &remaining[j]) {
                        let ghost before = filtered@;
                        let c = remaining[j].copy();
                        filtered.push(c);
                        assert(inputs_view(filtered@) =~= inputs_view(before).push(c@));
                    }
                    j = j + 1;
                }
                assert(rv.subrange(0, remaining@.len() as int) =~= rv);
                if filtered.len() > 0 {
                    self.remaining_initial_input = Some(filtered);
                }
            },
        }
    }

    /// Records a response; when responses are chained, its id becomes the one the
    /// next request continues from.
    pub fn apply_response(&mut self, response: &ModelResponse)
        ensures
            ({
                let t = track_server_items_spec(old(self)@, outputs_view(response.output@));
                final(self)@ == if (t.auto_previous_response_id || t.previous_response_id.is_some())
                    && response.response_id.is_some() {
                    TrackerView { previous_response_id: opt_view(response.response_id), ..t }
                } else {
                    t
                }
            }),
    {
        self.track_server_items(response);
        if (self.auto_previous_response_id || self.previous_response_id.is_some())
            && response.response_id.is_some() {
            self.previous_response_id = copy_opt_string(&response.response_id);
        }
    }
}

} // verus!
