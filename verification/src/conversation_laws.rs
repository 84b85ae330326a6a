//! Properties of conversation tracking that span several operations.
use vstd::prelude::*;

use crate::conversation::{
    consume_source, first_index_of, first_pair_index, item_id, mark_spec, needs_sending, output_call_id,
    prepare_generated,
    prepare_initial, prepare_input_spec, response_inputs, rewind_fold, rewind_spec, self_pairs,
    set_insert, track_all, track_server_items_spec, TrackerView,
};
use crate::items::{run_as_input, InputView, OutputView, RunView};

verus! {

/// A tracker that has not prepared any input yet.
pub open spec fn fresh(t: TrackerView) -> bool {
    &&& !t.sent_initial_input
    &&& t.remaining_initial_input.is_none()
    &&& t.sources.len() == 0
}

/// The first pair of a list that starts with `f` is its first pair.
proof fn lemma_first_pair_at_front(s: Seq<(InputView, InputView)>, f: InputView)
    requires
        s.len() > 0,
        s[0].0 == f,
    ensures
        first_pair_index(s, f) == 0,
    decreases s.len(),
{
    if s.len() > 1 {
        assert(s.drop_last()[0] == s[0]);
        lemma_first_pair_at_front(s.drop_last(), f);
    } else {
        assert(first_pair_index(s.drop_last(), f) == -1);
    }
}

/// The first occurrence in a list that starts with `x` is at its front.
proof fn lemma_first_index_at_front(s: Seq<InputView>, x: InputView)
    requires
        s.len() > 0,
        s[0] == x,
    ensures
        first_index_of(s, x) == 0,
    decreases s.len(),
{
    if s.len() > 1 {
        assert(s.drop_last()[0] == s[0]);
        lemma_first_index_at_front(s.drop_last(), x);
    } else {
        assert(first_index_of(s.drop_last(), x) == -1);
    }
}

/// An inserted element is present, and so is everything that was.
proof fn lemma_set_insert<A>(s: Seq<A>, x: A)
    ensures
        set_insert(s, x).contains(x),
        forall|y: A| s.contains(y) ==> set_insert(s, x).contains(y),
{
    if !s.contains(x) {
        assert(s.push(x)[s.len() as int] == x);
        assert forall|y: A| s.contains(y) implies set_insert(s, x).contains(y) by {
            let k = choose|k: int| 0 <= k < s.len() && s[k] == y;
            assert(s.push(x)[k] == y);
        }
    }
}

/// No pair is found in an empty list.
proof fn lemma_first_pair_empty(s: Seq<(InputView, InputView)>, f: InputView)
    requires
        s.len() == 0,
    ensures
        first_pair_index(s, f) == -1,
{
}

/// Marking the first `k` items of the initial input, right after it was
/// prepared, consumes their sources and leaves the rest as remaining input.
proof fn lemma_mark_prefix(t1: TrackerView, o: Seq<InputView>, k: int)
    requires
        0 <= k <= o.len(),
        t1.sources == self_pairs(o),
        t1.remaining_initial_input == (if o.len() > 0 {
            Some(o)
        } else {
            None::<Seq<InputView>>
        }),
    ensures
        ({
            let t = mark_spec(t1, o.subrange(0, k));
            &&& t.sources == self_pairs(o.subrange(k, o.len() as int))
            &&& t.remaining_initial_input == (if k < o.len() {
                Some(o.subrange(k, o.len() as int))
            } else {
                None::<Seq<InputView>>
            })
            &&& t.sent_initial_input == t1.sent_initial_input
            &&& t.conversation_id == t1.conversation_id
            &&& t.previous_response_id == t1.previous_response_id
            &&& t.auto_previous_response_id == t1.auto_previous_response_id
            &&& forall|i: int| 0 <= i < k ==> t.sent.contains(#[trigger] o[i])
        }),
    decreases k,
{
    if k == 0 {
        assert(o.subrange(0, 0) =~= Seq::<InputView>::empty());
        assert(o.subrange(0, o.len() as int) =~= o);
        assert(self_pairs(o.subrange(0, o.len() as int)) =~= self_pairs(o));
    } else {
        lemma_mark_prefix(t1, o, k - 1);
        let items = o.subrange(0, k);
        assert(items.drop_last() =~= o.subrange(0, k - 1));
        let t0 = mark_spec(t1, o.subrange(0, k - 1));
        let x = o[k - 1];
        assert(items.last() == x);
        let rest = o.subrange(k - 1, o.len() as int);
        let sp = self_pairs(rest);
        assert(sp[0] == (x, x));
        lemma_first_pair_at_front(sp, x);
        let (t2, src) = consume_source(t0, x);
        assert(src == x);
        assert(sp.remove(0) =~= self_pairs(o.subrange(k, o.len() as int)));
        lemma_first_index_at_front(rest, x);
        assert(rest.remove(0) =~= o.subrange(k, o.len() as int));
        let t3 = TrackerView { sent: set_insert(t2.sent, src), ..t2 };
        lemma_set_insert(t2.sent, src);
        assert(t3.sent.contains(x));
        assert forall|i: int| 0 <= i < k implies mark_spec(t1, items).sent.contains(#[trigger] o[i]) by {
            if i < k - 1 {
                assert(t0.sent.contains(o[i]));
                assert(t3.sent.contains(o[i]));
            }
        }
    }
}

/// Once every prepared item of a first turn is marked as sent, nothing of the
/// initial input is left to replay, and preparing again sends nothing.
pub proof fn law_marked_initial_input_is_not_replayed(t: TrackerView, o: Seq<InputView>)
    requires
        fresh(t),
    ensures
        ({
            let (t1, p) = prepare_input_spec(t, o, Seq::empty());
            let t2 = mark_spec(t1, p);
            &&& p == o
            &&& t2.remaining_initial_input.is_none()
            &&& t2.sources.len() == 0
            &&& forall|i: int| 0 <= i < o.len() ==> t2.sent.contains(#[trigger] o[i])
            &&& prepare_input_spec(t2, o, Seq::empty()).1 == Seq::<InputView>::empty()
        }),
{
    let (t1, p1) = prepare_initial(t, o);
    assert(t.sources + self_pairs(o) =~= self_pairs(o));
    assert(p1 + Seq::<InputView>::empty() =~= p1);
    let (t1x, p) = prepare_input_spec(t, o, Seq::empty());
    assert(t1x == t1);
    assert(p == o);
    lemma_mark_prefix(t1, o, o.len() as int);
    assert(o.subrange(0, o.len() as int) =~= o);
    let t2 = mark_spec(t1, o);
    assert(self_pairs(o.subrange(o.len() as int, o.len() as int)).len() == 0);
    assert(Seq::<InputView>::empty() + Seq::<InputView>::empty() =~= Seq::<InputView>::empty());
}

/// Taking back items while no sources are registered gives the items themselves
/// as sources and leaves the sources empty.
proof fn lemma_rewind_without_sources(t: TrackerView, items: Seq<InputView>)
    requires
        t.sources.len() == 0,
    ensures
        ({
            let (t1, srcs) = rewind_fold(t, items);
            &&& srcs == items
            &&& t1.sources.len() == 0
            &&& t1.remaining_initial_input == t.remaining_initial_input
            &&& t1.sent_initial_input == t.sent_initial_input
        }),
    decreases items.len(),
{
    if items.len() > 0 {
        lemma_rewind_without_sources(t, items.drop_last());
        let (t0, s0) = rewind_fold(t, items.drop_last());
        lemma_first_pair_empty(t0.sources, items.last());
        assert(s0.push(items.last()) =~= items);
    }
}

/// Sending a first turn, then taking all of it back, makes the next turn send the
/// same initial input again.
pub proof fn law_rewind_restores_initial_input(t: TrackerView, o: Seq<InputView>)
    requires
        fresh(t),
    ensures
        ({
            let (t1, p) = prepare_input_spec(t, o, Seq::empty());
            let t3 = rewind_spec(mark_spec(t1, p), p);
            prepare_input_spec(t3, o, Seq::empty()).1 == o
        }),
{
    law_marked_initial_input_is_not_replayed(t, o);
    let (t1, p) = prepare_input_spec(t, o, Seq::empty());
    let t2 = mark_spec(t1, p);
    lemma_rewind_without_sources(t2, p);
    let (t3a, srcs) = rewind_fold(t2, p);
    let t3 = rewind_spec(t2, p);
    assert(srcs + Seq::<InputView>::empty() =~= srcs);
    if o.len() > 0 {
        assert(t3.remaining_initial_input == Some(o));
        assert(t3.sent_initial_input);
    } else {
        assert(t3 == t3a);
    }
    let (t4, p4) = prepare_initial(t3, o);
    assert(p4 + Seq::<InputView>::empty() =~= p4);
}

/// Generated-item preparation only changes the registered sources.
proof fn lemma_prepare_generated_frame(t: TrackerView, gs: Seq<RunView>)
    ensures
        ({
            let (t1, out) = prepare_generated(t, gs);
            &&& t1.sent == t.sent
            &&& t1.server_item_ids == t.server_item_ids
            &&& t1.server_tool_call_ids == t.server_tool_call_ids
            &&& forall|i: int| 0 <= i < out.len() ==> needs_sending(t, #[trigger] out[i])
            &&& forall|i: int|
                0 <= i < out.len() ==> exists|j: int|
                    0 <= j < gs.len() && #[trigger] out[i] == run_as_input(gs[j])
        }),
    decreases gs.len(),
{
    if gs.len() > 0 {
        lemma_prepare_generated_frame(t, gs.drop_last());
        let (t0, out0) = prepare_generated(t, gs.drop_last());
        let x = run_as_input(gs.last());
        let (t1, out) = prepare_generated(t, gs);
        assert forall|i: int| 0 <= i < out.len() implies exists|j: int|
            0 <= j < gs.len() && #[trigger] out[i] == run_as_input(gs[j]) by {
            if i < out0.len() {
                let j = choose|j: int|
                    0 <= j < gs.drop_last().len() && out0[i] == run_as_input(gs.drop_last()[j]);
                assert(gs[j] == gs.drop_last()[j]);
            } else {
                assert(out[i] == x);
                assert(gs[gs.len() - 1] == gs.last());
            }
        }
        assert forall|i: int| 0 <= i < out.len() implies needs_sending(t, #[trigger] out[i]) by {
            if i < out0.len() {
                assert(out[i] == out0[i]);
            }
        }
    }
}

/// Preparing a turn never resends an item that was already sent or that the
/// server produced: every item sent beyond the initial input is a generated item
/// that still needs sending.
pub proof fn law_prepare_skips_sent_items(t: TrackerView, o: Seq<InputView>, gs: Seq<RunView>)
    ensures
        ({
            let (t1, p1) = prepare_initial(t, o);
            let (t2, p) = prepare_input_spec(t, o, gs);
            &&& p.subrange(0, p1.len() as int) == p1
            &&& forall|i: int|
                p1.len() <= i < p.len() ==> !t.sent.contains(#[trigger] p[i]) && needs_sending(
                    t,
                    p[i],
                )
        }),
{
    let (t1, p1) = prepare_initial(t, o);
    lemma_prepare_generated_frame(t1, gs);
    let (t2, p2) = prepare_generated(t1, gs);
    let p = p1 + p2;
    assert(p.subrange(0, p1.len() as int) =~= p1);
    assert forall|i: int| p1.len() <= i < p.len() implies !t.sent.contains(#[trigger] p[i])
        && needs_sending(t, p[i]) by {
        assert(p[i] == p2[i - p1.len()]);
        assert(needs_sending(t1, p2[i - p1.len()]));
    }
}

/// Items recorded by `track_all` count as sent.
proof fn lemma_track_all_sent(t: TrackerView, xs: Seq<InputView>)
    ensures
        forall|i: int| 0 <= i < xs.len() ==> track_all(t, xs).sent.contains(#[trigger] xs[i]),
        forall|y: InputView| t.sent.contains(y) ==> track_all(t, xs).sent.contains(y),
    decreases xs.len(),
{
    if xs.len() > 0 {
        lemma_track_all_sent(t, xs.drop_last());
        let t0 = track_all(t, xs.drop_last());
        lemma_set_insert(t0.sent, xs.last());
        assert forall|i: int| 0 <= i < xs.len() implies track_all(t, xs).sent.contains(
            #[trigger] xs[i],
        ) by {
            if i < xs.len() - 1 {
                assert(xs[i] == xs.drop_last()[i]);
                assert(t0.sent.contains(xs[i]));
            }
        }
    }
}

/// After a response is recorded, every item it produced counts as sent, so it is
/// never sent back to the server.
pub proof fn law_server_items_count_as_sent(t: TrackerView, out: Seq<OutputView>)
    ensures
        forall|i: int|
            0 <= i < response_inputs(out).len() ==> track_server_items_spec(t, out).sent.contains(
                #[trigger] response_inputs(out)[i],
            ),
{
    lemma_track_all_sent(t, response_inputs(out));
}

/// Whether a generated item is still owed to the server by a tracker `t`: its
/// id is not one the server produced, its call id is not one whose output the
/// server has, and it was not sent before.
pub open spec fn owed_to_server(t: TrackerView, x: InputView) -> bool {
    &&& !(item_id(x) matches Some(id) && t.server_item_ids.contains(id))
    &&& !(output_call_id(x) matches Some(id) && t.server_tool_call_ids.contains(id))
    &&& !t.sent.contains(x)
}

/// Preparing generated items keeps, in order, every one still owed to the
/// server as the tracker `t` saw it before.
proof fn lemma_prepare_generated_keeps_owed(t: TrackerView, t1: TrackerView, gs: Seq<RunView>)
    requires
        t1.sent == t.sent,
        t1.server_item_ids == t.server_item_ids,
        t1.server_tool_call_ids == t.server_tool_call_ids,
    ensures
        prepare_generated(t1, gs).1 == gs.map_values(|r: RunView| run_as_input(r)).filter(
            |x: InputView| owed_to_server(t, x),
        ),
    decreases gs.len(),
{
    if gs.len() == 0 {
        reveal(Seq::filter);
        assert(gs.map_values(|r: RunView| run_as_input(r)) =~= Seq::<InputView>::empty());
    } else {
        lemma_prepare_generated_keeps_owed(t, t1, gs.drop_last());
        lemma_prepare_generated_frame(t1, gs.drop_last());
        let xs = gs.drop_last().map_values(|r: RunView| run_as_input(r));
        let x = run_as_input(gs.last());
        assert(gs.map_values(|r: RunView| run_as_input(r)) =~= xs.push(x));
        xs.lemma_filter_push(x, |x: InputView| owed_to_server(t, x));
    }
}

/// Preparing a turn sends, after the initial input, every generated item still
/// owed to the server, each in its order, and nothing else.
pub proof fn law_prepare_sends_every_owed_item(t: TrackerView, o: Seq<InputView>, gs: Seq<RunView>)
    ensures
        prepare_input_spec(t, o, gs).1 == prepare_initial(t, o).1 + gs.map_values(
            |r: RunView| run_as_input(r),
        ).filter(|x: InputView| owed_to_server(t, x)),
        forall|j: int|
            0 <= j < gs.len() && owed_to_server(t, run_as_input(#[trigger] gs[j])) ==> prepare_input_spec(
                t,
                o,
                gs,
            ).1.skip(prepare_initial(t, o).1.len() as int).contains(run_as_input(gs[j])),
{
    let (t1, p1) = prepare_initial(t, o);
    lemma_prepare_generated_keeps_owed(t, t1, gs);
    let xs = gs.map_values(|r: RunView| run_as_input(r));
    let kept = xs.filter(|x: InputView| owed_to_server(t, x));
    let p = prepare_input_spec(t, o, gs).1;
    assert(p.skip(p1.len() as int) =~= kept);
    assert forall|j: int|
        0 <= j < gs.len() && owed_to_server(t, run_as_input(#[trigger] gs[j])) implies p.skip(
            p1.len() as int,
        ).contains(run_as_input(gs[j])) by {
        assert(xs[j] == run_as_input(gs[j]));
        xs.lemma_filter_contains(|x: InputView| owed_to_server(t, x), j);
    }
}

} // verus!
