//! Building the model input of a turn from the caller's items and the items a run
//! generated, and the replay history a resumed run starts from.
use vstd::prelude::*;

use crate::items::{inputs_view, run_as_input, runs_view, InputItem, InputView, RunItem, RunView};
use crate::json::{get_str, json_get, json_str_member, json_view, Json, JsonValue};
use crate::text::{concat3, str_eq};

verus! {

/// Whether reasoning items are replayed to the model.
#[derive(Clone, Copy, Debug, PartialEq, Eq, Structural)]
pub enum ReasoningItemIdPolicy {
    Preserve,
    Omit,
}

impl Default for ReasoningItemIdPolicy {
    fn default() -> (res: Self)
        ensures
            res == ReasoningItemIdPolicy::Preserve,
    {
        ReasoningItemIdPolicy::Preserve
    }
}

/// Whether a run item is left out of the replay under `policy`.
pub open spec fn omitted(r: RunView, policy: ReasoningItemIdPolicy) -> bool {
    policy == ReasoningItemIdPolicy::Omit && r is Reasoning
}

/// The input items a list of run items is replayed as under `policy`.
pub open spec fn replayed(runs: Seq<RunView>, policy: ReasoningItemIdPolicy) -> Seq<InputView>
    decreases runs.len(),
{
    if runs.len() == 0 {
        Seq::empty()
    } else {
        let rest = replayed(runs.drop_last(), policy);
        if omitted(runs.last(), policy) {
            rest
        } else {
            rest.push(run_as_input(runs.last()))
        }
    }
}

/// The input item a run item is replayed as, unless `policy` leaves it out.
pub fn run_item_to_input_item(run_item: &RunItem, reasoning_item_id_policy: ReasoningItemIdPolicy) -> (res:
    Option<InputItem>)
    ensures
        match res {
            Some(i) => !omitted(run_item@, reasoning_item_id_policy) && i@ == run_as_input(run_item@),
            None => omitted(run_item@, reasoning_item_id_policy),
        },
{
    if reasoning_item_id_policy == ReasoningItemIdPolicy::Omit {
        if let RunItem::Reasoning { .. } = run_item {
            return None;
        }
    }
    run_item.to_input_item()
}

/// The input items a list of run items is replayed as.
pub fn run_items_to_input_items(run_items: &[RunItem], reasoning_item_id_policy: ReasoningItemIdPolicy) -> (res:
    Vec<InputItem>)
    ensures
        inputs_view(res@) == replayed(runs_view(run_items@), reasoning_item_id_policy),
{
    let mut out: Vec<InputItem> = Vec::new();
    let mut i: usize = 0;
    while i < run_items.len()
        invariant
            i <= run_items@.len(),
            inputs_view(out@) == replayed(runs_view(run_items@.subrange(0, i as int)), reasoning_item_id_policy),
        decreases run_items@.len() - i,
    {
        let ghost before = out@;
        let ghost pre = run_items@.subrange(0, i as int);
        let ghost next = run_items@.subrange(0, i + 1);
        assert(runs_view(next).drop_last() =~= runs_view(pre));
        assert(runs_view(next).last() == run_items@[i as int]@);
        match run_item_to_input_item(&run_items[i], reasoning_item_id_policy) {
            Some(item) => {
                out.push(item);
                assert(inputs_view(out@) =~= inputs_view(before).push(item@));
            },
            None => {},
        }
        i = i + 1;
    }
    assert(run_items@.subrange(0, run_items@.len() as int) =~= run_items@);
    out
}

/// The input of a model call: the caller's items followed by the replayed run items.
pub fn prepare_model_input_items(
    caller_items: &[InputItem],
    generated_items: &[RunItem],
    reasoning_item_id_policy: ReasoningItemIdPolicy,
) -> (res: Vec<InputItem>)
    ensures
        inputs_view(res@) == inputs_view(caller_items@) + replayed(
            runs_view(generated_items@),
            reasoning_item_id_policy,
        ),
{
    let mut prepared = crate::items::copy_input_items(caller_items);
    let generated = run_items_to_input_items(generated_items, reasoning_item_id_policy);
    let mut i: usize = 0;
    let ghost base = inputs_view(prepared@);
    while i < generated.len()
        invariant
            i <= generated@.len(),
            inputs_view(prepared@) == base + inputs_view(generated@).subrange(0, i as int),
        decreases generated@.len() - i,
    {
        let ghost before = prepared@;
        prepared.push(generated[i].copy());
        assert(inputs_view(prepared@) =~= inputs_view(before).push(generated@[i as int]@));
        assert(inputs_view(generated@).subrange(0, i + 1) =~= inputs_view(generated@).subrange(
            0,
            i as int,
        ).push(generated@[i as int]@));
        i = i + 1;
    }
    assert(inputs_view(generated@).subrange(0, generated@.len() as int) =~= inputs_view(generated@));
    prepared
}

/// The `type` of a JSON item.
pub open spec fn item_type_of(v: Json) -> Option<Seq<char>> {
    json_str_member(v, "type"@)
}

/// The non-empty call id of a JSON item: its `call_id` member when present,
/// else its `id` member.
pub open spec fn call_id_of(v: Json) -> Option<Seq<char>> {
    let raw = match json_get(v, "call_id"@) {
        Some(x) => Some(x),
        None => json_get(v, "id"@),
    };
    match raw {
        Some(Json::Str(s)) => if s.len() > 0 {
            Some(s)
        } else {
            None
        },
        _ => None,
    }
}

/// Whether a JSON item reports the status `completed`.
pub open spec fn is_completed(v: Json) -> bool {
    json_str_member(v, "status"@) == Some("completed"@)
}

/// The key by which a replayed item is recognized again: none for text and
/// messages, else its type with its id (unless a placeholder) or its call id.
pub open spec fn dedupe_key(x: InputView) -> Option<Seq<char>> {
    match x {
        InputView::Text(_) => None,
        InputView::Json(v) => {
            let ty = match json_str_member(v, "type"@) {
                Some(t) => Some(t),
                None => json_str_member(v, "role"@),
            };
            match ty {
                None => None,
                Some(t) => if json_get(v, "role"@).is_some() || t == "message"@ {
                    None
                } else {
                    match json_str_member(v, "id"@) {
                        Some(id) if id != "__fake_id__"@ => Some("id:"@ + t + ":"@ + id),
                        _ => match json_str_member(v, "call_id"@) {
                            Some(c) => Some("call:"@ + t + ":"@ + c),
                            None => None,
                        },
                    }
                },
            }
        },
    }
}

/// The non-empty call id of a JSON item.
fn call_id(value: &JsonValue) -> (res: Option<&str>)
    ensures
        match res {
            Some(s) => call_id_of(json_view(*value)) == Some(s@),
            None => call_id_of(json_view(*value)).is_none(),
        },
{
    let raw = match value.get("call_id") {
        Some(x) => Some(x),
        None => value.get("id"),
    };
    match raw {
        Some(x) => match x.as_str() {
            Some(s) => if s.is_empty() {
                None
            } else {
                Some(s)
            },
            None => None,
        },
        None => None,
    }
}

/// Whether a JSON item reports the status `completed`.
fn is_completed_hosted_item(value: &JsonValue) -> (res: bool)
    ensures
        res == is_completed(json_view(*value)),
{
    match get_str(value, "status") {
        Some(s) => str_eq(s, "completed"),
        None => false,
    }
}

/// The key by which a replayed item is recognized again.
pub fn stable_replay_dedupe_key(item: &InputItem) -> (res: Option<String>)
    ensures
        match res {
            Some(k) => dedupe_key(item@) == Some(k@),
            None => dedupe_key(item@).is_none(),
        },
{
    let value = match item {
        InputItem::Text { .. } => {
            return None;
        },
        InputItem::Json { value } => value,
    };
    let item_type = match get_str(value, "type") {
        Some(t) => t,
        None => match get_str(value, "role") {
            Some(t) => t,
            None => {
                return None;
            },
        },
    };
    if value.get("role").is_some() || str_eq(item_type, "message") {
        return None;
    }
    if let Some(item_id) = get_str(value, "id") {
        if !str_eq(item_id, "__fake_id__") {
            let head = concat3("id:", item_type, ":");
            return Some(crate::text::concat2(head.as_str(), item_id));
        }
    }
    match get_str(value, "call_id") {
        Some(c) => {
            let head = concat3("call:", item_type, ":");
            Some(crate::text::concat2(head.as_str(), c))
        },
        None => None,
    }
}

/// Whether `x` is a JSON item of type `ty` with the call id `c`.
pub open spec fn hosted_match(x: InputView, ty: Seq<char>, c: Seq<char>) -> bool {
    x matches InputView::Json(w) && item_type_of(w) == Some(ty) && call_id_of(w) == Some(c)
}

/// Whether `items` hold an item of type `ty` with the call id `c`.
pub open spec fn has_hosted(items: Seq<InputView>, ty: Seq<char>, c: Seq<char>) -> bool {
    exists|j: int| 0 <= j < items.len() && #[trigger] hosted_match(items[j], ty, c)
}

/// Whether `x` is a tool search call or output (as `ty` says) without a call id.
pub open spec fn anonymous_of(x: InputView, ty: Seq<char>) -> bool {
    x matches InputView::Json(w) && item_type_of(w) == Some(ty) && call_id_of(w).is_none()
}

/// Tool search calls and outputs without call ids paired in order: each such
/// output closes the latest call still open.  Gives the calls still open, the
/// positions of paired calls and the positions of paired outputs.
pub open spec fn anonymous_pairs(items: Seq<InputView>) -> (Seq<int>, Set<int>, Set<int>)
    decreases items.len(),
{
    if items.len() == 0 {
        (Seq::empty(), Set::empty(), Set::empty())
    } else {
        let (open, calls, outputs) = anonymous_pairs(items.drop_last());
        let i = items.len() - 1;
        if anonymous_of(items[i], "tool_search_call"@) {
            (open.push(i), calls, outputs)
        } else if anonymous_of(items[i], "tool_search_output"@) && open.len() > 0 {
            (open.drop_last(), calls.insert(open.last()), outputs.insert(i))
        } else {
            (open, calls, outputs)
        }
    }
}

/// Whether the item at position `i` is kept when a history is replayed: hosted
/// tool calls that completed are kept only with their output, and outputs only
/// with their call.
pub open spec fn keep_hosted(items: Seq<InputView>, i: int) -> bool {
    match items[i] {
        InputView::Text(_) => true,
        InputView::Json(v) => {
            let ty = item_type_of(v);
            if ty == Some("shell_call"@) {
                !is_completed(v) || (call_id_of(v) matches Some(c) && has_hosted(
                    items,
                    "shell_call_output"@,
                    c,
                ))
            } else if ty == Some("shell_call_output"@) {
                call_id_of(v) matches Some(c) && has_hosted(items, "shell_call"@, c)
            } else if ty == Some("tool_search_call"@) {
                !is_completed(v) || match call_id_of(v) {
                    Some(c) => has_hosted(items, "tool_search_output"@, c),
                    None => anonymous_pairs(items).1.contains(i),
                }
            } else if ty == Some("tool_search_output"@) {
                match call_id_of(v) {
                    Some(c) => has_hosted(items, "tool_search_call"@, c),
                    None => anonymous_pairs(items).2.contains(i),
                }
            } else {
                true
            }
        },
    }
}

/// The items among the first `n` that a replay keeps, in order.
pub open spec fn kept_prefix(items: Seq<InputView>, n: int) -> Seq<InputView>
    decreases n,
{
    if n <= 0 {
        Seq::empty()
    } else if keep_hosted(items, n - 1) {
        kept_prefix(items, n - 1).push(items[n - 1])
    } else {
        kept_prefix(items, n - 1)
    }
}

/// The items a replay keeps, in order.
pub open spec fn sanitized(items: Seq<InputView>) -> Seq<InputView> {
    kept_prefix(items, items.len() as int)
}

/// Whether position `i` is among `v`.
pub open spec fn has_index(v: Seq<usize>, i: int) -> bool {
    exists|k: int| 0 <= k < v.len() && v[k] as int == i
}

/// The call ids and paired positions of the hosted tool items of a history.
struct HostedPairingInfo {
    shell_call_ids: Vec<String>,
    shell_output_ids: Vec<String>,
    tool_search_call_ids: Vec<String>,
    tool_search_output_ids: Vec<String>,
    matched_anonymous_tool_search_call_indexes: Vec<usize>,
    matched_anonymous_tool_search_output_indexes: Vec<usize>,
}

/// The characters of each string.
spec fn strs(v: Seq<String>) -> Seq<Seq<char>> {
    v.map_values(|s: String| s@)
}

/// Whether `ids` hold exactly the call ids of the items of type `ty` among the
/// first `n` items.
spec fn ids_of(ids: Seq<String>, items: Seq<InputView>, n: int, ty: Seq<char>) -> bool {
    forall|c: Seq<char>| #[trigger] strs(ids).contains(c) <==> has_hosted(items.subrange(0, n), ty, c)
}

/// Whether `v` holds exactly the positions of `s`.
spec fn indexes_of(v: Seq<usize>, s: Set<int>) -> bool {
    forall|i: int| #[trigger] has_index(v, i) <==> s.contains(i)
}

impl HostedPairingInfo {
    /// Whether this describes the first `n` items.
    spec fn describes(&self, items: Seq<InputView>, n: int) -> bool {
        &&& ids_of(self.shell_call_ids@, items, n, "shell_call"@)
        &&& ids_of(self.shell_output_ids@, items, n, "shell_call_output"@)
        &&& ids_of(self.tool_search_call_ids@, items, n, "tool_search_call"@)
        &&& ids_of(self.tool_search_output_ids@, items, n, "tool_search_output"@)
        &&& indexes_of(
            self.matched_anonymous_tool_search_call_indexes@,
            anonymous_pairs(items.subrange(0, n)).1,
        )
        &&& indexes_of(
            self.matched_anonymous_tool_search_output_indexes@,
            anonymous_pairs(items.subrange(0, n)).2,
        )
    }
}

/// Whether `v` holds `s`.
fn contains_str(v: &Vec<String>, s: &str) -> (res: bool)
    ensures
        res == strs(v@).contains(s@),
{
    let mut i: usize = 0;
    while i < v.len()
        invariant
            i <= v@.len(),
            forall|k: int| 0 <= k < i ==> v@[k]@ != s@,
        decreases v@.len() - i,
    {
        if str_eq(v[i].as_str(), s) {
            assert(strs(v@)[i as int] == s@);
            return true;
        }
        i = i + 1;
    }
    assert forall|k: int| 0 <= k < strs(v@).len() implies strs(v@)[k] != s@ by {
        assert(strs(v@)[k] == v@[k]@);
    }
    false
}

/// Whether `v` holds the position `i`.
fn contains_index(v: &Vec<usize>, i: usize) -> (res: bool)
    ensures
        res == has_index(v@, i as int),
{
    let mut k: usize = 0;
    while k < v.len()
        invariant
            k <= v@.len(),
            forall|j: int| 0 <= j < k ==> v@[j] != i,
        decreases v@.len() - k,
    {
        if v[k] == i {
            return true;
        }
        k = k + 1;
    }
    false
}

/// Extending the first `n` items by one adds the new item's call id, when it
/// has type `ty`, to the ids of that type.
proof fn lemma_ids_step(
    ids: Seq<String>,
    new_ids: Seq<String>,
    items: Seq<InputView>,
    n: int,
    ty: Seq<char>,
)
    requires
        0 <= n < items.len(),
        ids_of(ids, items, n, ty),
        match items[n] {
            InputView::Json(w) => if item_type_of(w) == Some(ty) && call_id_of(w).is_some() {
                strs(new_ids) == strs(ids).push(call_id_of(w).unwrap())
            } else {
                strs(new_ids) == strs(ids)
            },
            InputView::Text(_) => strs(new_ids) == strs(ids),
        },
    ensures
        ids_of(new_ids, items, n + 1, ty),
{
    let pre = items.subrange(0, n);
    let next = items.subrange(0, n + 1);
    assert forall|c: Seq<char>| #[trigger] strs(new_ids).contains(c) <==> has_hosted(next, ty, c) by {
        if has_hosted(pre, ty, c) {
            let j = choose|j: int| 0 <= j < pre.len() && #[trigger] hosted_match(pre[j], ty, c);
            assert(next[j] == pre[j]);
        }
        if has_hosted(next, ty, c) {
            let j = choose|j: int| 0 <= j < next.len() && #[trigger] hosted_match(next[j], ty, c);
            if j < n {
                assert(pre[j] == next[j]);
            }
        }
        if hosted_match(items[n], ty, c) {
            assert(next[n] == items[n]);
            assert(strs(new_ids)[strs(ids).len() as int] == c);
        }
        if strs(new_ids).contains(c) && !strs(ids).contains(c) {
            let k = choose|k: int| 0 <= k < strs(new_ids).len() && strs(new_ids)[k] == c;
            assert(k == strs(ids).len());
            assert(next[n] == items[n]);
        }
        if strs(ids).contains(c) {
            let k = choose|k: int| 0 <= k < strs(ids).len() && strs(ids)[k] == c;
            assert(strs(new_ids)[k] == c);
        }
    }
}

/// Adding position `x` to `v` adds it to the positions `v` holds.
proof fn lemma_has_index_push(v: Seq<usize>, x: usize)
    ensures
        forall|i: int| #[trigger] has_index(v.push(x), i) <==> (has_index(v, i) || i == x as int),
{
    assert forall|i: int| #[trigger] has_index(v.push(x), i) <==> (has_index(v, i) || i == x as int) by {
        if has_index(v, i) {
            let k = choose|k: int| 0 <= k < v.len() && v[k] as int == i;
            assert(v.push(x)[k] == v[k]);
        }
        if i == x as int {
            assert(v.push(x)[v.len() as int] == x);
        }
        if has_index(v.push(x), i) {
            let k = choose|k: int| 0 <= k < v.push(x).len() && v.push(x)[k] as int == i;
            if k < v.len() {
                assert(v[k] == v.push(x)[k]);
            }
        }
    }
}

/// The positions of an index stack.
spec fn stack_view(v: Seq<usize>) -> Seq<int> {
    v.map_values(|u: usize| u as int)
}

/// Collects the call ids of the hosted tool items of a history and pairs its
/// tool search calls and outputs that have no call id.
#[verifier::rlimit(40)]
fn hosted_pairing_info(items: &[InputItem]) -> (info: HostedPairingInfo)
    ensures
        info.describes(inputs_view(items@), items@.len() as int),
{
    let ghost xs = inputs_view(items@);
    let mut info = HostedPairingInfo {
        shell_call_ids: Vec::new(),
        shell_output_ids: Vec::new(),
        tool_search_call_ids: Vec::new(),
        tool_search_output_ids: Vec::new(),
        matched_anonymous_tool_search_call_indexes: Vec::new(),
        matched_anonymous_tool_search_output_indexes: Vec::new(),
    };
    let mut anonymous_tool_search_calls: Vec<usize> = Vec::new();
    proof {
        reveal_strlit("shell_call");
        reveal_strlit("shell_call_output");
        reveal_strlit("tool_search_call");
        reveal_strlit("tool_search_output");
        assert("shell_call"@.len() == 10);
        assert("shell_call_output"@.len() == 17);
        assert("tool_search_call"@.len() == 16);
        assert("tool_search_output"@.len() == 18);
        assert(xs.subrange(0, 0) =~= Seq::<InputView>::empty());
    }
    let mut index: usize = 0;
    while index < items.len()
        invariant
            index <= items@.len(),
            xs == inputs_view(items@),
            xs.len() == items@.len(),
            info.describes(xs, index as int),
            stack_view(anonymous_tool_search_calls@) == anonymous_pairs(xs.subrange(0, index as int)).0,
            "shell_call"@ != "shell_call_output"@,
            "shell_call"@ != "tool_search_call"@,
            "shell_call"@ != "tool_search_output"@,
            "shell_call_output"@ != "tool_search_call"@,
            "shell_call_output"@ != "tool_search_output"@,
            "tool_search_call"@ != "tool_search_output"@,
        decreases items@.len() - index,
    {
        let ghost old_info = info;
        let ghost old_stack = anonymous_tool_search_calls@;
        let ghost next = xs.subrange(0, index + 1);
        proof {
            assert(next.drop_last() =~= xs.subrange(0, index as int));
            assert(next[index as int] == xs[index as int]);
            assert(xs[index as int] == items@[index as int]@);
        }
        match &items[index] {
            InputItem::Text { .. } => {},
            InputItem::Json { value } => {
                let ty = get_str(value, "type");
                let cid = call_id(value);
                match ty {
                    Some(t) => {
                        if str_eq(t, "shell_call") {
                            if let Some(c) = cid {
                                let ghost before = info.shell_call_ids@;
                                info.shell_call_ids.push(String::from_str(c));
                                assert(strs(info.shell_call_ids@) =~= strs(before).push(c@));
                            }
                        } else if str_eq(t, "shell_call_output") {
                            if let Some(c) = cid {
                                let ghost before = info.shell_output_ids@;
                                info.shell_output_ids.push(String::from_str(c));
                                assert(strs(info.shell_output_ids@) =~= strs(before).push(c@));
                            }
                        } else if str_eq(t, "tool_search_call") {
                            match cid {
                                Some(c) => {
                                    let ghost before = info.tool_search_call_ids@;
                                    info.tool_search_call_ids.push(String::from_str(c));
                                    assert(strs(info.tool_search_call_ids@) =~= strs(before).push(c@));
                                },
                                None => {
                                    anonymous_tool_search_calls.push(index);
                                    assert(stack_view(anonymous_tool_search_calls@) =~= stack_view(
                                        old_stack,
                                    ).push(index as int));
                                },
                            }
                        } else if str_eq(t, "tool_search_output") {
                            match cid {
                                Some(c) => {
                                    let ghost before = info.tool_search_output_ids@;
                                    info.tool_search_output_ids.push(String::from_str(c));
                                    assert(strs(info.tool_search_output_ids@) =~= strs(before).push(c@));
                                },
                                None => {
                                    if let Some(call_index) = anonymous_tool_search_calls.pop() {
                                        proof {
                                            lemma_has_index_push(
                                                info.matched_anonymous_tool_search_call_indexes@,
                                                call_index,
                                            );
                                            lemma_has_index_push(
                                                info.matched_anonymous_tool_search_output_indexes@,
                                                index,
                                            );
                                            assert(stack_view(anonymous_tool_search_calls@) =~= stack_view(
                                                old_stack,
                                            ).drop_last());
                                            assert(stack_view(old_stack).last() == call_index as int);
                                        }
                                        info.matched_anonymous_tool_search_call_indexes.push(call_index);
                                        info.matched_anonymous_tool_search_output_indexes.push(index);
                                    }
                                },
                            }
                        }
                    },
                    None => {},
                }
            },
        }
        proof {
            lemma_ids_step(old_info.shell_call_ids@, info.shell_call_ids@, xs, index as int, "shell_call"@);
            lemma_ids_step(
                old_info.shell_output_ids@,
                info.shell_output_ids@,
                xs,
                index as int,
                "shell_call_output"@,
            );
            lemma_ids_step(
                old_info.tool_search_call_ids@,
                info.tool_search_call_ids@,
                xs,
                index as int,
                "tool_search_call"@,
            );
            lemma_ids_step(
                old_info.tool_search_output_ids@,
                info.tool_search_output_ids@,
                xs,
                index as int,
                "tool_search_output"@,
            );
        }
        index = index + 1;
    }
    assert(xs.subrange(0, xs.len() as int) =~= xs);
    info
}

/// Whether the item at position `index` of a history is kept when it is replayed.
fn should_keep_hosted_replay_item(index: usize, item: &InputItem, pairing: &HostedPairingInfo, Ghost(
    xs,
): Ghost<Seq<InputView>>) -> (res: bool)
    requires
        index < xs.len(),
        xs[index as int] == item@,
        pairing.describes(xs, xs.len() as int),
    ensures
        res == keep_hosted(xs, index as int),
{
    assert(xs.subrange(0, xs.len() as int) =~= xs);
    let value = match item {
        InputItem::Text { .. } => {
            return true;
        },
        InputItem::Json { value } => value,
    };
    let ty = match get_str(value, "type") {
        Some(t) => t,
        None => {
            return true;
        },
    };
    if str_eq(ty, "shell_call") {
        if !is_completed_hosted_item(value) {
            return true;
        }
        match call_id(value) {
            Some(c) => contains_str(&pairing.shell_output_ids, c),
            None => false,
        }
    } else if str_eq(ty, "shell_call_output") {
        match call_id(value) {
            Some(c) => contains_str(&pairing.shell_call_ids, c),
            None => false,
        }
    } else if str_eq(ty, "tool_search_call") {
        if !is_completed_hosted_item(value) {
            return true;
        }
        match call_id(value) {
            Some(c) => contains_str(&pairing.tool_search_output_ids, c),
            None => contains_index(&pairing.matched_anonymous_tool_search_call_indexes, index),
        }
    } else if str_eq(ty, "tool_search_output") {
        match call_id(value) {
            Some(c) => contains_str(&pairing.tool_search_call_ids, c),
            None => contains_index(&pairing.matched_anonymous_tool_search_output_indexes, index),
        }
    } else {
        true
    }
}

/// The items of a history that a replay keeps: completed hosted tool calls
/// without their output, and outputs without their call, are dropped.
pub fn sanitize_hosted_tool_replay_items(items: &[InputItem]) -> (res: Vec<InputItem>)
    ensures
        inputs_view(res@) == sanitized(inputs_view(items@)),
{
    let ghost xs = inputs_view(items@);
    let pairing = hosted_pairing_info(items);
    let mut out: Vec<InputItem> = Vec::new();
    let mut i: usize = 0;
    while i < items.len()
        invariant
            i <= items@.len(),
            xs == inputs_view(items@),
            xs.len() == items@.len(),
            pairing.describes(xs, xs.len() as int),
            inputs_view(out@) == kept_prefix(xs, i as int),
        decreases items@.len() - i,
    {
        let ghost before = out@;
        assert(xs[i as int] == items@[i as int]@);
        if should_keep_hosted_replay_item(i, &items[i], &pairing, Ghost(xs)) {
            out.push(items[i].copy());
            assert(inputs_view(out@) =~= inputs_view(before).push(xs[i as int]));
        }
        i = i + 1;
    }
    out
}

/// Whether the replay keys of two items are present and the same.
pub open spec fn keys_match(a: InputView, b: InputView) -> bool {
    dedupe_key(a).is_some() && dedupe_key(a) == dedupe_key(b)
}

/// Whether the last `k` items of `base` are the first `k` generated items, with
/// at least one of them recognized by its replay key.
pub open spec fn overlaps(base: Seq<InputView>, generated: Seq<InputView>, k: int) -> bool {
    &&& 1 <= k <= base.len()
    &&& k <= generated.len()
    &&& base.subrange(base.len() - k, base.len() as int) == generated.subrange(0, k)
    &&& exists|j: int|
        0 <= j < k && #[trigger] keys_match(base[base.len() - k + j], generated[j])
}

/// The largest overlap of at most `k` items, or 0.
pub open spec fn overlap_upto(base: Seq<InputView>, generated: Seq<InputView>, k: int) -> int
    decreases k,
{
    if k <= 0 {
        0
    } else if overlaps(base, generated, k) {
        k
    } else {
        overlap_upto(base, generated, k - 1)
    }
}

/// An overlap of at most `k` items is at most `k` items.
proof fn lemma_overlap_upto_bound(base: Seq<InputView>, generated: Seq<InputView>, k: int)
    ensures
        0 <= overlap_upto(base, generated, k),
        k >= 0 ==> overlap_upto(base, generated, k) <= k,
    decreases k,
{
    if k > 0 && !overlaps(base, generated, k) {
        lemma_overlap_upto_bound(base, generated, k - 1);
    }
}

/// How many of the generated items the end of `base` already holds.
pub open spec fn trailing_overlap(base: Seq<InputView>, generated: Seq<InputView>) -> int {
    overlap_upto(
        base,
        generated,
        if base.len() <= generated.len() {
            base.len() as int
        } else {
            generated.len() as int
        },
    )
}

/// Whether the last `k` items of `base` overlap the first `k` generated items.
fn overlap_at(base_items: &[InputItem], generated_inputs: &[InputItem], k: usize) -> (res: bool)
    requires
        1 <= k <= base_items@.len(),
        k <= generated_inputs@.len(),
    ensures
        res == overlaps(inputs_view(base_items@), inputs_view(generated_inputs@), k as int),
{
    let ghost xs = inputs_view(base_items@);
    let ghost ys = inputs_view(generated_inputs@);
    let off = base_items.len() - k;
    let ghost tail = xs.subrange(off as int, xs.len() as int);
    let ghost head = ys.subrange(0, k as int);
    let mut any_key = false;
    let mut j: usize = 0;
    while j < k
        invariant
            j <= k,
            off + k == base_items@.len(),
            base_items@.len() <= usize::MAX,
            k <= generated_inputs@.len(),
            xs == inputs_view(base_items@),
            ys == inputs_view(generated_inputs@),
            tail == xs.subrange(off as int, xs.len() as int),
            head == ys.subrange(0, k as int),
            forall|m: int| 0 <= m < j ==> tail[m] == head[m],
            any_key == exists|m: int| 0 <= m < j && #[trigger] keys_match(xs[off + m], ys[m]),
        decreases k - j,
    {
        assert(tail[j as int] == xs[off + j]);
        assert(head[j as int] == ys[j as int]);
        if !base_items[off + j].same_as(&generated_inputs[j]) {
            assert(tail != head);
            return false;
        }
        let ka = stable_replay_dedupe_key(&base_items[off + j]);
        let kb = stable_replay_dedupe_key(&generated_inputs[j]);
        let hit = match (&ka, &kb) {
            (Some(a), Some(b)) => str_eq(a.as_str(), b.as_str()),
            _ => false,
        };
        assert(hit == keys_match(xs[off + j], ys[j as int]));
        if hit {
            any_key = true;
        }
        j = j + 1;
    }
    assert(tail =~= head);
    any_key
}

/// How many of the generated items the end of `base_items` already holds: the
/// largest count whose items agree and include one recognized by its replay key.
pub fn trailing_generated_overlap(base_items: &[InputItem], generated_inputs: &[InputItem]) -> (res: usize)
    ensures
        res as int == trailing_overlap(inputs_view(base_items@), inputs_view(generated_inputs@)),
{
    let max_overlap = if base_items.len() <= generated_inputs.len() {
        base_items.len()
    } else {
        generated_inputs.len()
    };
    let mut k = max_overlap;
    while k > 0
        invariant
            k <= max_overlap,
            max_overlap <= base_items@.len(),
            max_overlap <= generated_inputs@.len(),
            trailing_overlap(inputs_view(base_items@), inputs_view(generated_inputs@)) == overlap_upto(
                inputs_view(base_items@),
                inputs_view(generated_inputs@),
                k as int,
            ),
        decreases k,
    {
        if overlap_at(base_items, generated_inputs, k) {
            return k;
        }
        k = k - 1;
    }
    0
}

/// The history a resumed run replays: the kept base items followed by the
/// generated items the base does not already end with.
pub fn compose_replay_input_items(
    base_items: &[InputItem],
    generated_items: &[RunItem],
    reasoning_item_id_policy: ReasoningItemIdPolicy,
) -> (res: Vec<InputItem>)
    ensures
        inputs_view(res@) == sanitized(inputs_view(base_items@)) + replayed(
            runs_view(generated_items@),
            reasoning_item_id_policy,
        ).skip(
            trailing_overlap(
                inputs_view(base_items@),
                replayed(runs_view(generated_items@), reasoning_item_id_policy),
            ),
        ),
{
    let mut replay = sanitize_hosted_tool_replay_items(base_items);
    let generated_inputs = run_items_to_input_items(generated_items, reasoning_item_id_policy);
    let overlap = trailing_generated_overlap(base_items, generated_inputs.as_slice());
    let ghost base = inputs_view(replay@);
    let ghost gen = inputs_view(generated_inputs@);
    proof {
        let m = if base_items@.len() <= gen.len() {
            base_items@.len() as int
        } else {
            gen.len() as int
        };
        lemma_overlap_upto_bound(inputs_view(base_items@), gen, m);
        assert(gen.subrange(overlap as int, overlap as int) =~= Seq::<InputView>::empty());
        assert(base + Seq::<InputView>::empty() =~= base);
    }
    let mut i: usize = overlap;
    while i < generated_inputs.len()
        invariant
            overlap <= i <= generated_inputs@.len(),
            gen == inputs_view(generated_inputs@),
            inputs_view(replay@) == base + gen.subrange(overlap as int, i as int),
        decreases generated_inputs@.len() - i,
    {
        let ghost before = replay@;
        replay.push(generated_inputs[i].copy());
        assert(inputs_view(replay@) =~= inputs_view(before).push(gen[i as int]));
        assert(gen.subrange(overlap as int, i + 1) =~= gen.subrange(overlap as int, i as int).push(
            gen[i as int],
        ));
        i = i + 1;
    }
    assert(gen.subrange(overlap as int, gen.len() as int) =~= gen.skip(overlap as int));
    replay
}

/// Whether an item is a hosted tool call or output.
pub open spec fn is_hosted_item(x: InputView) -> bool {
    x matches InputView::Json(w) && (item_type_of(w) == Some("shell_call"@) || item_type_of(w) == Some(
        "shell_call_output"@,
    ) || item_type_of(w) == Some("tool_search_call"@) || item_type_of(w) == Some(
        "tool_search_output"@,
    ))
}

/// A history without hosted tool items is replayed as it is.
pub proof fn law_replay_keeps_history_without_hosted_items(items: Seq<InputView>)
    requires
        forall|i: int| 0 <= i < items.len() ==> !is_hosted_item(#[trigger] items[i]),
    ensures
        sanitized(items) == items,
{
    assert forall|n: int| 0 <= n <= items.len() implies #[trigger] kept_prefix(items, n) == items.subrange(
        0,
        n,
    ) by {
        lemma_kept_prefix_all(items, n);
    }
    assert(items.subrange(0, items.len() as int) =~= items);
}

/// Every item of a history without hosted tool items is kept.
proof fn lemma_kept_prefix_all(items: Seq<InputView>, n: int)
    requires
        0 <= n <= items.len(),
        forall|i: int| 0 <= i < items.len() ==> !is_hosted_item(#[trigger] items[i]),
    ensures
        kept_prefix(items, n) == items.subrange(0, n),
    decreases n,
{
    if n > 0 {
        lemma_kept_prefix_all(items, n - 1);
        assert(!is_hosted_item(items[n - 1]));
        assert(keep_hosted(items, n - 1));
        assert(items.subrange(0, n) =~= items.subrange(0, n - 1).push(items[n - 1]));
    } else {
        assert(items.subrange(0, 0) =~= Seq::<InputView>::empty());
    }
}

/// When the history already ends with the generated items, one of which is
/// recognized by its replay key, they are not replayed a second time.
pub proof fn law_replay_does_not_duplicate_generated_items(
    earlier: Seq<InputView>,
    generated: Seq<InputView>,
    j: int,
)
    requires
        0 <= j < generated.len(),
        dedupe_key(generated[j]).is_some(),
    ensures
        trailing_overlap(earlier + generated, generated) == generated.len(),
        generated.skip(trailing_overlap(earlier + generated, generated)).len() == 0,
{
    let base = earlier + generated;
    let k = generated.len() as int;
    assert(base.subrange(base.len() - k, base.len() as int) =~= generated.subrange(0, k));
    assert(base[base.len() - k + j] == generated[j]);
    assert(keys_match(base[base.len() - k + j], generated[j]));
    assert(overlaps(base, generated, k));
}

/// Generated items are replayed one for one, in order: every item under the
/// preserving policy, and every item but reasoning under the omitting policy.
pub proof fn law_replay_policy(runs: Seq<RunView>)
    ensures
        replayed(runs, ReasoningItemIdPolicy::Preserve) == runs.map_values(|r: RunView| run_as_input(r)),
        replayed(runs, ReasoningItemIdPolicy::Omit) == runs.filter(|r: RunView| !(r is Reasoning)).map_values(
            |r: RunView| run_as_input(r),
        ),
    decreases runs.len(),
{
    if runs.len() == 0 {
        reveal(Seq::filter);
        assert(runs.map_values(|r: RunView| run_as_input(r)) =~= Seq::<InputView>::empty());
        assert(runs.filter(|r: RunView| !(r is Reasoning)).map_values(|r: RunView| run_as_input(r))
            =~= Seq::<InputView>::empty());
    } else {
        let p = runs.drop_last();
        let x = runs.last();
        law_replay_policy(p);
        assert(runs =~= p.push(x));
        assert(runs.map_values(|r: RunView| run_as_input(r)) =~= p.map_values(|r: RunView| run_as_input(r)).push(
            run_as_input(x),
        ));
        p.lemma_filter_push(x, |r: RunView| !(r is Reasoning));
        let f = p.filter(|r: RunView| !(r is Reasoning));
        assert(f.push(x).map_values(|r: RunView| run_as_input(r)) =~= f.map_values(|r: RunView| run_as_input(r)).push(
            run_as_input(x),
        ));
    }
}

} // verus!
