//! Nesting the conversation so far into one summary message when a run hands
//! off to another agent, and reading such a summary back into items.
use vstd::prelude::*;

use crate::items::{
    inputs_view, member, object2, run_as_input, runs_view, InputItem, InputView, RunItem, RunView,
};
use crate::json::{get_str, json_get, json_str_member, json_to_string, json_text, json_view, Json, JsonValue};
use crate::lines::{
    decimal, find_chars, find_seq, lines, lines_of, parses_as_usize, parses_usize, push_decimal,
    slice_chars, split_once, split_once_spec, string_of,
};
use crate::text::{chars_of, concat2, concat3, copy_string, join_strings, join_with, lines_view, trim_chars, trim_view};

verus! {

/// The line that opens a nested history by default.
pub const DEFAULT_CONVERSATION_HISTORY_START: &'static str = "<CONVERSATION HISTORY>";

/// The line that closes a nested history by default.
pub const DEFAULT_CONVERSATION_HISTORY_END: &'static str = "</CONVERSATION HISTORY>";

/// The first line of a summary message.
pub const HISTORY_SUMMARY_INTRO: &'static str =
    "For context, here is the conversation so far between the user and the previous agent:";

/// The summary line of an empty history.
pub const EMPTY_HISTORY_LINE: &'static str = "(no previous turns recorded)";

/// The lines that open and close a nested history.
pub struct HistoryWrappers {
    pub start: String,
    pub end: String,
}

impl HistoryWrappers {
    /// The default wrapper lines.
    pub fn new() -> (res: HistoryWrappers)
        ensures
            res.start@ == DEFAULT_CONVERSATION_HISTORY_START@,
            res.end@ == DEFAULT_CONVERSATION_HISTORY_END@,
    {
        HistoryWrappers {
            start: String::from_str(DEFAULT_CONVERSATION_HISTORY_START),
            end: String::from_str(DEFAULT_CONVERSATION_HISTORY_END),
        }
    }
}

/// Replaces the wrapper lines that are given.
pub fn set_conversation_history_wrappers(wrappers: &mut HistoryWrappers, start: Option<&str>, end: Option<&str>)
    ensures
        final(wrappers).start@ == match start {
            Some(s) => s@,
            None => old(wrappers).start@,
        },
        final(wrappers).end@ == match end {
            Some(e) => e@,
            None => old(wrappers).end@,
        },
{
    if let Some(s) = start {
        wrappers.start = String::from_str(s);
    }
    if let Some(e) = end {
        wrappers.end = String::from_str(e);
    }
}

/// Restores the default wrapper lines.
pub fn reset_conversation_history_wrappers(wrappers: &mut HistoryWrappers)
    ensures
        final(wrappers).start@ == DEFAULT_CONVERSATION_HISTORY_START@,
        final(wrappers).end@ == DEFAULT_CONVERSATION_HISTORY_END@,
{
    *wrappers = HistoryWrappers::new();
}

/// The wrapper lines.
pub fn get_conversation_history_wrappers(wrappers: &HistoryWrappers) -> (res: (String, String))
    ensures
        res.0@ == wrappers.start@,
        res.1@ == wrappers.end@,
{
    (copy_string(&wrappers.start), copy_string(&wrappers.end))
}

/// The text of a value in a summary line: a string as it is, anything else as
/// compact JSON.
pub open spec fn stringify(v: Json) -> Seq<char> {
    match v {
        Json::Str(t) => t,
        _ => json_text(v),
    }
}

/// How an item reads in a summary: `user: text` for text; `role: content` (or
/// the role alone when the content is empty) for messages; `type: json` else.
pub open spec fn format_item(x: InputView) -> Seq<char> {
    match x {
        InputView::Text(t) => "user: "@ + t,
        InputView::Json(v) => match json_str_member(v, "role"@) {
            Some(role) => {
                let content = match json_get(v, "content"@) {
                    Some(c) => stringify(c),
                    None => Seq::empty(),
                };
                if content.len() == 0 {
                    role
                } else {
                    role + ": "@ + content
                }
            },
            None => {
                let ty = match json_str_member(v, "type"@) {
                    Some(t) => t,
                    None => "item"@,
                };
                ty + ": "@ + stringify(v)
            },
        },
    }
}

/// The numbered summary lines of a transcript.
pub open spec fn summary_lines(t: Seq<InputView>) -> Seq<Seq<char>> {
    if t.len() == 0 {
        seq![EMPTY_HISTORY_LINE@]
    } else {
        Seq::new(t.len(), |i: int| decimal((i + 1) as nat) + ". "@ + format_item(t[i]))
    }
}

/// The text of the summary message of a transcript.
pub open spec fn summary_text(t: Seq<InputView>, start: Seq<char>, end: Seq<char>) -> Seq<char> {
    join_with(seq![HISTORY_SUMMARY_INTRO@, start] + summary_lines(t) + seq![end], "\n"@)
}

/// The assistant message holding `content`.
pub open spec fn assistant_message(content: Seq<char>) -> InputView {
    InputView::Json(Json::Object(seq![("content"@, Json::Str(content)), ("role"@, Json::Str("assistant"@))]))
}

/// The message `role: content` read back from a summary line.
pub open spec fn role_message(role: Seq<char>, content: Seq<char>) -> InputView {
    InputView::Json(Json::Object(seq![("content"@, Json::Str(content)), ("role"@, Json::Str(role))]))
}

/// A summary line without its number.
pub open spec fn unnumbered(line: Seq<char>) -> Seq<char> {
    let body = match split_once_spec(line, '.') {
        Some((prefix, rest)) => if parses_as_usize(prefix) {
            trim_view(rest)
        } else {
            line
        },
        None => line,
    };
    trim_view(body)
}

/// The message a summary line stands for: `role: content` with content.
pub open spec fn parse_line(line: Seq<char>) -> Option<InputView> {
    match split_once_spec(unnumbered(line), ':') {
        None => None,
        Some((role, rest)) => if trim_view(rest).len() == 0 {
            None
        } else {
            Some(role_message(trim_view(role), trim_view(rest)))
        },
    }
}

/// The messages the non-blank lines of a summary body stand for.
pub open spec fn parsed_lines(ls: Seq<Seq<char>>) -> Seq<InputView>
    decreases ls.len(),
{
    if ls.len() == 0 {
        Seq::empty()
    } else {
        let prev = parsed_lines(ls.drop_last());
        let t = trim_view(ls.last());
        if t.len() == 0 {
            prev
        } else {
            match parse_line(t) {
                Some(x) => prev.push(x),
                None => prev,
            }
        }
    }
}

/// The string content of a JSON item.
pub open spec fn content_text(x: InputView) -> Option<Seq<char>> {
    match x {
        InputView::Json(v) => match json_get(v, "content"@) {
            Some(Json::Str(c)) => Some(c),
            _ => None,
        },
        InputView::Text(_) => None,
    }
}

/// Whether an item's content, when it holds both wrapper lines with the end
/// after the start, holds the whole start line before the end line.
pub open spec fn markers_in_order(x: InputView, start: Seq<char>, end: Seq<char>) -> bool {
    match content_text(x) {
        Some(c) => match (find_seq(c, start), find_seq(c, end)) {
            (Some(si), Some(ei)) => si < ei ==> si + start.len() <= ei,
            _ => true,
        },
        None => true,
    }
}

/// The transcript nested in a summary message, if the item is one.
pub open spec fn nested_transcript(x: InputView, start: Seq<char>, end: Seq<char>) -> Option<Seq<InputView>> {
    match content_text(x) {
        Some(c) => match (find_seq(c, start), find_seq(c, end)) {
            (Some(si), Some(ei)) => if ei <= si {
                None
            } else {
                Some(parsed_lines(lines_of(c.subrange(si + start.len(), ei))))
            },
            _ => None,
        },
        None => None,
    }
}

/// A history with each nested summary replaced by the transcript it holds.
pub open spec fn flattened(items: Seq<InputView>, start: Seq<char>, end: Seq<char>) -> Seq<InputView>
    decreases items.len(),
{
    if items.len() == 0 {
        Seq::empty()
    } else {
        flattened(items.drop_last(), start, end) + match nested_transcript(items.last(), start, end) {
            Some(t) => t,
            None => seq![items.last()],
        }
    }
}

/// The input items run items are replayed as.
pub open spec fn runs_as_inputs(runs: Seq<RunView>) -> Seq<InputView> {
    runs.map_values(|r: RunView| run_as_input(r))
}

/// The transcript a handoff summarizes: the flattened history, then the items
/// before the handoff, then the new items.
pub open spec fn transcript(
    history: Seq<InputView>,
    pre: Seq<RunView>,
    new: Seq<RunView>,
    start: Seq<char>,
    end: Seq<char>,
) -> Seq<InputView> {
    flattened(history, start, end) + runs_as_inputs(pre) + runs_as_inputs(new)
}

/// Whether a run item is passed on to the next agent: tool calls, tool outputs
/// and reasoning are not.
pub open spec fn forwards(r: RunView) -> bool {
    !(r is ToolCall || r is ToolCallOutput || r is Reasoning)
}

/// The run items passed on to the next agent, in order.
pub open spec fn forwarded(runs: Seq<RunView>) -> Seq<RunView>
    decreases runs.len(),
{
    if runs.len() == 0 {
        Seq::empty()
    } else if forwards(runs.last()) {
        forwarded(runs.drop_last()).push(runs.last())
    } else {
        forwarded(runs.drop_last())
    }
}

/// The text of a value in a summary line.
fn stringify_content(value: &JsonValue) -> (res: String)
    ensures
        res@ == stringify(json_view(*value)),
{
    match value {
        JsonValue::String(text) => copy_string(text),
        _ => json_to_string(value),
    }
}

/// How an item reads in a summary.
pub fn format_transcript_item(item: &InputItem) -> (res: String)
    ensures
        res@ == format_item(item@),
{
    match item {
        InputItem::Text { text } => concat2("user: ", text.as_str()),
        InputItem::Json { value } => match get_str(value, "role") {
            Some(role) => {
                let content = match value.get("content") {
                    Some(c) => stringify_content(c),
                    None => String::new(),
                };
                if content.unicode_len() == 0 {
                    String::from_str(role)
                } else {
                    concat3(role, ": ", content.as_str())
                }
            },
            None => {
                let ty = match get_str(value, "type") {
                    Some(t) => t,
                    None => "item",
                };
                let body = stringify_content(value);
                concat3(ty, ": ", body.as_str())
            },
        },
    }
}

/// The summary message of a transcript, between the wrapper lines.
pub fn build_summary_message(transcript: &[InputItem], wrappers: &HistoryWrappers) -> (res: InputItem)
    ensures
        res@ == assistant_message(summary_text(inputs_view(transcript@), wrappers.start@, wrappers.end@)),
{
    let ghost t = inputs_view(transcript@);
    let mut parts: Vec<String> = Vec::new();
    parts.push(String::from_str(HISTORY_SUMMARY_INTRO));
    parts.push(copy_string(&wrappers.start));
    let ghost head = seq![HISTORY_SUMMARY_INTRO@, wrappers.start@];
    assert(lines_view(parts@) =~= head);
    if transcript.len() == 0 {
        parts.push(String::from_str(EMPTY_HISTORY_LINE));
        assert(lines_view(parts@) =~= head + summary_lines(t));
    } else {
        let mut i: usize = 0;
        while i < transcript.len()
            invariant
                i <= transcript@.len(),
                t == inputs_view(transcript@),
                t.len() > 0,
                lines_view(parts@) == head + summary_lines(t).subrange(0, i as int),
            decreases transcript@.len() - i,
        {
            let ghost before = parts@;
            let mut line = String::new();
            push_decimal(&mut line, i + 1);
            line.append(". ");
            let item_text = format_transcript_item(&transcript[i]);
            line.append(item_text.as_str());
            assert(t[i as int] == transcript@[i as int]@);
            assert(line@ == summary_lines(t)[i as int]);
            parts.push(line);
            assert(lines_view(parts@) =~= lines_view(before).push(summary_lines(t)[i as int]));
            assert(summary_lines(t).subrange(0, i + 1) =~= summary_lines(t).subrange(0, i as int).push(
                summary_lines(t)[i as int],
            ));
            i = i + 1;
        }
        assert(summary_lines(t).subrange(0, t.len() as int) =~= summary_lines(t));
    }
    let ghost before = parts@;
    parts.push(copy_string(&wrappers.end));
    assert(lines_view(parts@) =~= lines_view(before).push(wrappers.end@));
    assert(lines_view(parts@) =~= seq![HISTORY_SUMMARY_INTRO@, wrappers.start@] + summary_lines(t) + seq![
        wrappers.end@,
    ]);
    let content = join_strings(&parts, "\n");
    InputItem::Json {
        value: object2(
            member("content", JsonValue::String(content)),
            member("role", JsonValue::String(String::from_str("assistant"))),
        ),
    }
}

/// The summary that replaces a history by default: one message.
pub fn default_handoff_history_mapper(transcript: Vec<InputItem>, wrappers: &HistoryWrappers) -> (res: Vec<
    InputItem,
>)
    ensures
        inputs_view(res@) == seq![
            assistant_message(summary_text(inputs_view(transcript@), wrappers.start@, wrappers.end@)),
        ],
{
    let m = build_summary_message(transcript.as_slice(), wrappers);
    let mut out: Vec<InputItem> = Vec::new();
    out.push(m);
    assert(inputs_view(out@) =~= seq![m@]);
    out
}

/// The message a summary line stands for, if it reads `role: content`.
fn parse_summary_line(line: &Vec<char>) -> (res: Option<InputItem>)
    ensures
        match res {
            Some(x) => parse_line(line@) == Some(x@),
            None => parse_line(line@).is_none(),
        },
{
    let body = match split_once(line, '.') {
        Some((prefix, rest)) => if parses_usize(&prefix) {
            trim_chars(&rest)
        } else {
            slice_chars(line, 0, line.len())
        },
        None => slice_chars(line, 0, line.len()),
    };
    assert(line@.subrange(0, line@.len() as int) =~= line@);
    let stripped = trim_chars(&body);
    assert(stripped@ == unnumbered(line@));
    match split_once(&stripped, ':') {
        None => None,
        Some((role, rest)) => {
            let content = trim_chars(&rest);
            if content.len() == 0 {
                None
            } else {
                let role_text = trim_chars(&role);
                Some(
                    InputItem::Json {
                        value: object2(
                            member("content", JsonValue::String(string_of(&content))),
                            member("role", JsonValue::String(string_of(&role_text))),
                        ),
                    },
                )
            }
        },
    }
}

/// The messages the non-blank lines of a summary body stand for.
fn parse_summary_body(body: &Vec<char>) -> (res: Vec<InputItem>)
    ensures
        inputs_view(res@) == parsed_lines(lines_of(body@)),
{
    let ls = lines(body);
    let ghost lv = ls@.map_values(|p: Vec<char>| p@);
    let mut out: Vec<InputItem> = Vec::new();
    let mut i: usize = 0;
    while i < ls.len()
        invariant
            i <= ls@.len(),
            lv == ls@.map_values(|p: Vec<char>| p@),
            lv == lines_of(body@),
            inputs_view(out@) == parsed_lines(lv.subrange(0, i as int)),
        decreases ls@.len() - i,
    {
        let ghost before = out@;
        let ghost next = lv.subrange(0, i + 1);
        assert(next.drop_last() =~= lv.subrange(0, i as int));
        assert(next.last() == ls@[i as int]@);
        let t = trim_chars(&ls[i]);
        if t.len() > 0 {
            match parse_summary_line(&t) {
                Some(x) => {
                    out.push(x);
                    assert(inputs_view(out@) =~= inputs_view(before).push(x@));
                },
                None => {},
            }
        }
        i = i + 1;
    }
    assert(lv.subrange(0, lv.len() as int) =~= lv);
    out
}

/// The transcript nested in a summary message, if the item is one.
pub fn extract_nested_history_transcript(item: &InputItem, wrappers: &HistoryWrappers) -> (res: Option<
    Vec<InputItem>,
>)
    requires
        markers_in_order(item@, wrappers.start@, wrappers.end@),
    ensures
        match res {
            Some(v) => nested_transcript(item@, wrappers.start@, wrappers.end@) == Some(inputs_view(v@)),
            None => nested_transcript(item@, wrappers.start@, wrappers.end@).is_none(),
        },
{
    let value = match item {
        InputItem::Json { value } => value,
        InputItem::Text { .. } => {
            return None;
        },
    };
    let content = match value.get("content") {
        Some(c) => match c.as_str() {
            Some(t) => t,
            None => {
                return None;
            },
        },
        None => {
            return None;
        },
    };
    assert(content_text(item@) == Some(content@));
    let c = chars_of(content);
    let start_marker = chars_of(wrappers.start.as_str());
    let end_marker = chars_of(wrappers.end.as_str());
    let start_idx = match find_chars(&c, &start_marker) {
        Some(i) => i,
        None => {
            return None;
        },
    };
    let end_idx = match find_chars(&c, &end_marker) {
        Some(i) => i,
        None => {
            return None;
        },
    };
    if end_idx <= start_idx {
        return None;
    }
    proof {
        crate::lines::lemma_find_from(c@, end_marker@, 0);
    }
    let body = slice_chars(&c, start_idx + start_marker.len(), end_idx);
    Some(parse_summary_body(&body))
}

/// Whether every item of a history has its wrapper lines in order.
pub open spec fn history_markers_in_order(items: Seq<InputView>, start: Seq<char>, end: Seq<char>) -> bool {
    forall|i: int| 0 <= i < items.len() ==> #[trigger] markers_in_order(items[i], start, end)
}

/// Whether an item's content, when it holds both wrapper lines with the end
/// after the start, holds the whole start line before the end line.
fn item_markers_in_order(item: &InputItem, wrappers: &HistoryWrappers) -> (res: bool)
    ensures
        res == markers_in_order(item@, wrappers.start@, wrappers.end@),
{
    let value = match item {
        InputItem::Json { value } => value,
        InputItem::Text { .. } => {
            return true;
        },
    };
    let content = match value.get("content") {
        Some(c) => match c.as_str() {
            Some(t) => t,
            None => {
                return true;
            },
        },
        None => {
            return true;
        },
    };
    assert(content_text(item@) == Some(content@));
    let c = chars_of(content);
    let start_marker = chars_of(wrappers.start.as_str());
    let end_marker = chars_of(wrappers.end.as_str());
    match (find_chars(&c, &start_marker), find_chars(&c, &end_marker)) {
        (Some(si), Some(ei)) => !(si < ei) || si as u128 + start_marker.len() as u128 <= ei as u128,
        _ => true,
    }
}

/// Whether every item of a history has its wrapper lines in order, as
/// nesting the history needs.
pub fn history_markers_ordered(items: &[InputItem], wrappers: &HistoryWrappers) -> (res: bool)
    ensures
        res == history_markers_in_order(inputs_view(items@), wrappers.start@, wrappers.end@),
{
    let ghost xs = inputs_view(items@);
    let mut i: usize = 0;
    while i < items.len()
        invariant
            i <= items@.len(),
            xs == inputs_view(items@),
            forall|j: int| 0 <= j < i ==> #[trigger] markers_in_order(xs[j], wrappers.start@, wrappers.end@),
        decreases items@.len() - i,
    {
        assert(xs[i as int] == items@[i as int]@);
        if !item_markers_in_order(&items[i], wrappers) {
            return false;
        }
        i = i + 1;
    }
    true
}

/// A history with each nested summary replaced by the transcript it holds.
pub fn flatten_nested_history_messages(items: &[InputItem], wrappers: &HistoryWrappers) -> (res: Vec<
    InputItem,
>)
    requires
        history_markers_in_order(inputs_view(items@), wrappers.start@, wrappers.end@),
    ensures
        inputs_view(res@) == flattened(inputs_view(items@), wrappers.start@, wrappers.end@),
{
    let ghost xs = inputs_view(items@);
    let mut out: Vec<InputItem> = Vec::new();
    let mut i: usize = 0;
    while i < items.len()
        invariant
            i <= items@.len(),
            xs == inputs_view(items@),
            history_markers_in_order(xs, wrappers.start@, wrappers.end@),
            inputs_view(out@) == flattened(xs.subrange(0, i as int), wrappers.start@, wrappers.end@),
        decreases items@.len() - i,
    {
        let ghost before = inputs_view(out@);
        let ghost next = xs.subrange(0, i + 1);
        assert(next.drop_last() =~= xs.subrange(0, i as int));
        assert(next.last() == items@[i as int]@);
        assert(markers_in_order(xs[i as int], wrappers.start@, wrappers.end@));
        match extract_nested_history_transcript(&items[i], wrappers) {
            Some(parsed) => {
                let mut k: usize = 0;
                while k < parsed.len()
                    invariant
                        k <= parsed@.len(),
                        inputs_view(out@) == before + inputs_view(parsed@).subrange(0, k as int),
                    decreases parsed@.len() - k,
                {
                    let ghost b2 = out@;
                    out.push(parsed[k].copy());
                    assert(inputs_view(out@) =~= inputs_view(b2).push(parsed@[k as int]@));
                    assert(inputs_view(parsed@).subrange(0, k + 1) =~= inputs_view(parsed@).subrange(
                        0,
                        k as int,
                    ).push(parsed@[k as int]@));
                    k = k + 1;
                }
                assert(inputs_view(parsed@).subrange(0, parsed@.len() as int) =~= inputs_view(parsed@));
            },
            None => {
                out.push(items[i].copy());
                assert(inputs_view(out@) =~= before + seq![xs[i as int]]);
            },
        }
        i = i + 1;
    }
    assert(xs.subrange(0, xs.len() as int) =~= xs);
    out
}

/// Appends the input items run items are replayed as.
fn push_run_inputs(out: &mut Vec<InputItem>, runs: &[RunItem])
    ensures
        inputs_view(final(out)@) == inputs_view(old(out)@) + runs_as_inputs(runs_view(runs@)),
{
    let ghost start = inputs_view(out@);
    let mut i: usize = 0;
    while i < runs.len()
        invariant
            i <= runs@.len(),
            inputs_view(out@) == start + runs_as_inputs(runs_view(runs@)).subrange(0, i as int),
        decreases runs@.len() - i,
    {
        let ghost before = out@;
        match runs[i].to_input_item() {
            Some(x) => {
                out.push(x);
                assert(inputs_view(out@) =~= inputs_view(before).push(run_as_input(runs@[i as int]@)));
            },
            None => {},
        }
        assert(runs_as_inputs(runs_view(runs@)).subrange(0, i + 1) =~= runs_as_inputs(runs_view(runs@)).subrange(
            0,
            i as int,
        ).push(run_as_input(runs@[i as int]@)));
        i = i + 1;
    }
    assert(runs_as_inputs(runs_view(runs@)).subrange(0, runs@.len() as int) =~= runs_as_inputs(
        runs_view(runs@),
    ));
}

/// The transcript a handoff summarizes.
pub fn build_transcript(
    input_history: &[InputItem],
    pre_handoff_items: &[RunItem],
    new_items: &[RunItem],
    wrappers: &HistoryWrappers,
) -> (res: Vec<InputItem>)
    requires
        history_markers_in_order(inputs_view(input_history@), wrappers.start@, wrappers.end@),
    ensures
        inputs_view(res@) == transcript(
            inputs_view(input_history@),
            runs_view(pre_handoff_items@),
            runs_view(new_items@),
            wrappers.start@,
            wrappers.end@,
        ),
{
    let mut t = flatten_nested_history_messages(input_history, wrappers);
    push_run_inputs(&mut t, pre_handoff_items);
    push_run_inputs(&mut t, new_items);
    t
}

/// Whether a run item is passed on to the next agent.
pub fn should_forward_run_item(item: &RunItem) -> (res: bool)
    ensures
        res == forwards(item@),
{
    match item {
        RunItem::ToolCall { .. } | RunItem::ToolCallOutput { .. } | RunItem::Reasoning { .. } => false,
        _ => true,
    }
}

/// The run items passed on to the next agent.
fn forwarded_items(runs: &Vec<RunItem>) -> (res: Vec<RunItem>)
    ensures
        runs_view(res@) == forwarded(runs_view(runs@)),
{
    let mut out: Vec<RunItem> = Vec::new();
    let mut i: usize = 0;
    while i < runs.len()
        invariant
            i <= runs@.len(),
            runs_view(out@) == forwarded(runs_view(runs@.subrange(0, i as int))),
        decreases runs@.len() - i,
    {
        let ghost before = out@;
        let ghost next = runs_view(runs@.subrange(0, i + 1));
        assert(next.drop_last() =~= runs_view(runs@.subrange(0, i as int)));
        assert(next.last() == runs@[i as int]@);
        if should_forward_run_item(&runs[i]) {
            out.push(runs[i].copy());
            assert(runs_view(out@) =~= runs_view(before).push(runs@[i as int]@));
        }
        i = i + 1;
    }
    assert(runs@.subrange(0, runs@.len() as int) =~= runs@);
    out
}

/// Copies run items.
pub(crate) fn copy_run_items(runs: &Vec<RunItem>) -> (res: Vec<RunItem>)
    ensures
        runs_view(res@) == runs_view(runs@),
{
    let mut out: Vec<RunItem> = Vec::new();
    let mut i: usize = 0;
    while i < runs.len()
        invariant
            i <= runs@.len(),
            runs_view(out@) == runs_view(runs@).subrange(0, i as int),
        decreases runs@.len() - i,
    {
        let ghost before = out@;
        out.push(runs[i].copy());
        assert(runs_view(out@) =~= runs_view(before).push(runs@[i as int]@));
        assert(runs_view(runs@).subrange(0, i + 1) =~= runs_view(runs@).subrange(0, i as int).push(
            runs@[i as int]@,
        ));
        i = i + 1;
    }
    assert(runs_view(runs@).subrange(0, runs@.len() as int) =~= runs_view(runs@));
    out
}

/// What a handoff passes to the next agent.
pub struct HandoffInputData {
    pub input_history: Vec<InputItem>,
    pub pre_handoff_items: Vec<RunItem>,
    pub new_items: Vec<RunItem>,
    pub input_items: Option<Vec<RunItem>>,
}

/// The run items of an optional list.
pub open spec fn opt_runs_view(v: Option<Vec<RunItem>>) -> Option<Seq<RunView>> {
    match v {
        Some(v) => Some(runs_view(v@)),
        None => None,
    }
}

impl HandoffInputData {
    /// A copy of this data with `input_items` in place of its own.
    pub fn clone_with(&self, input_items: Option<Vec<RunItem>>) -> (res: Self)
        ensures
            inputs_view(res.input_history@) == inputs_view(self.input_history@),
            runs_view(res.pre_handoff_items@) == runs_view(self.pre_handoff_items@),
            runs_view(res.new_items@) == runs_view(self.new_items@),
            opt_runs_view(res.input_items) == opt_runs_view(input_items),
    {
        HandoffInputData {
            input_history: crate::items::copy_input_items(self.input_history.as_slice()),
            pre_handoff_items: copy_run_items(&self.pre_handoff_items),
            new_items: copy_run_items(&self.new_items),
            input_items,
        }
    }
}

/// Nests the history of a handoff into one summary message.
pub fn nest_handoff_history(input_data: HandoffInputData, wrappers: &HistoryWrappers) -> (res: HandoffInputData)
    requires
        history_markers_in_order(inputs_view(input_data.input_history@), wrappers.start@, wrappers.end@),
    ensures
        inputs_view(res.input_history@) == seq![
            assistant_message(
                summary_text(
                    transcript(
                        inputs_view(input_data.input_history@),
                        runs_view(input_data.pre_handoff_items@),
                        runs_view(input_data.new_items@),
                        wrappers.start@,
                        wrappers.end@,
                    ),
                    wrappers.start@,
                    wrappers.end@,
                ),
            ),
        ],
        runs_view(res.pre_handoff_items@) == forwarded(runs_view(input_data.pre_handoff_items@)),
        runs_view(res.new_items@) == runs_view(input_data.new_items@),
        opt_runs_view(res.input_items) == Some(forwarded(runs_view(input_data.new_items@))),
{
    let t = build_transcript(
        input_data.input_history.as_slice(),
        input_data.pre_handoff_items.as_slice(),
        input_data.new_items.as_slice(),
        wrappers,
    );
    let mapped = default_handoff_history_mapper(t, wrappers);
    HandoffInputData {
        input_history: mapped,
        pre_handoff_items: forwarded_items(&input_data.pre_handoff_items),
        new_items: copy_run_items(&input_data.new_items),
        input_items: Some(forwarded_items(&input_data.new_items)),
    }
}

/// Nests the history of a handoff: `history_mapper`, when given, turns the
/// transcript into the next agent's history; else one summary message does.
pub fn nest_handoff_history_with_mapper<F: Fn(Vec<InputItem>) -> Vec<InputItem>>(
    input_data: HandoffInputData,
    history_mapper: Option<F>,
    wrappers: &HistoryWrappers,
) -> (res: HandoffInputData)
    requires
        history_markers_in_order(inputs_view(input_data.input_history@), wrappers.start@, wrappers.end@),
        history_mapper matches Some(f) ==> forall|v: Vec<InputItem>| #[trigger] f.requires((v,)),
    ensures
        match history_mapper {
            Some(f) => exists|t: Vec<InputItem>|
                inputs_view(t@) == transcript(
                    inputs_view(input_data.input_history@),
                    runs_view(input_data.pre_handoff_items@),
                    runs_view(input_data.new_items@),
                    wrappers.start@,
                    wrappers.end@,
                ) && #[trigger] f.ensures((t,), res.input_history),
            None => inputs_view(res.input_history@) == seq![
                assistant_message(
                    summary_text(
                        transcript(
                            inputs_view(input_data.input_history@),
                            runs_view(input_data.pre_handoff_items@),
                            runs_view(input_data.new_items@),
                            wrappers.start@,
                            wrappers.end@,
                        ),
                        wrappers.start@,
                        wrappers.end@,
                    ),
                ),
            ],
        },
        runs_view(res.pre_handoff_items@) == forwarded(runs_view(input_data.pre_handoff_items@)),
        runs_view(res.new_items@) == runs_view(input_data.new_items@),
        opt_runs_view(res.input_items) == Some(forwarded(runs_view(input_data.new_items@))),
{
    let t = build_transcript(
        input_data.input_history.as_slice(),
        input_data.pre_handoff_items.as_slice(),
        input_data.new_items.as_slice(),
        wrappers,
    );
    let ghost tv = t;
    let ghost hm = history_mapper;
    let mapped = match history_mapper {
        Some(f) => f(t),
        None => default_handoff_history_mapper(t, wrappers),
    };
    let res = HandoffInputData {
        input_history: mapped,
        pre_handoff_items: forwarded_items(&input_data.pre_handoff_items),
        new_items: copy_run_items(&input_data.new_items),
        input_items: Some(forwarded_items(&input_data.new_items)),
    };
    proof {
        if let Some(f) = hm {
            assert(f.ensures((tv,), res.input_history));
            assert(inputs_view(tv@) == transcript(
                inputs_view(input_data.input_history@),
                runs_view(input_data.pre_handoff_items@),
                runs_view(input_data.new_items@),
                wrappers.start@,
                wrappers.end@,
            ));
        }
    }
    res
}

/// Whether a role or content text can stand in a summary line unchanged: it is
/// non-empty and neither starts nor ends with white space.
pub open spec fn trimmed_text(t: Seq<char>) -> bool {
    t.len() > 0 && !crate::text::is_white_space(t[0]) && !crate::text::is_white_space(t.last())
}

/// Whether `t` holds the character `c`.
pub open spec fn holds_char(t: Seq<char>, c: char) -> bool {
    exists|i: int| 0 <= i < t.len() && t[i] == c
}

/// A message summarized as `role: content` reads its role and content back.
proof fn lemma_format_role_message(role: Seq<char>, content: Seq<char>)
    requires
        content.len() > 0,
    ensures
        format_item(role_message(role, content)) == role + ": "@ + content,
{
    reveal_strlit("role");
    reveal_strlit("content");
    let ms = seq![("content"@, Json::Str(content)), ("role"@, Json::Str(role))];
    assert("content"@ != "role"@) by {
        assert("content"@.len() != "role"@.len());
    }
    let tail = ms.subrange(1, ms.len() as int);
    assert(tail =~= seq![("role"@, Json::Str(role))]);
    assert(tail[0].0 == "role"@);
    assert(crate::json::members_get(tail, "role"@) == Some(Json::Str(role)));
    assert(ms[0].0 != "role"@);
    assert(crate::json::members_get(ms, "role"@) == Some(Json::Str(role)));
    assert(crate::json::members_get(ms, "content"@) == Some(Json::Str(content)));
}

/// The numbered summary line of a message `role: content` reads back as that
/// message, when role and content are trimmed and the role holds neither `.`
/// nor `:`.
pub proof fn law_summary_line_reads_back(n: nat, role: Seq<char>, content: Seq<char>)
    requires
        n <= usize::MAX,
        trimmed_text(role),
        trimmed_text(content),
        !holds_char(role, '.'),
        !holds_char(role, ':'),
    ensures
        parse_line(decimal(n) + ". "@ + format_item(role_message(role, content))) == Some(
            role_message(role, content),
        ),
{
    lemma_format_role_message(role, content);
    reveal_strlit(". ");
    reveal_strlit(": ");
    crate::lines::lemma_decimal(n);
    let d = decimal(n);
    let body = role + ": "@ + content;
    let line = d + ". "@ + body;
    assert(line =~= d + seq!['.'] + (seq![' '] + body));
    assert(line[d.len() as int] == '.');
    assert forall|j: int| 0 <= j < d.len() implies line[j] != '.' by {
        assert(line[j] == d[j]);
        assert('0' <= d[j] <= '9');
    }
    crate::lines::lemma_char_from_first(line, '.', 0, d.len() as int);
    assert(line.subrange(0, d.len() as int) =~= d);
    assert(line.subrange(d.len() as int + 1, line.len() as int) =~= seq![' '] + body);
    assert(d[0] != '+') by {
        assert('0' <= d[0] <= '9');
    }
    assert(parses_as_usize(d));
    assert(body[0] == role[0]);
    assert(body.last() == content.last());
    crate::text::lemma_trim_after_space(body);
    crate::text::lemma_trim_fixed(body);
    assert(unnumbered(line) == body);
    assert(body =~= role + seq![':'] + (seq![' '] + content));
    assert(body[role.len() as int] == ':');
    assert forall|j: int| 0 <= j < role.len() implies body[j] != ':' by {
        assert(body[j] == role[j]);
        if role[j] == ':' {
            assert(holds_char(role, ':'));
        }
    }
    crate::lines::lemma_char_from_first(body, ':', 0, role.len() as int);
    assert(body.subrange(0, role.len() as int) =~= role);
    assert(body.subrange(role.len() as int + 1, body.len() as int) =~= seq![' '] + content);
    crate::text::lemma_trim_after_space(content);
    crate::text::lemma_trim_fixed(role);
}

/// The description a handoff tool gets by default: what it hands off to,
/// followed by the target agent's instructions, trimmed.
pub fn default_tool_description(agent_name: &str, instructions: &Option<String>) -> (res: String)
    ensures
        res@ == trim_view(
            "Handoff to the "@ + agent_name@ + " agent to handle the request. "@ + match instructions {
                Some(i) => i@,
                None => Seq::<char>::empty(),
            },
        ),
{
    let head = concat3("Handoff to the ", agent_name, " agent to handle the request. ");
    let text = match instructions {
        Some(i) => concat2(head.as_str(), i.as_str()),
        None => head,
    };
    crate::text::trim_str(text.as_str())
}

/// The message that reports a handoff: `{"assistant": <agent name>}` as
/// compact JSON.
pub fn get_transfer_message(agent_name: &str) -> (res: String)
    ensures
        res@ == json_text(Json::Object(seq![("assistant"@, Json::Str(agent_name@))])),
{
    let mut members: Vec<crate::json::JsonMember> = Vec::new();
    members.push(member("assistant", crate::items::json_string(agent_name)));
    let value = JsonValue::Object(members);
    proof {
        crate::json::lemma_members_view(members@);
        assert(crate::json::members_view(members@) =~= seq![("assistant"@, Json::Str(agent_name@))]);
    }
    json_to_string(&value)
}

/// What a handoff passes on is exactly the run items that are neither tool
/// calls, tool outputs nor reasoning, every other item kept in its order.
pub proof fn law_handoff_forwards_only_messages(runs: Seq<RunView>)
    ensures
        forwarded(runs) == runs.filter(
            |r: RunView| !(r is ToolCall) && !(r is ToolCallOutput) && !(r is Reasoning),
        ),
        forall|i: int|
            0 <= i < forwarded(runs).len() ==> {
                let r = #[trigger] forwarded(runs)[i];
                !(r is ToolCall) && !(r is ToolCallOutput) && !(r is Reasoning)
            },
    decreases runs.len(),
{
    if runs.len() > 0 {
        law_handoff_forwards_only_messages(runs.drop_last());
        assert(runs.drop_last().push(runs.last()) =~= runs);
        runs.drop_last().lemma_filter_push(
            runs.last(),
            |r: RunView| !(r is ToolCall) && !(r is ToolCallOutput) && !(r is Reasoning),
        );
    } else {
        reveal(Seq::filter);
    }
}

} // verus!
