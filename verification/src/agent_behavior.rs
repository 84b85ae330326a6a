//! How an agent decides that tool results end its run, and the text a nested
//! agent run gives back to the agent that called it as a tool.
use vstd::prelude::*;

use crate::items::{outputs_view, runs_view, OutputItem, OutputView, RunItem, RunView};
use crate::json::{json_clone, json_text, json_to_string, json_view, Json, JsonValue};
use crate::text::{copy_string, lines_view, opt_view, str_eq};

verus! {

/// Tool names whose results end the run.
pub struct StopAtTools {
    pub stop_at_tool_names: Vec<String>,
}

/// Whether tool results end the run, and with which output.
pub struct ToolsToFinalOutputResult {
    pub is_final_output: bool,
    pub final_output: Option<JsonValue>,
}

impl ToolsToFinalOutputResult {
    /// The results do not end the run.
    pub fn not_final() -> (res: Self)
        ensures
            !res.is_final_output,
            res.final_output.is_none(),
    {
        ToolsToFinalOutputResult { is_final_output: false, final_output: None }
    }

    /// The results end the run with `final_output`.
    pub fn final_output(final_output: JsonValue) -> (res: Self)
        ensures
            res.is_final_output,
            res.final_output == Some(final_output),
    {
        ToolsToFinalOutputResult { is_final_output: true, final_output: Some(final_output) }
    }
}

/// What an agent does after its tools ran: call the model again, stop with
/// the first result, stop at given tools, or ask the caller's function `F`.
pub enum ToolUseBehavior<F> {
    RunLlmAgain,
    StopOnFirstTool,
    StopAtTools(StopAtTools),
    Custom(F),
}

/// What a tool use behavior decides about a turn's tool results.
pub enum ToolUseDecision {
    /// The run goes on.
    NotFinal,
    /// The result at this position ends the run.
    Final(usize),
    /// The caller's function decides.
    Custom,
}

/// The position of the first result whose tool name, or qualified name, is
/// one of `stop`.
pub open spec fn first_stopping(stop: Seq<Seq<char>>, results: Seq<(Seq<char>, Option<Seq<char>>)>, from: int) -> Option<
    int,
>
    decreases results.len() - from,
{
    if from < 0 || from >= results.len() {
        None
    } else if stop.contains(results[from].0) || (results[from].1 matches Some(q) && stop.contains(q)) {
        Some(from)
    } else {
        first_stopping(stop, results, from + 1)
    }
}

/// The tool and qualified names of tool results.
pub open spec fn result_names_view(results: Seq<(String, Option<String>)>) -> Seq<(Seq<char>, Option<Seq<char>>)> {
    results.map_values(|r: (String, Option<String>)| (r.0@, opt_view(r.1)))
}

/// Whether a list of names holds `name`.
fn holds_name(names: &Vec<String>, name: &str) -> (res: bool)
    ensures
        res == lines_view(names@).contains(name@),
{
    let mut i: usize = 0;
    while i < names.len()
        invariant
            i <= names@.len(),
            forall|k: int| 0 <= k < i ==> names@[k]@ != name@,
        decreases names@.len() - i,
    {
        if str_eq(names[i].as_str(), name) {
            assert(lines_view(names@)[i as int] == name@);
            return true;
        }
        i = i + 1;
    }
    assert(!lines_view(names@).contains(name@)) by {
        if lines_view(names@).contains(name@) {
            let k = choose|k: int| 0 <= k < lines_view(names@).len() && lines_view(names@)[k] == name@;
            assert(names@[k]@ == name@);
        }
    }
    false
}

impl<F> ToolUseBehavior<F> {
    /// Which of a turn's tool results, given by tool name and qualified name,
    /// ends the run: none without results or when the model runs again; the
    /// first when stopping on the first tool; the first named for stopping;
    /// the caller's function decides for a custom behavior.
    #[verifier::loop_isolation(false)]
    pub fn evaluate(&self, tool_results: &Vec<(String, Option<String>)>) -> (res: ToolUseDecision)
        ensures
            tool_results@.len() == 0 ==> res is NotFinal,
            tool_results@.len() > 0 ==> match self {
                ToolUseBehavior::RunLlmAgain => res is NotFinal,
                ToolUseBehavior::StopOnFirstTool => res matches ToolUseDecision::Final(i) && i == 0,
                ToolUseBehavior::StopAtTools(c) => match first_stopping(
                    lines_view(c.stop_at_tool_names@),
                    result_names_view(tool_results@),
                    0,
                ) {
                    Some(i) => res matches ToolUseDecision::Final(j) && j == i,
                    None => res is NotFinal,
                },
                ToolUseBehavior::Custom(_) => res is Custom,
            },
            res matches ToolUseDecision::Final(i) ==> i < tool_results@.len(),
    {
        if tool_results.len() == 0 {
            return ToolUseDecision::NotFinal;
        }
        match self {
            ToolUseBehavior::RunLlmAgain => ToolUseDecision::NotFinal,
            ToolUseBehavior::StopOnFirstTool => ToolUseDecision::Final(0),
            ToolUseBehavior::StopAtTools(config) => {
                let ghost stop = lines_view(config.stop_at_tool_names@);
                let ghost rs = result_names_view(tool_results@);
                let mut i: usize = 0;
                while i < tool_results.len()
                    invariant
                        i <= tool_results@.len(),
                        stop == lines_view(config.stop_at_tool_names@),
                        rs == result_names_view(tool_results@),
                        first_stopping(stop, rs, 0) == first_stopping(stop, rs, i as int),
                    decreases tool_results@.len() - i,
                {
                    assert(rs[i as int] == (tool_results@[i as int].0@, opt_view(tool_results@[i as int].1)));
                    let by_name = holds_name(&config.stop_at_tool_names, tool_results[i].0.as_str());
                    let by_qualified = match &tool_results[i].1 {
                        Some(q) => holds_name(&config.stop_at_tool_names, q.as_str()),
                        None => false,
                    };
                    if by_name || by_qualified {
                        return ToolUseDecision::Final(i);
                    }
                    i = i + 1;
                }
                ToolUseDecision::NotFinal
            },
            ToolUseBehavior::Custom(_) => ToolUseDecision::Custom,
        }
    }
}

/// A tool's result as the run's tool-use behavior sees it: the tool's name,
/// its qualified name, and the value its output gives as a final output.
pub struct FunctionToolResult {
    pub tool_name: String,
    pub qualified_name: Option<String>,
    pub final_output_value: JsonValue,
}

/// The names of tool results.
pub open spec fn function_results_names(results: Seq<FunctionToolResult>) -> Seq<(Seq<char>, Option<Seq<char>>)> {
    results.map_values(|r: FunctionToolResult| (r.tool_name@, opt_view(r.qualified_name)))
}

/// What a behavior decides of tool results, with the final output value of
/// the result that ends the run; `None` for a custom behavior, whose function
/// decides.
pub open spec fn evaluation_spec<F>(b: ToolUseBehavior<F>, results: Seq<FunctionToolResult>) -> Option<
    (bool, Option<Json>),
> {
    if results.len() == 0 {
        Some((false, None))
    } else {
        match b {
            ToolUseBehavior::RunLlmAgain => Some((false, None)),
            ToolUseBehavior::StopOnFirstTool => Some((true, Some(json_view(results[0].final_output_value)))),
            ToolUseBehavior::StopAtTools(c) => match first_stopping(
                lines_view(c.stop_at_tool_names@),
                function_results_names(results),
                0,
            ) {
                Some(i) => Some((true, Some(json_view(results[i].final_output_value)))),
                None => Some((false, None)),
            },
            ToolUseBehavior::Custom(_) => None,
        }
    }
}

/// What an evaluation result stands for.
pub open spec fn final_result_view(r: ToolsToFinalOutputResult) -> (bool, Option<Json>) {
    (
        r.is_final_output,
        match r.final_output {
            Some(v) => Some(json_view(v)),
            None => None,
        },
    )
}

impl<F> ToolUseBehavior<F> {
    /// Whether a turn's tool results end the run, and with which output: the
    /// final output value of the result the behavior picks.  For a custom
    /// behavior the caller's function decides, and this gives `None`.
    pub fn evaluate_results(&self, tool_results: &Vec<FunctionToolResult>) -> (res: Option<ToolsToFinalOutputResult>)
        ensures
            match evaluation_spec(*self, tool_results@) {
                Some(v) => res matches Some(r) && final_result_view(r) == v,
                None => res is None,
            },
    {
        let mut names: Vec<(String, Option<String>)> = Vec::new();
        let mut i: usize = 0;
        while i < tool_results.len()
            invariant
                i <= tool_results@.len(),
                result_names_view(names@) =~= function_results_names(tool_results@).subrange(0, i as int),
            decreases tool_results@.len() - i,
        {
            let ghost before = names@;
            names.push((copy_string(&tool_results[i].tool_name), crate::text::copy_opt_string(&tool_results[i].qualified_name)));
            assert(result_names_view(names@) =~= result_names_view(before).push(
                function_results_names(tool_results@)[i as int],
            ));
            i = i + 1;
        }
        assert(result_names_view(names@) =~= function_results_names(tool_results@));
        match self.evaluate(&names) {
            ToolUseDecision::NotFinal => Some(ToolsToFinalOutputResult::not_final()),
            ToolUseDecision::Final(k) => Some(
                ToolsToFinalOutputResult::final_output(json_clone(&tool_results[k].final_output_value)),
            ),
            ToolUseDecision::Custom => None,
        }
    }
}

/// The text of an output item, for a nested run's answer: text and reasoning
/// as they are, JSON as compact text, nothing for tool calls and handoffs.
pub open spec fn output_text(o: OutputView) -> Option<Seq<char>> {
    match o {
        OutputView::Text(t) => Some(t),
        OutputView::Json(v) => Some(json_text(v)),
        OutputView::Reasoning(t) => Some(t),
        _ => None,
    }
}

/// The text of the last message or tool output among the first `n` run items
/// that has text.
pub open spec fn last_item_text(items: Seq<RunView>, n: int) -> Option<Seq<char>>
    decreases n,
{
    if n <= 0 {
        None
    } else {
        let t = match items[n - 1] {
            RunView::MessageOutput(o) => output_text(o),
            RunView::ToolCallOutput { output, .. } => output_text(output),
            _ => None,
        };
        if t.is_some() {
            t
        } else {
            last_item_text(items, n - 1)
        }
    }
}

/// The text of the last output item among the first `n` that has text.
pub open spec fn last_output_text(output: Seq<OutputView>, n: int) -> Option<Seq<char>>
    decreases n,
{
    if n <= 0 {
        None
    } else if output_text(output[n - 1]).is_some() {
        output_text(output[n - 1])
    } else {
        last_output_text(output, n - 1)
    }
}

/// The answer of a nested run: its final output when not empty, else the text
/// of its last message or tool output, else of its last output item, else nothing.
pub open spec fn agent_tool_answer(final_output: Option<Seq<char>>, items: Seq<RunView>, output: Seq<OutputView>) -> Seq<
    char,
> {
    match final_output {
        Some(t) if t.len() > 0 => t,
        _ => match last_item_text(items, items.len() as int) {
            Some(t) => t,
            None => match last_output_text(output, output.len() as int) {
                Some(t) => t,
                None => Seq::empty(),
            },
        },
    }
}

/// The text of an output item.
pub fn output_item_text(item: &OutputItem) -> (res: Option<String>)
    ensures
        opt_view(res) == output_text(item@),
{
    match item {
        OutputItem::Text { text } => Some(copy_string(text)),
        OutputItem::Json { value } => Some(json_to_string(value)),
        OutputItem::Reasoning { text } => Some(copy_string(text)),
        _ => None,
    }
}

/// The answer a nested run gives back to the agent that called it as a tool.
#[verifier::loop_isolation(false)]
pub fn default_agent_tool_output_text(
    final_output: &Option<String>,
    new_items: &Vec<RunItem>,
    output: &Vec<OutputItem>,
) -> (res: String)
    ensures
        res@ == agent_tool_answer(opt_view(*final_output), runs_view(new_items@), outputs_view(output@)),
{
    if let Some(text) = final_output {
        if text.unicode_len() > 0 {
            return copy_string(text);
        }
    }
    let ghost items = runs_view(new_items@);
    let mut i: usize = new_items.len();
    while i > 0
        invariant
            i <= new_items@.len(),
            items == runs_view(new_items@),
            last_item_text(items, items.len() as int) == last_item_text(items, i as int),
        decreases i,
    {
        let t = match &new_items[i - 1] {
            RunItem::MessageOutput { content } => output_item_text(content),
            RunItem::ToolCallOutput { output, .. } => output_item_text(output),
            _ => None,
        };
        assert(items[i - 1] == new_items@[i - 1]@);
        if let Some(t) = t {
            return t;
        }
        i = i - 1;
    }
    let ghost outs = outputs_view(output@);
    let mut k: usize = output.len();
    while k > 0
        invariant
            k <= output@.len(),
            outs == outputs_view(output@),
            last_output_text(outs, outs.len() as int) == last_output_text(outs, k as int),
        decreases k,
    {
        assert(outs[k - 1] == output@[k - 1]@);
        if let Some(t) = output_item_text(&output[k - 1]) {
            return t;
        }
        k = k - 1;
    }
    String::new()
}

/// `first_stopping` finds the first result named for stopping at `from` or later.
proof fn lemma_first_stopping(stop: Seq<Seq<char>>, results: Seq<(Seq<char>, Option<Seq<char>>)>, from: int)
    requires
        0 <= from,
    ensures
        match first_stopping(stop, results, from) {
            Some(i) => from <= i < results.len() && (stop.contains(results[i].0) || (results[i].1 matches Some(q)
                && stop.contains(q))) && forall|j: int|
                from <= j < i ==> !(stop.contains((#[trigger] results[j]).0) || (results[j].1 matches Some(q)
                    && stop.contains(q))),
            None => forall|j: int|
                from <= j < results.len() ==> !(stop.contains((#[trigger] results[j]).0) || (results[j].1 matches Some(
                    q,
                ) && stop.contains(q))),
        },
    decreases results.len() - from,
{
    if from < results.len() && !(stop.contains(results[from].0) || (results[from].1 matches Some(q) && stop.contains(
        q,
    ))) {
        lemma_first_stopping(stop, results, from + 1);
    }
}

/// Stopping at named tools ends the run at the first result whose tool name
/// or qualified name is named, and only when some result is.
pub proof fn law_stop_at_first_named_tool(stop: Seq<Seq<char>>, results: Seq<(Seq<char>, Option<Seq<char>>)>)
    ensures
        match first_stopping(stop, results, 0) {
            Some(i) => 0 <= i < results.len() && (stop.contains(results[i].0) || (results[i].1 matches Some(q)
                && stop.contains(q))) && forall|j: int|
                0 <= j < i ==> !(stop.contains((#[trigger] results[j]).0) || (results[j].1 matches Some(q)
                    && stop.contains(q))),
            None => forall|j: int|
                0 <= j < results.len() ==> !(stop.contains((#[trigger] results[j]).0) || (results[j].1 matches Some(q)
                    && stop.contains(q))),
        },
{
    lemma_first_stopping(stop, results, 0);
}

/// The text taken from output items is that of the last item with text
/// among the first `n`, and there is none exactly when none of them has text.
pub proof fn law_last_output_text_is_last(output: Seq<OutputView>, n: int)
    requires
        0 <= n <= output.len(),
    ensures
        match last_output_text(output, n) {
            Some(t) => exists|i: int|
                0 <= i < n && output_text(output[i]) == Some(t) && forall|j: int|
                    i < j < n ==> output_text(#[trigger] output[j]).is_none(),
            None => forall|j: int| 0 <= j < n ==> output_text(#[trigger] output[j]).is_none(),
        },
    decreases n,
{
    if n > 0 && output_text(output[n - 1]).is_none() {
        law_last_output_text_is_last(output, n - 1);
    }
}

/// The text taken from run items is that of the last message or tool output
/// with text among the first `n`, and there is none exactly when none of them
/// has text.
pub proof fn law_last_item_text_is_last(items: Seq<RunView>, n: int)
    requires
        0 <= n <= items.len(),
    ensures
        match last_item_text(items, n) {
            Some(t) => exists|i: int|
                0 <= i < n && item_text(items[i]) == Some(t) && forall|j: int|
                    i < j < n ==> item_text(#[trigger] items[j]).is_none(),
            None => forall|j: int| 0 <= j < n ==> item_text(#[trigger] items[j]).is_none(),
        },
    decreases n,
{
    if n > 0 && item_text(items[n - 1]).is_none() {
        law_last_item_text_is_last(items, n - 1);
    }
}

/// The text of a message or tool output, if it has one.
pub open spec fn item_text(r: RunView) -> Option<Seq<char>> {
    match r {
        RunView::MessageOutput(o) => output_text(o),
        RunView::ToolCallOutput { output, .. } => output_text(output),
        _ => None,
    }
}

} // verus!
