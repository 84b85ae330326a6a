//! What a tool handler sees of the run: the run context it shares with the
//! other callbacks, and the call it answers.
use vstd::prelude::*;

use crate::items::{inputs_view, InputItem};
use crate::json::JsonValue;
use crate::ordered::StrMap;
use crate::run_state::ApprovalRecord;
use crate::text::{concat3, copy_string};
use crate::tool_identity::ToolCall;

verus! {

/// The run context shared across callbacks: the caller's context, the tokens
/// the run used so far, the input of the current turn, the approval decisions taken so far, the parsed input
/// of the tool that started a nested run, and the scope nested results are
/// kept under.
pub struct RunContextWrapper<C> {
    pub context: C,
    pub usage: crate::usage::Usage,
    pub turn_input: Vec<InputItem>,
    pub approvals: StrMap<ApprovalRecord>,
    pub tool_input: Option<JsonValue>,
    pub agent_tool_state_scope: Option<String>,
}

impl<C> RunContextWrapper<C> {
    /// A context around `context` with no usage, input, approvals, tool input
    /// or scope yet.
    pub fn new(context: C) -> (res: Self)
        ensures
            res.context == context,
            res.usage == (crate::usage::Usage { input_tokens: 0, output_tokens: 0 }),
            res.turn_input@.len() == 0,
            res.approvals@ == Map::<Seq<char>, ApprovalRecord>::empty(),
            res.tool_input.is_none(),
            res.agent_tool_state_scope.is_none(),
    {
        RunContextWrapper {
            context,
            usage: crate::usage::Usage::default(),
            turn_input: Vec::new(),
            approvals: StrMap::new(),
            tool_input: None,
            agent_tool_state_scope: None,
        }
    }
}

/// The context of the nested run of an agent called as a tool: the calling
/// run's context, usage and turn input, no approvals (the nested run decides its
/// own), the parsed tool input when it is to be seen (`params`), and the same
/// result scope.
pub fn nested_tool_run_context<C>(run_context: RunContextWrapper<C>, capture_input: bool, params: JsonValue) -> (res:
    RunContextWrapper<C>)
    ensures
        res.context == run_context.context,
        res.usage == run_context.usage,
        inputs_view(res.turn_input@) == inputs_view(run_context.turn_input@),
        res.approvals@ == Map::<Seq<char>, ApprovalRecord>::empty(),
        res.tool_input == (if capture_input {
            Some(params)
        } else {
            None::<JsonValue>
        }),
        res.agent_tool_state_scope == run_context.agent_tool_state_scope,
{
    let RunContextWrapper { context, usage, turn_input, approvals: _, tool_input: _, agent_tool_state_scope } =
        run_context;
    RunContextWrapper {
        context,
        usage,
        turn_input,
        approvals: StrMap::new(),
        tool_input: if capture_input {
            Some(params)
        } else {
            None
        },
        agent_tool_state_scope,
    }
}

/// The context a local tool handler gets: the run context, the tool's name,
/// the call's id and raw arguments, the call itself, the tool's namespace, and
/// the name of the agent that called it.
pub struct ToolContext<C> {
    pub run_context: RunContextWrapper<C>,
    pub tool_name: String,
    pub tool_call_id: String,
    pub tool_arguments: String,
    pub tool_call: Option<ToolCall>,
    pub tool_namespace: Option<String>,
    pub agent: Option<String>,
}

/// `namespace.name`, or the bare name without a namespace.
pub open spec fn context_qualified_name(name: Seq<char>, namespace: Option<Seq<char>>) -> Seq<char> {
    match namespace {
        Some(ns) => ns + "."@ + name,
        None => name,
    }
}

impl<C> ToolContext<C> {
    /// The context of the call `tool_call_id` of the tool `tool_name` with
    /// raw arguments `tool_arguments`; no call, namespace or agent yet.
    pub fn new(run_context: RunContextWrapper<C>, tool_name: String, tool_call_id: String, tool_arguments: String) -> (res:
        Self)
        ensures
            res.run_context == run_context,
            res.tool_name == tool_name,
            res.tool_call_id == tool_call_id,
            res.tool_arguments == tool_arguments,
            res.tool_call.is_none(),
            res.tool_namespace.is_none(),
            res.agent.is_none(),
    {
        ToolContext {
            run_context,
            tool_name,
            tool_call_id,
            tool_arguments,
            tool_call: None,
            tool_namespace: None,
            agent: None,
        }
    }

    /// The tool's name, behind its namespace when it has one.
    pub fn qualified_tool_name(&self) -> (res: String)
        ensures
            res@ == context_qualified_name(
                self.tool_name@,
                match self.tool_namespace {
                    Some(ns) => Some(ns@),
                    None => None,
                },
            ),
    {
        match &self.tool_namespace {
            Some(ns) => concat3(ns.as_str(), ".", self.tool_name.as_str()),
            None => copy_string(&self.tool_name),
        }
    }
}

} // verus!
