//! Model Context Protocol servers and tools: server parameters, tool filters,
//! argument checks, and the titles and descriptions tools are shown with.
use vstd::prelude::*;

use crate::errors::{AgentsError, UserError};
use crate::json::{json_clone, json_get, json_str_member, json_view, Json, JsonMember, JsonValue};
use crate::strict_schema::{ensure_strict_json_schema, normalization_ends, strict_schema};
use crate::text::{concat2, concat3, copy_opt_string, copy_string, join_strings, join_with, lines_view, opt_view, str_eq};
use crate::tool_identity::ToolDefinition;

verus! {

/// Tool names listed for an approval policy.
pub struct RequireApprovalToolList {
    pub tool_names: Vec<String>,
}

/// Which tools always and which never need approval.
pub struct RequireApprovalObject {
    pub always: Option<RequireApprovalToolList>,
    pub never: Option<RequireApprovalToolList>,
}

/// Display hints of a tool.
pub struct MCPToolAnnotations {
    pub title: Option<String>,
}

/// The description and title a tool listing gives a tool.
pub struct MCPToolMetadata {
    pub description: Option<String>,
    pub title: Option<String>,
}

/// A tool a server offers.
pub struct MCPTool {
    pub name: String,
    pub description: Option<String>,
    pub input_schema: Option<JsonValue>,
    pub title: Option<String>,
    pub annotations: Option<MCPToolAnnotations>,
    pub meta: Option<JsonValue>,
    pub namespace: Option<String>,
    pub requires_approval: bool,
}

impl MCPTool {
    /// A tool with the given name and nothing else set.
    pub fn new(name: String) -> (res: Self)
        ensures
            res.name@ == name@,
            res.description.is_none(),
            res.input_schema.is_none(),
            res.title.is_none(),
            res.annotations.is_none(),
            res.meta.is_none(),
            res.namespace.is_none(),
            !res.requires_approval,
    {
        MCPTool {
            name,
            description: None,
            input_schema: None,
            title: None,
            annotations: None,
            meta: None,
            namespace: None,
            requires_approval: false,
        }
    }
}

/// How to start a server that speaks over standard input and output.
pub struct MCPServerStdioParams {
    pub command: String,
    pub args: Vec<String>,
}

/// Where a server that streams events lives.
pub struct MCPServerSseParams {
    pub url: String,
}

/// Where a server reached over streamable HTTP lives.
pub struct MCPServerStreamableHttpParams {
    pub url: String,
}

/// A named server started as a subprocess.
pub struct MCPServerStdio {
    name: String,
    pub params: MCPServerStdioParams,
}

impl MCPServerStdio {
    /// A server with the given name and parameters.
    pub fn new(name: String, params: MCPServerStdioParams) -> (res: Self)
        ensures
            res.name_view() == name@,
            res.params_view() == params,
    {
        MCPServerStdio { name, params }
    }

    /// The server's name.
    pub closed spec fn name_view(&self) -> Seq<char> {
        self.name@
    }

    /// The server's start parameters.
    pub closed spec fn params_view(&self) -> MCPServerStdioParams {
        self.params
    }

    /// The server's name.
    pub fn name(&self) -> (res: &str)
        ensures
            res@ == self.name_view(),
    {
        self.name.as_str()
    }
}

/// A named server reached over streamable HTTP.
pub struct MCPServerStreamableHttp {
    name: String,
    pub params: MCPServerStreamableHttpParams,
}

impl MCPServerStreamableHttp {
    /// A server with the given name and parameters.
    pub fn new(name: String, params: MCPServerStreamableHttpParams) -> (res: Self)
        ensures
            res.name_view() == name@,
            res.params_view() == params,
    {
        MCPServerStreamableHttp { name, params }
    }

    /// The server's name.
    pub closed spec fn name_view(&self) -> Seq<char> {
        self.name@
    }

    /// Where the server lives.
    pub closed spec fn params_view(&self) -> MCPServerStreamableHttpParams {
        self.params
    }

    /// The server's name.
    pub fn name(&self) -> (res: &str)
        ensures
            res@ == self.name_view(),
    {
        self.name.as_str()
    }
}

/// A filter by tool names: only allowed names, when a list is given, and
/// never blocked ones.
pub struct ToolFilterStatic {
    pub allowed_tool_names: Option<Vec<String>>,
    pub blocked_tool_names: Option<Vec<String>>,
}

/// A name filter, when either list is given.
pub fn create_static_tool_filter(
    allowed_tool_names: Option<Vec<String>>,
    blocked_tool_names: Option<Vec<String>>,
) -> (res: Option<ToolFilterStatic>)
    ensures
        match res {
            None => allowed_tool_names.is_none() && blocked_tool_names.is_none(),
            Some(f) => (allowed_tool_names.is_some() || blocked_tool_names.is_some())
                && f.allowed_tool_names == allowed_tool_names && f.blocked_tool_names == blocked_tool_names,
        },
{
    if allowed_tool_names.is_none() && blocked_tool_names.is_none() {
        None
    } else {
        Some(ToolFilterStatic { allowed_tool_names, blocked_tool_names })
    }
}

/// A filter over a server's tools: a predicate of the caller's, or names.
pub enum ToolFilter<F> {
    Callable(F),
    Static(ToolFilterStatic),
}

/// The characters of each name of an optional list.
pub open spec fn opt_names(v: Option<Vec<String>>) -> Option<Seq<Seq<char>>> {
    match v {
        Some(v) => Some(lines_view(v@)),
        None => None,
    }
}

/// Whether a name filter lets a tool named `name` through.
pub open spec fn static_allows(f: ToolFilterStatic, name: Seq<char>) -> bool {
    &&& (opt_names(f.allowed_tool_names) matches Some(a) ==> a.contains(name))
    &&& (opt_names(f.blocked_tool_names) matches Some(b) ==> !b.contains(name))
}

/// Whether a list of names holds `name`.
fn names_contain(names: &Vec<String>, name: &str) -> (res: bool)
    ensures
        res == lines_view(names@).contains(name@),
{
    let mut i: usize = 0;
    while i < names.len()
        invariant
            i <= names@.len(),
            forall|k: int| 0 <= k < i ==> names@[k]@ != name@,
        decreases names@.len() - i,
    {
        if str_eq(names[i].as_str(), name) {
            assert(lines_view(names@)[i as int] == name@);
            return true;
        }
        i = i + 1;
    }
    assert(!lines_view(names@).contains(name@)) by {
        if lines_view(names@).contains(name@) {
            let k = choose|k: int| 0 <= k < lines_view(names@).len() && lines_view(names@)[k] == name@;
            assert(names@[k]@ == name@);
        }
    }
    false
}

/// The required property names of a schema: the strings of its `required` array.
pub open spec fn required_names(items: Seq<Json>) -> Seq<Seq<char>>
    decreases items.len(),
{
    if items.len() == 0 {
        Seq::empty()
    } else {
        let prev = required_names(items.drop_last());
        match items.last() {
            Json::Str(s) => prev.push(s),
            _ => prev,
        }
    }
}

/// The names of `names` that `members` has no member for, in order.
pub open spec fn missing_names(names: Seq<Seq<char>>, members: Seq<(Seq<char>, Json)>) -> Seq<Seq<char>>
    decreases names.len(),
{
    if names.len() == 0 {
        Seq::empty()
    } else {
        let prev = missing_names(names.drop_last(), members);
        if crate::json::members_get(members, names.last()).is_some() {
            prev
        } else {
            prev.push(names.last())
        }
    }
}

/// The required arguments a call lacks.
pub open spec fn missing_required(schema: Json, members: Seq<(Seq<char>, Json)>) -> Seq<Seq<char>> {
    match json_get(schema, "required"@) {
        Some(Json::Array(items)) => missing_names(required_names(items), members),
        _ => Seq::empty(),
    }
}

/// The error a call with arguments that are not an object gets.
pub open spec fn non_object_arguments_message(tool_name: Seq<char>) -> Seq<char> {
    "tool `"@ + tool_name + "` requires object arguments that match its input schema"@
}

/// The error a call that lacks required arguments gets.
pub open spec fn missing_arguments_message(tool_name: Seq<char>, missing: Seq<Seq<char>>) -> Seq<char> {
    "tool `"@ + tool_name + "` is missing required argument(s): "@ + join_with(missing, ", "@)
}

/// The non-empty text of an optional value, when it is a string.
pub open spec fn non_empty_text(v: Option<Json>) -> Option<Seq<char>> {
    match v {
        Some(Json::Str(s)) => if s.len() > 0 {
            Some(s)
        } else {
            None
        },
        _ => None,
    }
}

/// The title of a tool listing entry: its own `title`, else its annotations'.
pub open spec fn tool_title(t: Json) -> Option<Seq<char>> {
    match non_empty_text(json_get(t, "title"@)) {
        Some(x) => Some(x),
        None => match json_get(t, "annotations"@) {
            Some(a) => non_empty_text(json_get(a, "title"@)),
            None => None,
        },
    }
}

/// The description of a tool listing entry.
pub open spec fn tool_description(t: Json) -> Option<Seq<char>> {
    non_empty_text(json_get(t, "description"@))
}

/// The description a model is shown: the description, else the title, else nothing.
pub open spec fn description_for_model(t: Json) -> Seq<char> {
    match tool_description(t) {
        Some(d) => d,
        None => match tool_title(t) {
            Some(x) => x,
            None => Seq::empty(),
        },
    }
}

/// The member named `key` of an object value.
pub fn get_mapping_or_attr<'a>(value: &'a JsonValue, key: &str) -> (res: Option<&'a JsonValue>)
    ensures
        match res {
            Some(r) => json_get(json_view(*value), key@) == Some(json_view(*r)),
            None => json_get(json_view(*value), key@).is_none(),
        },
{
    value.get(key)
}

/// The text of a value, when it is a non-empty string.
pub fn get_non_empty_string(value: Option<&JsonValue>) -> (res: Option<String>)
    ensures
        opt_view(res) == non_empty_text(
            match value {
                Some(v) => Some(json_view(*v)),
                None => None,
            },
        ),
{
    match value {
        Some(JsonValue::String(s)) => if s.unicode_len() > 0 {
            Some(copy_string(s))
        } else {
            None
        },
        _ => None,
    }
}

/// The title of a tool listing entry.
pub fn resolve_mcp_tool_title(tool: &JsonValue) -> (res: Option<String>)
    ensures
        opt_view(res) == tool_title(json_view(*tool)),
{
    let explicit_title = get_non_empty_string(get_mapping_or_attr(tool, "title"));
    if explicit_title.is_some() {
        return explicit_title;
    }
    match get_mapping_or_attr(tool, "annotations") {
        Some(annotations) => get_non_empty_string(get_mapping_or_attr(annotations, "title")),
        None => None,
    }
}

/// The description of a tool listing entry.
pub fn resolve_mcp_tool_description(tool: &JsonValue) -> (res: Option<String>)
    ensures
        opt_view(res) == tool_description(json_view(*tool)),
{
    get_non_empty_string(get_mapping_or_attr(tool, "description"))
}

/// The description a model is shown for a tool listing entry.
pub fn resolve_mcp_tool_description_for_model(tool: &JsonValue) -> (res: String)
    ensures
        res@ == description_for_model(json_view(*tool)),
{
    match resolve_mcp_tool_description(tool) {
        Some(d) => d,
        None => match resolve_mcp_tool_title(tool) {
            Some(t) => t,
            None => String::new(),
        },
    }
}

/// The description and title of a tool listing entry.
pub fn extract_mcp_tool_metadata(tool: &JsonValue) -> (res: MCPToolMetadata)
    ensures
        opt_view(res.description) == tool_description(json_view(*tool)),
        opt_view(res.title) == tool_title(json_view(*tool)),
{
    MCPToolMetadata {
        description: resolve_mcp_tool_description(tool),
        title: resolve_mcp_tool_title(tool),
    }
}

/// Operations on server tools.
pub struct MCPUtil;

impl MCPUtil {
    /// Checks a call's arguments against a tool's input schema: they must be
    /// an object holding every required property.
    pub fn validate_tool_arguments(tool_name: &str, schema: Option<&JsonValue>, args: &JsonValue) -> (res:
        Result<(), AgentsError>)
        ensures
            match schema {
                None => res is Ok,
                Some(s) => match json_view(*args) {
                    Json::Object(members) => {
                        let missing = missing_required(json_view(*s), members);
                        if missing.len() == 0 {
                            res is Ok
                        } else {
                            res matches Err(AgentsError::User(e)) && e.message@ == missing_arguments_message(
                                tool_name@,
                                missing,
                            )
                        }
                    },
                    _ => res matches Err(AgentsError::User(e)) && e.message@ == non_object_arguments_message(
                        tool_name@,
                    ),
                },
            },
    {
        let schema = match schema {
            Some(s) => s,
            None => {
                return Ok(());
            },
        };
        let members = match args {
            JsonValue::Object(m) => m,
            _ => {
                let head = concat3("tool `", tool_name, "` requires object arguments that match its input schema");
                return Err(AgentsError::User(UserError { message: head }));
            },
        };
        proof {
            crate::json::lemma_members_view(members@);
        }
        let mut missing: Vec<String> = Vec::new();
        match schema.get("required") {
            Some(JsonValue::Array(items)) => {
                proof {
                    crate::json::lemma_json_seq_view(items@);
                }
                let ghost iv = crate::json::json_seq_view(items@);
                let ghost mv = crate::json::members_view(members@);
                let mut i: usize = 0;
                while i < items.len()
                    invariant
                        i <= items@.len(),
                        iv == crate::json::json_seq_view(items@),
                        iv.len() == items@.len(),
                        forall|k: int| 0 <= k < items@.len() ==> #[trigger] iv[k] == json_view(items@[k]),
                        mv == crate::json::members_view(members@),
                        json_view(*args) == Json::Object(mv),
                        lines_view(missing@) == missing_names(required_names(iv.subrange(0, i as int)), mv),
                    decreases items@.len() - i,
                {
                    let ghost before = missing@;
                    let ghost pre = iv.subrange(0, i as int);
                    let ghost next = iv.subrange(0, i + 1);
                    assert(next.drop_last() =~= pre);
                    assert(next.last() == json_view(items@[i as int]));
                    match &items[i] {
                        JsonValue::String(name) => {
                            let present = args.get(name.as_str()).is_some();
                            assert(required_names(next) == required_names(pre).push(name@));
                            assert(required_names(next).drop_last() =~= required_names(pre));
                            if !present {
                                missing.push(copy_string(name));
                                assert(lines_view(missing@) =~= lines_view(before).push(name@));
                            }
                        },
                        _ => {
                            assert(required_names(next) == required_names(pre));
                        },
                    }
                    i = i + 1;
                }
                assert(iv.subrange(0, iv.len() as int) =~= iv);
            },
            _ => {
                assert(lines_view(missing@) =~= Seq::<Seq<char>>::empty());
            },
        }
        if missing.len() == 0 {
            return Ok(());
        }
        let list = join_strings(&missing, ", ");
        let head = concat3("tool `", tool_name, "` is missing required argument(s): ");
        Err(AgentsError::User(UserError { message: concat2(head.as_str(), list.as_str()) }))
    }

    /// Whether a filter lets a tool through: every tool without a filter; the
    /// caller's verdict for a predicate; the names for a name filter.
    pub fn tool_allowed<F: Fn(&MCPTool) -> bool>(filter: Option<&ToolFilter<F>>, tool: &MCPTool) -> (res: bool)
        requires
            filter matches Some(ToolFilter::Callable(f)) ==> f.requires((tool,)),
        ensures
            match filter {
                None => res,
                Some(ToolFilter::Callable(f)) => f.ensures((tool,), res),
                Some(ToolFilter::Static(s)) => res == static_allows(*s, tool.name@),
            },
    {
        match filter {
            None => true,
            Some(ToolFilter::Callable(f)) => f(tool),
            Some(ToolFilter::Static(s)) => {
                if let Some(allowed) = &s.allowed_tool_names {
                    if !names_contain(allowed, tool.name.as_str()) {
                        return false;
                    }
                }
                if let Some(blocked) = &s.blocked_tool_names {
                    if names_contain(blocked, tool.name.as_str()) {
                        return false;
                    }
                }
                true
            },
        }
    }
}

/// A tool's description and title as a listing gives them.
pub type MetadataView = (Option<Seq<char>>, Option<Seq<char>>);

/// What a metadata entry stands for: the server label and tool name, and the
/// tool's description and title.
pub open spec fn metadata_entry_view(e: ((String, String), MCPToolMetadata)) -> ((Seq<char>, Seq<char>), MetadataView) {
    ((e.0.0@, e.0.1@), (opt_view(e.1.description), opt_view(e.1.title)))
}

/// The first position of key `k` in a list of entries.
pub open spec fn key_index<K, V>(s: Seq<(K, V)>, k: K) -> Option<int>
    decreases s.len(),
{
    if s.len() == 0 {
        None
    } else {
        match key_index(s.drop_last(), k) {
            Some(i) => Some(i),
            None => if s.last().0 == k {
                Some(s.len() - 1)
            } else {
                None
            },
        }
    }
}

/// Entries with `(k, v)` set: replacing the entry of key `k`, or added at the end.
pub open spec fn upsert<K, V>(s: Seq<(K, V)>, k: K, v: V) -> Seq<(K, V)> {
    match key_index(s, k) {
        Some(i) => s.update(i, (k, v)),
        None => s.push((k, v)),
    }
}

/// The metadata of the tools of one listing, added to `acc`.
pub open spec fn listed_tools(
    acc: Seq<((Seq<char>, Seq<char>), MetadataView)>,
    label: Seq<char>,
    tools: Seq<Json>,
) -> Seq<((Seq<char>, Seq<char>), MetadataView)>
    decreases tools.len(),
{
    if tools.len() == 0 {
        acc
    } else {
        let prev = listed_tools(acc, label, tools.drop_last());
        let t = tools.last();
        match non_empty_text(json_get(t, "name"@)) {
            Some(name) => upsert(prev, (label, name), (tool_description(t), tool_title(t))),
            None => prev,
        }
    }
}

/// The tool listing an item holds: its `raw_item` when it has one, else itself.
pub open spec fn raw_listing(item: Json) -> Json {
    match json_get(item, "raw_item"@) {
        Some(r) => r,
        None => item,
    }
}

/// The metadata of every tool of the tool listings among `items`, keyed by
/// server label and tool name; a later listing of a tool replaces an earlier one.
pub open spec fn listed_metadata(items: Seq<Json>) -> Seq<((Seq<char>, Seq<char>), MetadataView)>
    decreases items.len(),
{
    if items.len() == 0 {
        Seq::empty()
    } else {
        let prev = listed_metadata(items.drop_last());
        let raw = raw_listing(items.last());
        if json_str_member(raw, "type"@) != Some("mcp_list_tools"@) {
            prev
        } else {
            match non_empty_text(json_get(raw, "server_label"@)) {
                None => prev,
                Some(label) => match json_get(raw, "tools"@) {
                    Some(Json::Array(tools)) => listed_tools(prev, label, tools),
                    _ => prev,
                },
            }
        }
    }
}

/// Sets the metadata of `(label, name)`.
fn upsert_metadata(
    entries: &mut Vec<((String, String), MCPToolMetadata)>,
    label: &str,
    name: &str,
    metadata: MCPToolMetadata,
)
    ensures
        final(entries)@.map_values(|e: ((String, String), MCPToolMetadata)| metadata_entry_view(e)) == upsert(
            old(entries)@.map_values(|e: ((String, String), MCPToolMetadata)| metadata_entry_view(e)),
            (label@, name@),
            (opt_view(metadata.description), opt_view(metadata.title)),
        ),
{
    let ghost s = entries@.map_values(|e: ((String, String), MCPToolMetadata)| metadata_entry_view(e));
    let ghost key = (label@, name@);
    let mut i: usize = 0;
    while i < entries.len()
        invariant
            i <= entries@.len(),
            entries@ == old(entries)@,
            key == (label@, name@),
            s == entries@.map_values(|e: ((String, String), MCPToolMetadata)| metadata_entry_view(e)),
            key_index(s.subrange(0, i as int), key).is_none(),
        decreases entries@.len() - i,
    {
        let ghost pre = s.subrange(0, i as int);
        let ghost next = s.subrange(0, i + 1);
        assert(next.drop_last() =~= pre);
        assert(next.last() == s[i as int]);
        assert(s[i as int] == metadata_entry_view(entries@[i as int]));
        if str_eq(entries[i].0.0.as_str(), label) && str_eq(entries[i].0.1.as_str(), name) {
            proof {
                lemma_key_index_prefix(s, key, i as int);
            }
            let new_entry = ((String::from_str(label), String::from_str(name)), metadata);
            assert(metadata_entry_view(new_entry) == (key, (opt_view(metadata.description), opt_view(metadata.title))));
            let ghost before = entries@;
            entries.set(i, new_entry);
            assert(entries@ == before.update(i as int, new_entry));
            assert(entries@.map_values(|e: ((String, String), MCPToolMetadata)| metadata_entry_view(e)) =~= s.update(
                i as int,
                (key, (opt_view(metadata.description), opt_view(metadata.title))),
            ));
            return;
        }
        i = i + 1;
    }
    proof {
        assert(s.subrange(0, s.len() as int) =~= s);
    }
    entries.push(((String::from_str(label), String::from_str(name)), metadata));
    assert(entries@.map_values(|e: ((String, String), MCPToolMetadata)| metadata_entry_view(e)) =~= s.push(
        (key, (opt_view(metadata.description), opt_view(metadata.title))),
    ));
}

/// The key found at position `i` of a list is found there when no earlier
/// entry has it.
proof fn lemma_key_index_prefix<K, V>(s: Seq<(K, V)>, k: K, i: int)
    requires
        0 <= i < s.len(),
        s[i].0 == k,
        key_index(s.subrange(0, i), k).is_none(),
    ensures
        key_index(s, k) == Some(i),
    decreases s.len() - i,
{
    if i == s.len() - 1 {
        assert(s.drop_last() =~= s.subrange(0, i));
    } else {
        assert(s.drop_last().subrange(0, i) =~= s.subrange(0, i));
        lemma_key_index_prefix(s.drop_last(), k, i);
    }
}

/// The metadata of every tool of the tool listings among `items`.
pub fn collect_mcp_list_tools_metadata(items: &[JsonValue]) -> (res: Vec<((String, String), MCPToolMetadata)>)
    ensures
        res@.map_values(|e: ((String, String), MCPToolMetadata)| metadata_entry_view(e)) == listed_metadata(
            crate::json::json_seq_view(items@),
        ),
{
    let ghost xs = crate::json::json_seq_view(items@);
    proof {
        crate::json::lemma_json_seq_view(items@);
    }
    let mut out: Vec<((String, String), MCPToolMetadata)> = Vec::new();
    let mut i: usize = 0;
    while i < items.len()
        invariant
            i <= items@.len(),
            xs == crate::json::json_seq_view(items@),
            xs.len() == items@.len(),
            forall|k: int| 0 <= k < items@.len() ==> #[trigger] xs[k] == json_view(items@[k]),
            out@.map_values(|e: ((String, String), MCPToolMetadata)| metadata_entry_view(e)) == listed_metadata(
                xs.subrange(0, i as int),
            ),
        decreases items@.len() - i,
    {
        let ghost pre = xs.subrange(0, i as int);
        let ghost next = xs.subrange(0, i + 1);
        assert(next.drop_last() =~= pre);
        assert(next.last() == json_view(items@[i as int]));
        let item = &items[i];
        let raw = match item.get("raw_item") {
            Some(r) => r,
            None => item,
        };
        let is_listing = match crate::json::get_str(raw, "type") {
            Some(t) => str_eq(t, "mcp_list_tools"),
            None => false,
        };
        if is_listing {
            let label = get_non_empty_string(raw.get("server_label"));
            match label {
                Some(label) => match raw.get("tools") {
                    Some(JsonValue::Array(tools)) => {
                        proof {
                            crate::json::lemma_json_seq_view(tools@);
                        }
                        let ghost tv = crate::json::json_seq_view(tools@);
                        let ghost acc = listed_metadata(pre);
                        let mut k: usize = 0;
                        assert(tv.subrange(0, 0) =~= Seq::<Json>::empty());
                        while k < tools.len()
                            invariant
                                k <= tools@.len(),
                                tv == crate::json::json_seq_view(tools@),
                                tv.len() == tools@.len(),
                                forall|m: int| 0 <= m < tools@.len() ==> #[trigger] tv[m] == json_view(tools@[m]),
                                out@.map_values(|e: ((String, String), MCPToolMetadata)| metadata_entry_view(e))
                                    == listed_tools(acc, label@, tv.subrange(0, k as int)),
                            decreases tools@.len() - k,
                        {
                            let ghost tpre = tv.subrange(0, k as int);
                            let ghost tnext = tv.subrange(0, k + 1);
                            assert(tnext.drop_last() =~= tpre);
                            assert(tnext.last() == json_view(tools@[k as int]));
                            let tool = &tools[k];
                            match get_non_empty_string(tool.get("name")) {
                                Some(name) => {
                                    let md = extract_mcp_tool_metadata(tool);
                                    upsert_metadata(&mut out, label.as_str(), name.as_str(), md);
                                },
                                None => {},
                            }
                            k = k + 1;
                        }
                        assert(tv.subrange(0, tv.len() as int) =~= tv);
                    },
                    _ => {},
                },
                None => {},
            }
        }
        i = i + 1;
    }
    assert(xs.subrange(0, xs.len() as int) =~= xs);
    out
}

/// The non-empty text of an optional string.
pub open spec fn non_empty_opt(s: Option<Seq<char>>) -> Option<Seq<char>> {
    match s {
        Some(t) => if t.len() > 0 {
            Some(t)
        } else {
            None
        },
        None => None,
    }
}

/// The title a tool is shown with: its own, else its annotations'.
pub open spec fn mcp_tool_title(tool: MCPTool) -> Option<Seq<char>> {
    match non_empty_opt(opt_view(tool.title)) {
        Some(t) => Some(t),
        None => match tool.annotations {
            Some(a) => non_empty_opt(opt_view(a.title)),
            None => None,
        },
    }
}

/// The description a tool is shown with: its description, else its title,
/// prefixed by the title when it has one.
pub open spec fn mcp_tool_shown_description(tool: MCPTool) -> Seq<char> {
    let base = match non_empty_opt(opt_view(tool.description)) {
        Some(d) => d,
        None => match mcp_tool_title(tool) {
            Some(t) => t,
            None => Seq::empty(),
        },
    };
    match mcp_tool_title(tool) {
        Some(t) => t + ": "@ + base,
        None => base,
    }
}

/// The non-empty text of an optional string.
fn non_empty_copy(s: &Option<String>) -> (res: Option<String>)
    ensures
        opt_view(res) == non_empty_opt(opt_view(*s)),
{
    match s {
        Some(t) => if t.unicode_len() > 0 {
            Some(copy_string(t))
        } else {
            None
        },
        None => None,
    }
}

impl MCPUtil {
    /// The input schema a server tool is offered with: its own, brought into
    /// the strict subset, when it has one.
    pub fn strict_input_schema(tool: &MCPTool) -> (res: Result<Option<JsonValue>, UserError>)
        requires
            tool.input_schema matches Some(s) ==> json_view(s) == Json::Object(Seq::empty()) || normalization_ends(
                json_view(s),
            ),
        ensures
            match tool.input_schema {
                None => res matches Ok(None),
                Some(s) => match strict_schema(json_view(s)) {
                    Ok(v) => res matches Ok(Some(x)) && json_view(x) == v,
                    Err(m) => res matches Err(e) && e.message@ == m,
                },
            },
    {
        match &tool.input_schema {
            None => Ok(None),
            Some(s) => match ensure_strict_json_schema(json_clone(s)) {
                Ok(v) => Ok(Some(v)),
                Err(e) => Err(e),
            },
        }
    }
}

impl MCPUtil {
    /// The definition a server tool is offered to a model with: its name, its
    /// shown description and its namespace.
    pub fn tool_definition(tool: &MCPTool) -> (res: ToolDefinition)
        ensures
            res.name@ == tool.name@,
            res.description@ == mcp_tool_shown_description(*tool),
            opt_view(res.namespace) == opt_view(tool.namespace),
            !res.defer_loading,
    {
        let title = match non_empty_copy(&tool.title) {
            Some(t) => Some(t),
            None => match &tool.annotations {
                Some(a) => non_empty_copy(&a.title),
                None => None,
            },
        };
        let base = match non_empty_copy(&tool.description) {
            Some(d) => d,
            None => match &title {
                Some(t) => copy_string(t),
                None => String::new(),
            },
        };
        let description = match &title {
            Some(t) => concat3(t.as_str(), ": ", base.as_str()),
            None => base,
        };
        ToolDefinition {
            name: copy_string(&tool.name),
            description,
            namespace: copy_opt_string(&tool.namespace),
            defer_loading: false,
        }
    }
}

/// The first position whose name already came earlier.
pub open spec fn first_repeat(names: Seq<Seq<char>>, from: int) -> Option<int>
    decreases names.len() - from,
{
    if from < 0 || from >= names.len() {
        None
    } else if names.subrange(0, from).contains(names[from]) {
        Some(from)
    } else {
        first_repeat(names, from + 1)
    }
}

/// The error for tools of the same name offered by servers.
pub open spec fn duplicate_tool_message(name: Seq<char>) -> Seq<char> {
    "duplicate MCP tool name `"@ + name + "` across servers"@
}

impl MCPUtil {
    /// Checks that the tools gathered from all servers have distinct names;
    /// the first name seen a second time is reported.
    pub fn check_unique_tool_names(names: &Vec<String>) -> (res: Result<(), AgentsError>)
        ensures
            match first_repeat(lines_view(names@), 0) {
                None => res is Ok,
                Some(j) => res matches Err(e) && e.is_message(duplicate_tool_message(names@[j]@)),
            },
    {
        let ghost nv = lines_view(names@);
        let mut j: usize = 0;
        while j < names.len()
            invariant
                j <= names@.len(),
                nv == lines_view(names@),
                first_repeat(nv, 0) == first_repeat(nv, j as int),
            decreases names@.len() - j,
        {
            let mut k: usize = 0;
            let mut seen = false;
            while k < j
                invariant
                    k <= j,
                    j < names@.len(),
                    nv == lines_view(names@),
                    seen == nv.subrange(0, k as int).contains(nv[j as int]),
                decreases j - k,
            {
                if str_eq(names[k].as_str(), names[j].as_str()) {
                    seen = true;
                }
                proof {
                    let a = nv.subrange(0, k as int);
                    let b = nv.subrange(0, k + 1);
                    assert(b =~= a.push(nv[k as int]));
                    if b.contains(nv[j as int]) && !a.contains(nv[j as int]) {
                        let m = choose|m: int| 0 <= m < b.len() && #[trigger] b[m] == nv[j as int];
                        if m < k {
                            assert(a[m] == b[m]);
                        }
                    }
                    if a.contains(nv[j as int]) {
                        let m = choose|m: int| 0 <= m < a.len() && #[trigger] a[m] == nv[j as int];
                        assert(b[m] == a[m]);
                    }
                    if seen && !a.contains(nv[j as int]) {
                        assert(b[k as int] == nv[j as int]);
                    }
                }
                k = k + 1;
            }
            if seen {
                let message = concat3("duplicate MCP tool name `", names[j].as_str(), "` across servers");
                return Err(AgentsError::message(message));
            }
            j = j + 1;
        }
        Ok(())
    }
}

/// A name filter refuses only what its lists say: with no allow list a tool is
/// let through exactly when no blocked name is its name; with no block list it
/// is let through exactly when an allowed name is its name; and a missing list
/// never refuses a tool.
pub proof fn law_static_filter_refuses_only_listed(f: ToolFilterStatic, name: Seq<char>)
    ensures
        f.allowed_tool_names.is_none() ==> (static_allows(f, name) <==> match f.blocked_tool_names {
            None => true,
            Some(b) => forall|k: int| 0 <= k < b@.len() ==> #[trigger] b@[k]@ != name,
        }),
        f.blocked_tool_names.is_none() ==> (static_allows(f, name) <==> match f.allowed_tool_names {
            None => true,
            Some(a) => exists|k: int| 0 <= k < a@.len() && #[trigger] a@[k]@ == name,
        }),
        (f.allowed_tool_names.is_none() && f.blocked_tool_names.is_none()) ==> static_allows(f, name),
{
    if let Some(b) = f.blocked_tool_names {
        if lines_view(b@).contains(name) {
            let k = choose|k: int| 0 <= k < lines_view(b@).len() && lines_view(b@)[k] == name;
            assert(b@[k]@ == name);
        }
        if exists|k: int| 0 <= k < b@.len() && #[trigger] b@[k]@ == name {
            let k = choose|k: int| 0 <= k < b@.len() && #[trigger] b@[k]@ == name;
            assert(lines_view(b@)[k] == name);
        }
    }
    if let Some(a) = f.allowed_tool_names {
        if lines_view(a@).contains(name) {
            let k = choose|k: int| 0 <= k < lines_view(a@).len() && lines_view(a@)[k] == name;
            assert(a@[k]@ == name);
        }
        if exists|k: int| 0 <= k < a@.len() && #[trigger] a@[k]@ == name {
            let k = choose|k: int| 0 <= k < a@.len() && #[trigger] a@[k]@ == name;
            assert(lines_view(a@)[k] == name);
        }
    }
}

/// A call lacks exactly the required names that its arguments have no member
/// for, in the order the schema lists them.
pub proof fn law_missing_arguments_are_absent_required(names: Seq<Seq<char>>, members: Seq<(Seq<char>, Json)>)
    ensures
        missing_names(names, members) == names.filter(
            |n: Seq<char>| crate::json::members_get(members, n).is_none(),
        ),
    decreases names.len(),
{
    if names.len() == 0 {
        reveal(Seq::filter);
    } else {
        law_missing_arguments_are_absent_required(names.drop_last(), members);
        assert(names.drop_last().push(names.last()) =~= names);
        names.drop_last().lemma_filter_push(
            names.last(),
            |n: Seq<char>| crate::json::members_get(members, n).is_none(),
        );
    }
}

/// `first_repeat` finds the first name that came earlier, from `from` on.
proof fn lemma_first_repeat(names: Seq<Seq<char>>, from: int)
    requires
        0 <= from,
    ensures
        match first_repeat(names, from) {
            Some(j) => from <= j < names.len() && names.subrange(0, j).contains(names[j]) && forall|k: int|
                from <= k < j ==> !names.subrange(0, k).contains(#[trigger] names[k]),
            None => forall|k: int| from <= k < names.len() ==> !names.subrange(0, k).contains(#[trigger] names[k]),
        },
    decreases names.len() - from,
{
    if from < names.len() && !names.subrange(0, from).contains(names[from]) {
        lemma_first_repeat(names, from + 1);
    }
}

/// The tools of all servers are accepted exactly when no two have the same
/// name; otherwise the name reported is the first that repeats an earlier one.
pub proof fn law_duplicate_tool_names_refused(names: Seq<Seq<char>>)
    ensures
        first_repeat(names, 0) is None <==> forall|a: int, b: int|
            0 <= a < b < names.len() ==> #[trigger] names[a] != #[trigger] names[b],
        first_repeat(names, 0) matches Some(j) ==> (exists|a: int| 0 <= a < j && names[a] == names[j]) && forall|
            a: int,
            b: int,
        | 0 <= a < b < j ==> #[trigger] names[a] != #[trigger] names[b],
{
    lemma_first_repeat(names, 0);
    assert forall|a: int, b: int|
        0 <= a < b < names.len() && #[trigger] names[a] == #[trigger] names[b] implies names.subrange(0, b).contains(
        names[b],
    ) by {
        assert(names.subrange(0, b)[a] == names[a]);
    }
    if let Some(j) = first_repeat(names, 0) {
        let a = choose|a: int| 0 <= a < names.subrange(0, j).len() && names.subrange(0, j)[a] == names[j];
        assert(names[a] == names[j]);
    } else {
        assert forall|a: int, b: int| 0 <= a < b < names.len() implies #[trigger] names[a] != #[trigger] names[b] by {
            if names[a] == names[b] {
                assert(names.subrange(0, b)[a] == names[a]);
            }
        }
    }
}

} // verus!
