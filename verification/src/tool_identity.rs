//! Identity of function tools: qualified and trace names, lookup keys,
//! approval keys, and the lookup map built from tool definitions.
use vstd::prelude::*;

use crate::errors::UserError;
use crate::text::{
    concat2, concat3, copy_opt_string, copy_string, is_blank, opt_view, str_eq, trim_str,
    trim_view,
};

verus! {

/// A tool call emitted by a model.
pub struct ToolCall {
    pub id: String,
    pub name: String,
    pub arguments: String,
    pub namespace: Option<String>,
}

/// The part of a function tool's definition that decides its identity.
pub struct ToolDefinition {
    pub name: String,
    pub description: String,
    pub namespace: Option<String>,
    pub defer_loading: bool,
}

impl ToolDefinition {
    /// A definition with no namespace that loads eagerly.
    pub fn new(name: &str, description: &str) -> (res: Self)
        ensures
            res.name@ == name@,
            res.description@ == description@,
            res.namespace.is_none(),
            !res.defer_loading,
    {
        ToolDefinition {
            name: String::from_str(name),
            description: String::from_str(description),
            namespace: None,
            defer_loading: false,
        }
    }

    /// The same definition with `defer_loading` set.
    pub fn with_defer_loading(self, defer_loading: bool) -> (res: Self)
        ensures
            res.name == self.name,
            res.description == self.description,
            res.namespace == self.namespace,
            res.defer_loading == defer_loading,
    {
        ToolDefinition { defer_loading, ..self }
    }

    /// The same definition placed in `namespace`.
    pub fn with_namespace(self, namespace: String) -> (res: Self)
        ensures
            res.name == self.name,
            res.description == self.description,
            res.namespace == Some(namespace),
            res.defer_loading == self.defer_loading,
    {
        ToolDefinition { namespace: Some(namespace), ..self }
    }
}

/// The key under which a function tool is looked up.
#[derive(Clone, Debug, PartialEq, Eq)]
pub enum FunctionToolLookupKey {
    Bare { name: String },
    Namespaced { namespace: String, name: String },
    DeferredTopLevel { name: String },
}

/// What a lookup key stands for.
pub enum LookupKeyView {
    Bare(Seq<char>),
    Namespaced(Seq<char>, Seq<char>),
    DeferredTopLevel(Seq<char>),
}

impl View for FunctionToolLookupKey {
    type V = LookupKeyView;

    open spec fn view(&self) -> LookupKeyView {
        match self {
            FunctionToolLookupKey::Bare { name } => LookupKeyView::Bare(name@),
            FunctionToolLookupKey::Namespaced { namespace, name } => LookupKeyView::Namespaced(
                namespace@,
                name@,
            ),
            FunctionToolLookupKey::DeferredTopLevel { name } => LookupKeyView::DeferredTopLevel(
                name@,
            ),
        }
    }
}

/// The key an optional key stands for.
pub open spec fn opt_key_view(k: Option<FunctionToolLookupKey>) -> Option<LookupKeyView> {
    match k {
        Some(key) => Some(key@),
        None => None,
    }
}

/// A namespace trimmed, and dropped when nothing is left.
pub open spec fn normalized_namespace(namespace: Option<Seq<char>>) -> Option<Seq<char>> {
    match namespace {
        Some(ns) => if trim_view(ns).len() > 0 {
            Some(trim_view(ns))
        } else {
            None
        },
        None => None,
    }
}

/// Whether the namespace equals the tool's own name, which tool search reserves.
pub open spec fn reserved_namespace(name: Seq<char>, namespace: Option<Seq<char>>) -> bool {
    match normalized_namespace(namespace) {
        Some(ns) => trim_view(name).len() > 0 && ns == trim_view(name),
        None => false,
    }
}

/// `namespace.name`, or the bare name; `None` for a blank name.
pub open spec fn qualified_name(name: Seq<char>, namespace: Option<Seq<char>>) -> Option<Seq<char>> {
    let n = trim_view(name);
    if n.len() == 0 {
        None
    } else {
        match normalized_namespace(namespace) {
            Some(ns) => Some(ns + "."@ + n),
            None => Some(n),
        }
    }
}

/// The name used in traces: the bare name when the namespace is reserved.
pub open spec fn trace_name(name: Seq<char>, namespace: Option<Seq<char>>) -> Option<Seq<char>> {
    let n = trim_view(name);
    if n.len() == 0 {
        None
    } else if reserved_namespace(n, namespace) {
        Some(n)
    } else {
        qualified_name(n, namespace)
    }
}

/// The lookup key of a tool name in a namespace.
pub open spec fn lookup_key(name: Seq<char>, namespace: Option<Seq<char>>) -> Option<LookupKeyView> {
    let n = trim_view(name);
    if n.len() == 0 {
        None
    } else if reserved_namespace(n, namespace) {
        Some(LookupKeyView::DeferredTopLevel(n))
    } else {
        match normalized_namespace(namespace) {
            Some(ns) => Some(LookupKeyView::Namespaced(ns, n)),
            None => Some(LookupKeyView::Bare(n)),
        }
    }
}

/// The borrowed view of an optional string argument.
pub open spec fn opt_str_view(s: Option<&str>) -> Option<Seq<char>> {
    match s {
        Some(v) => Some(v@),
        None => None,
    }
}

/// Trims a namespace and drops it when nothing is left.
fn normalize_namespace(namespace: Option<&str>) -> (res: Option<String>)
    ensures
        opt_view(res) == normalized_namespace(opt_str_view(namespace)),
{
    match namespace {
        Some(ns) => {
            let t = trim_str(ns);
            if t.unicode_len() == 0 {
                None
            } else {
                Some(t)
            }
        },
        None => None,
    }
}

/// Whether the namespace equals the tool's own (trimmed, non-empty) name.
pub fn is_reserved_synthetic_tool_namespace(name: &str, namespace: Option<&str>) -> (res: bool)
    ensures
        res == reserved_namespace(name@, opt_str_view(namespace)),
{
    let n = trim_str(name);
    match normalize_namespace(namespace) {
        Some(ns) => n.unicode_len() > 0 && str_eq(ns.as_str(), n.as_str()),
        None => false,
    }
}

/// `namespace.name`, or the bare name when there is no namespace; `None` for a blank name.
pub fn tool_qualified_name(name: &str, namespace: Option<&str>) -> (res: Option<String>)
    ensures
        opt_view(res) == qualified_name(name@, opt_str_view(namespace)),
{
    let n = trim_str(name);
    if n.unicode_len() == 0 {
        return None;
    }
    match normalize_namespace(namespace) {
        Some(ns) => Some(concat3(ns.as_str(), ".", n.as_str())),
        None => Some(n),
    }
}

/// The name used in traces: the bare name when the namespace is reserved.
pub fn tool_trace_name(name: &str, namespace: Option<&str>) -> (res: Option<String>)
    ensures
        opt_view(res) == trace_name(name@, opt_str_view(namespace)),
{
    let n = trim_str(name);
    if n.unicode_len() == 0 {
        return None;
    }
    if is_reserved_synthetic_tool_namespace(n.as_str(), namespace) {
        return Some(n);
    }
    tool_qualified_name(n.as_str(), namespace)
}

/// The namespace of a tool call, when it is non-empty.
pub open spec fn call_namespace(tool_call: ToolCall) -> Option<Seq<char>> {
    match tool_call.namespace {
        Some(ns) => if ns@.len() > 0 {
            Some(ns@)
        } else {
            None
        },
        None => None,
    }
}

/// The name of a tool call, when it is not blank.
pub open spec fn call_name(tool_call: ToolCall) -> Option<Seq<char>> {
    if trim_view(tool_call.name@).len() == 0 {
        None
    } else {
        Some(tool_call.name@)
    }
}

/// The namespace of a tool call, when it is non-empty.
pub fn get_tool_call_namespace(tool_call: &ToolCall) -> (res: Option<&str>)
    ensures
        opt_str_view(res) == call_namespace(*tool_call),
{
    match &tool_call.namespace {
        Some(ns) => if ns.unicode_len() > 0 {
            Some(ns.as_str())
        } else {
            None
        },
        None => None,
    }
}

/// The name of a tool call, when it is not blank.
pub fn get_tool_call_name(tool_call: &ToolCall) -> (res: Option<&str>)
    ensures
        opt_str_view(res) == call_name(*tool_call),
{
    if is_blank(tool_call.name.as_str()) {
        None
    } else {
        Some(tool_call.name.as_str())
    }
}

/// The qualified name of a tool call.
pub fn get_tool_call_qualified_name(tool_call: &ToolCall) -> (res: Option<String>)
    ensures
        opt_view(res) == (match call_name(*tool_call) {
            Some(n) => qualified_name(n, call_namespace(*tool_call)),
            None => None,
        }),
{
    match get_tool_call_name(tool_call) {
        Some(n) => tool_qualified_name(n, get_tool_call_namespace(tool_call)),
        None => None,
    }
}

/// The trace name of a tool call.
pub fn get_tool_call_trace_name(tool_call: &ToolCall) -> (res: Option<String>)
    ensures
        opt_view(res) == (match call_name(*tool_call) {
            Some(n) => trace_name(n, call_namespace(*tool_call)),
            None => None,
        }),
{
    match get_tool_call_name(tool_call) {
        Some(n) => tool_trace_name(n, get_tool_call_namespace(tool_call)),
        None => None,
    }
}

/// The lookup key of a tool name: deferred top-level when the namespace is reserved,
/// namespaced when there is a namespace, bare otherwise; `None` for a blank name.
pub fn get_function_tool_lookup_key(name: &str, namespace: Option<&str>) -> (res: Option<
    FunctionToolLookupKey,
>)
    ensures
        opt_key_view(res) == lookup_key(name@, opt_str_view(namespace)),
{
    let n = trim_str(name);
    if n.unicode_len() == 0 {
        return None;
    }
    if is_reserved_synthetic_tool_namespace(n.as_str(), namespace) {
        return Some(FunctionToolLookupKey::DeferredTopLevel { name: n });
    }
    match normalize_namespace(namespace) {
        Some(ns) => Some(FunctionToolLookupKey::Namespaced { namespace: ns, name: n }),
        None => Some(FunctionToolLookupKey::Bare { name: n }),
    }
}

/// The lookup key of a tool call.
pub fn get_function_tool_lookup_key_for_call(tool_call: &ToolCall) -> (res: Option<
    FunctionToolLookupKey,
>)
    ensures
        opt_key_view(res) == (match call_name(*tool_call) {
            Some(n) => lookup_key(n, call_namespace(*tool_call)),
            None => None,
        }),
{
    match get_tool_call_name(tool_call) {
        Some(n) => get_function_tool_lookup_key(n, get_tool_call_namespace(tool_call)),
        None => None,
    }
}

/// Whether a definition is a deferred tool outside any namespace.
pub open spec fn deferred_top_level(definition: ToolDefinition) -> bool {
    definition.defer_loading && definition.namespace.is_none()
}

/// The primary lookup key of a definition.
pub open spec fn definition_lookup_key(definition: ToolDefinition) -> Option<LookupKeyView> {
    if deferred_top_level(definition) {
        Some(LookupKeyView::DeferredTopLevel(definition.name@))
    } else {
        lookup_key(definition.name@, opt_view(definition.namespace))
    }
}

/// The borrowed form of an optional owned string.
fn as_opt_str(s: &Option<String>) -> (res: Option<&str>)
    ensures
        opt_str_view(res) == opt_view(*s),
{
    match s {
        Some(v) => Some(v.as_str()),
        None => None,
    }
}

/// The primary lookup key of a definition.
pub fn get_function_tool_lookup_key_for_definition(definition: &ToolDefinition) -> (res: Option<
    FunctionToolLookupKey,
>)
    ensures
        opt_key_view(res) == definition_lookup_key(*definition),
{
    if definition.defer_loading && definition.namespace.is_none() {
        return Some(FunctionToolLookupKey::DeferredTopLevel { name: copy_string(&definition.name) });
    }
    get_function_tool_lookup_key(definition.name.as_str(), as_opt_str(&definition.namespace))
}

/// All keys a definition is found under: its name key (unless deferred), then the
/// deferred top-level key when the tool is deferred outside any namespace.
pub open spec fn lookup_keys(definition: ToolDefinition) -> Seq<LookupKeyView> {
    let first: Seq<LookupKeyView> = match lookup_key(
        definition.name@,
        opt_view(definition.namespace),
    ) {
        Some(LookupKeyView::DeferredTopLevel(_)) => Seq::empty(),
        Some(k) => seq![k],
        None => Seq::empty(),
    };
    if deferred_top_level(definition) {
        first.push(LookupKeyView::DeferredTopLevel(definition.name@))
    } else {
        first
    }
}

/// The keys of a key vector.
pub open spec fn keys_view(keys: Seq<FunctionToolLookupKey>) -> Seq<LookupKeyView> {
    keys.map_values(|k: FunctionToolLookupKey| k@)
}

/// All keys a definition is found under.
pub fn get_function_tool_lookup_keys(definition: &ToolDefinition) -> (res: Vec<
    FunctionToolLookupKey,
>)
    ensures
        keys_view(res@) == lookup_keys(*definition),
{
    let mut keys: Vec<FunctionToolLookupKey> = Vec::new();
    let key = get_function_tool_lookup_key(
        definition.name.as_str(),
        as_opt_str(&definition.namespace),
    );
    match key {
        Some(FunctionToolLookupKey::DeferredTopLevel { .. }) => {},
        Some(k) => {
            keys.push(k);
        },
        None => {},
    }
    if definition.defer_loading && definition.namespace.is_none() {
        keys.push(FunctionToolLookupKey::DeferredTopLevel { name: copy_string(&definition.name) });
    }
    assert(keys_view(keys@) =~= lookup_keys(*definition));
    keys
}

/// The qualified name of a definition.
pub fn get_function_tool_qualified_name(definition: &ToolDefinition) -> (res: Option<String>)
    ensures
        opt_view(res) == qualified_name(definition.name@, opt_view(definition.namespace)),
{
    tool_qualified_name(definition.name.as_str(), as_opt_str(&definition.namespace))
}

/// The trace name of a definition.
pub fn get_function_tool_trace_name(definition: &ToolDefinition) -> (res: Option<String>)
    ensures
        opt_view(res) == trace_name(definition.name@, opt_view(definition.namespace)),
{
    tool_trace_name(definition.name.as_str(), as_opt_str(&definition.namespace))
}

/// The approval key a lookup key stands for.
pub open spec fn approval_key_of(key: LookupKeyView) -> Seq<char> {
    match key {
        LookupKeyView::Bare(name) => name,
        LookupKeyView::Namespaced(ns, name) => match qualified_name(name, Some(ns)) {
            Some(q) => q,
            None => name,
        },
        LookupKeyView::DeferredTopLevel(name) => "deferred_top_level:"@ + name,
    }
}

/// The keys under which an approval of this tool is recorded.
pub open spec fn approval_keys(
    name: Seq<char>,
    namespace: Option<Seq<char>>,
    allow_bare_name_alias: bool,
    given: Option<LookupKeyView>,
) -> Seq<Seq<char>> {
    let n = trim_view(name);
    if n.len() == 0 {
        Seq::empty()
    } else {
        let first: Seq<Seq<char>> = if allow_bare_name_alias {
            seq![n]
        } else {
            Seq::empty()
        };
        let resolved = match given {
            Some(k) => Some(k),
            None => lookup_key(n, namespace),
        };
        let second = match resolved {
            Some(k) => if first.contains(approval_key_of(k)) {
                first
            } else {
                first.push(approval_key_of(k))
            },
            None => first,
        };
        if second.len() == 0 {
            seq![n]
        } else {
            second
        }
    }
}

/// The characters of each string.
pub open spec fn strings_view(v: Seq<String>) -> Seq<Seq<char>> {
    v.map_values(|s: String| s@)
}

/// Whether `v` holds a string with the characters of `s`.
fn strings_contain(v: &Vec<String>, s: &str) -> (res: bool)
    ensures
        res == strings_view(v@).contains(s@),
{
    let mut i: usize = 0;
    while i < v.len()
        invariant
            i <= v@.len(),
            forall|k: int| 0 <= k < i ==> v@[k]@ != s@,
        decreases v@.len() - i,
    {
        if str_eq(v[i].as_str(), s) {
            assert(strings_view(v@)[i as int] == s@);
            return true;
        }
        i = i + 1;
    }
    assert(!strings_view(v@).contains(s@)) by {
        if strings_view(v@).contains(s@) {
            let k = choose|k: int| 0 <= k < strings_view(v@).len() && strings_view(v@)[k] == s@;
            assert(v@[k]@ == s@);
        }
    }
    false
}

/// Copies a lookup key.
pub fn copy_lookup_key(key: &FunctionToolLookupKey) -> (res: FunctionToolLookupKey)
    ensures
        res@ == key@,
{
    match key {
        FunctionToolLookupKey::Bare { name } => FunctionToolLookupKey::Bare { name: copy_string(name) },
        FunctionToolLookupKey::Namespaced { namespace, name } => FunctionToolLookupKey::Namespaced {
            namespace: copy_string(namespace),
            name: copy_string(name),
        },
        FunctionToolLookupKey::DeferredTopLevel { name } => FunctionToolLookupKey::DeferredTopLevel {
            name: copy_string(name),
        },
    }
}

/// The borrowed view of an optional key argument.
pub open spec fn opt_key_ref_view(k: Option<&FunctionToolLookupKey>) -> Option<LookupKeyView> {
    match k {
        Some(key) => Some(key@),
        None => None,
    }
}

/// The keys under which an approval of this tool is recorded: the trimmed bare name
/// when the alias is allowed, then the key's own form (qualified, bare or
/// `deferred_top_level:` prefixed) unless already present; never empty for a
/// non-blank name.
pub fn get_function_tool_approval_keys(
    name: &str,
    namespace: Option<&str>,
    allow_bare_name_alias: bool,
    lookup_key: Option<&FunctionToolLookupKey>,
) -> (res: Vec<String>)
    ensures
        strings_view(res@) == approval_keys(
            name@,
            opt_str_view(namespace),
            allow_bare_name_alias,
            opt_key_ref_view(lookup_key),
        ),
{
    let n = trim_str(name);
    if n.unicode_len() == 0 {
        let empty: Vec<String> = Vec::new();
        assert(strings_view(empty@) =~= Seq::<Seq<char>>::empty());
        return empty;
    }
    let mut keys: Vec<String> = Vec::new();
    if allow_bare_name_alias {
        keys.push(copy_string(&n));
    }
    let ghost first = strings_view(keys@);
    assert(first =~= (if allow_bare_name_alias {
        seq![n@]
    } else {
        Seq::<Seq<char>>::empty()
    }));
    let resolved = match lookup_key {
        Some(k) => Some(copy_lookup_key(k)),
        None => get_function_tool_lookup_key(n.as_str(), namespace),
    };
    proof {
        assert(trim_view(n@) == n@) by {
            crate::text::lemma_trim_idempotent(name@);
        }
    }
    match resolved {
        Some(key) => {
            let key_value = match key {
                FunctionToolLookupKey::Bare { name } => name,
                FunctionToolLookupKey::Namespaced { namespace, name } => {
                    match tool_qualified_name(name.as_str(), Some(namespace.as_str())) {
                        Some(q) => q,
                        None => name,
                    }
                },
                FunctionToolLookupKey::DeferredTopLevel { name } => concat2(
                    "deferred_top_level:",
                    name.as_str(),
                ),
            };
            if !strings_contain(&keys, key_value.as_str()) {
                keys.push(key_value);
            }
        },
        None => {},
    }
    if keys.len() == 0 {
        keys.push(n);
    }
    assert(strings_view(keys@) =~= approval_keys(
        name@,
        opt_str_view(namespace),
        allow_bare_name_alias,
        opt_key_ref_view(lookup_key),
    ));
    keys
}

/// The message given when a definition uses its own name as namespace.
pub open spec fn reserved_namespace_message(name: Seq<char>, namespace: Option<Seq<char>>) -> Seq<
    char,
> {
    let key = match qualified_name(name, namespace) {
        Some(q) => q,
        None => "unknown_tool"@,
    };
    "responses tool-search reserves the synthetic namespace `"@ + key
        + "` for deferred top-level function tools"@
}

/// Refuses a tool whose namespace is its own name, which tool search reserves for
/// deferred top-level tools.
pub fn validate_function_tool_namespace_shape(name: &str, namespace: Option<&str>) -> (res: Result<
    (),
    UserError,
>)
    ensures
        res.is_ok() == !reserved_namespace(name@, opt_str_view(namespace)),
        res matches Err(e) ==> e.message@ == reserved_namespace_message(
            trim_view(name@),
            opt_str_view(namespace),
        ),
{
    let n = trim_str(name);
    proof {
        crate::text::lemma_trim_idempotent(name@);
    }
    if !is_reserved_synthetic_tool_namespace(n.as_str(), namespace) {
        return Ok(());
    }
    let reserved_key = match tool_qualified_name(n.as_str(), namespace) {
        Some(q) => q,
        None => String::from_str("unknown_tool"),
    };
    Err(
        UserError {
            message: concat3(
                "responses tool-search reserves the synthetic namespace `",
                reserved_key.as_str(),
                "` for deferred top-level function tools",
            ),
        },
    )
}


/// Whether two lookup keys are the same key.
pub fn lookup_key_eq(a: &FunctionToolLookupKey, b: &FunctionToolLookupKey) -> (res: bool)
    ensures
        res == (a@ == b@),
{
    match (a, b) {
        (FunctionToolLookupKey::Bare { name: x }, FunctionToolLookupKey::Bare { name: y }) => str_eq(
            x.as_str(),
            y.as_str(),
        ),
        (
            FunctionToolLookupKey::Namespaced { namespace: nx, name: x },
            FunctionToolLookupKey::Namespaced { namespace: ny, name: y },
        ) => str_eq(nx.as_str(), ny.as_str()) && str_eq(x.as_str(), y.as_str()),
        (
            FunctionToolLookupKey::DeferredTopLevel { name: x },
            FunctionToolLookupKey::DeferredTopLevel { name: y },
        ) => str_eq(x.as_str(), y.as_str()),
        _ => false,
    }
}

/// The map that a list of (key, definition index) pairs stands for; a later pair
/// overrides an earlier one with the same key.
pub open spec fn entries_map(e: Seq<(FunctionToolLookupKey, usize)>) -> Map<LookupKeyView, int>
    decreases e.len(),
{
    if e.len() == 0 {
        Map::empty()
    } else {
        entries_map(e.drop_last()).insert(e.last().0@, e.last().1 as int)
    }
}

/// Entries past `i` that do not hold `k` leave its value as the first `i` entries give it.
proof fn lemma_entries_map_tail(e: Seq<(FunctionToolLookupKey, usize)>, i: int, k: LookupKeyView)
    requires
        0 <= i <= e.len(),
        forall|j: int| i <= j < e.len() ==> (#[trigger] e[j]).0@ != k,
    ensures
        entries_map(e).contains_key(k) == entries_map(e.subrange(0, i)).contains_key(k),
        entries_map(e).contains_key(k) ==> entries_map(e)[k] == entries_map(e.subrange(0, i))[k],
    decreases e.len() - i,
{
    if i < e.len() {
        let d = e.drop_last();
        assert forall|j: int| i <= j < d.len() implies (#[trigger] d[j]).0@ != k by {
            assert(d[j] == e[j]);
        }
        lemma_entries_map_tail(d, i, k);
        assert(d.subrange(0, i) =~= e.subrange(0, i));
        assert(e.last() == e[e.len() - 1]);
    } else {
        assert(e.subrange(0, i) =~= e);
    }
}

/// Lookup keys mapped to the index of the definition they find.
pub struct FunctionToolLookupMap {
    entries: Vec<(FunctionToolLookupKey, usize)>,
}

impl View for FunctionToolLookupMap {
    type V = Map<LookupKeyView, int>;

    closed spec fn view(&self) -> Map<LookupKeyView, int> {
        entries_map(self.entries@)
    }
}

impl FunctionToolLookupMap {
    /// An empty map.
    pub fn new() -> (res: Self)
        ensures
            res@ == Map::<LookupKeyView, int>::empty(),
    {
        FunctionToolLookupMap { entries: Vec::new() }
    }

    /// Maps `key` to `index`, replacing what it mapped to before.
    pub fn insert(&mut self, key: FunctionToolLookupKey, index: usize)
        ensures
            final(self)@ == old(self)@.insert(key@, index as int),
    {
        let ghost before = self.entries@;
        self.entries.push((key, index));
        proof {
            assert(self.entries@.drop_last() =~= before);
        }
    }

    /// The definition index that `key` finds.
    pub fn get(&self, key: &FunctionToolLookupKey) -> (res: Option<usize>)
        ensures
            res.is_some() == self@.contains_key(key@),
            res matches Some(i) ==> self@[key@] == i as int,
    {
        let mut i: usize = self.entries.len();
        while i > 0
            invariant
                i <= self.entries@.len(),
                forall|j: int| i <= j < self.entries@.len() ==> (#[trigger] self.entries@[j]).0@
                    != key@,
            decreases i,
        {
            if lookup_key_eq(&self.entries[i - 1].0, key) {
                proof {
                    let e = self.entries@;
                    let p = e.subrange(0, i as int);
                    lemma_entries_map_tail(e, i as int, key@);
                    assert(p.drop_last() =~= e.subrange(0, i - 1));
                    assert(p.last() == e[i - 1]);
                }
                return Some(self.entries[i - 1].1);
            }
            i = i - 1;
        }
        proof {
            lemma_entries_map_tail(self.entries@, 0, key@);
        }
        None
    }

    /// Whether `key` finds a definition.
    pub fn contains_key(&self, key: &FunctionToolLookupKey) -> (res: bool)
        ensures
            res == self@.contains_key(key@),
    {
        self.get(key).is_some()
    }
}

/// `m` with every key of `keys` mapped to `i`.
pub open spec fn insert_keys(m: Map<LookupKeyView, int>, keys: Seq<LookupKeyView>, i: int) -> Map<
    LookupKeyView,
    int,
>
    decreases keys.len(),
{
    if keys.len() == 0 {
        m
    } else {
        insert_keys(m, keys.drop_last(), i).insert(keys.last(), i)
    }
}

/// The lookup map of a list of definitions: each key finds the last definition that has it.
pub open spec fn tools_map(defs: Seq<ToolDefinition>) -> Map<LookupKeyView, int>
    decreases defs.len(),
{
    if defs.len() == 0 {
        Map::empty()
    } else {
        insert_keys(tools_map(defs.drop_last()), lookup_keys(defs.last()), defs.len() - 1)
    }
}

/// Whether a definition uses its own name as namespace.
pub open spec fn definition_reserved(d: ToolDefinition) -> bool {
    reserved_namespace(trim_view(d.name@), opt_view(d.namespace))
}

/// Builds the lookup map of the definitions, refusing the first one whose namespace
/// is its own name.
pub fn build_function_tool_lookup_map(tools: &[ToolDefinition]) -> (res: Result<
    FunctionToolLookupMap,
    UserError,
>)
    ensures
        res.is_ok() == (forall|i: int| 0 <= i < tools@.len() ==> !definition_reserved(
            #[trigger] tools@[i],
        )),
        res matches Ok(m) ==> m@ == tools_map(tools@),
        res matches Err(e) ==> exists|i: int|
            0 <= i < tools@.len() && definition_reserved(#[trigger] tools@[i]) && (forall|j: int|
                0 <= j < i ==> !definition_reserved(#[trigger] tools@[j])) && e.message@
                == reserved_namespace_message(
                trim_view(tools@[i].name@),
                opt_view(tools@[i].namespace),
            ),
{
    let mut map = FunctionToolLookupMap::new();
    let mut i: usize = 0;
    while i < tools.len()
        invariant
            i <= tools@.len(),
            map@ == tools_map(tools@.subrange(0, i as int)),
            forall|j: int| 0 <= j < i ==> !definition_reserved(#[trigger] tools@[j]),
        decreases tools@.len() - i,
    {
        let definition = &tools[i];
        proof {
            crate::text::lemma_trim_idempotent(definition.name@);
        }
        match validate_function_tool_namespace_shape(
            definition.name.as_str(),
            as_opt_str(&definition.namespace),
        ) {
            Ok(()) => {},
            Err(e) => {
                assert(definition_reserved(tools@[i as int]));
                return Err(e);
            },
        }
        let keys = get_function_tool_lookup_keys(definition);
        let ghost base = map@;
        let mut j: usize = 0;
        while j < keys.len()
            invariant
                j <= keys@.len(),
                i < tools@.len(),
                map@ == insert_keys(base, keys_view(keys@).subrange(0, j as int), i as int),
            decreases keys@.len() - j,
        {
            let ghost ks = keys_view(keys@);
            map.insert(copy_lookup_key(&keys[j]), i);
            proof {
                let sub = ks.subrange(0, j + 1);
                assert(sub.drop_last() =~= ks.subrange(0, j as int));
                assert(sub.last() == keys@[j as int]@);
            }
            j = j + 1;
        }
        proof {
            let p = tools@.subrange(0, i + 1);
            assert(p.drop_last() =~= tools@.subrange(0, i as int));
            assert(p.last() == tools@[i as int]);
            assert(keys_view(keys@).subrange(0, keys@.len() as int) =~= keys_view(keys@));
        }
        i = i + 1;
    }
    assert(tools@.subrange(0, tools@.len() as int) =~= tools@);
    Ok(map)
}

} // verus!
