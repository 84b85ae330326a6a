//! Provider-agnostic model tuning parameters and how an override is laid over
//! a base.
//!
//! The sampling parameters (temperature, top-p and the penalties) are numbers
//! of the type `N` the caller picks; the settings only carry them.
use vstd::prelude::*;

use crate::json::Json;
use crate::json_map::JsonMap;
use crate::text::{copy_opt_string, copy_string, opt_view};

verus! {

/// Reasoning options of a model call.
pub struct ReasoningSettings {
    pub effort: Option<String>,
    pub summary: Option<String>,
}

/// What reasoning options stand for: the effort and the summary mode.
pub open spec fn reasoning_view(r: Option<ReasoningSettings>) -> Option<(Option<Seq<char>>, Option<Seq<char>>)> {
    match r {
        Some(r) => Some((opt_view(r.effort), opt_view(r.summary))),
        None => None,
    }
}

/// Model tuning parameters.
pub struct ModelSettings<N> {
    pub temperature: Option<N>,
    pub top_p: Option<N>,
    pub max_output_tokens: Option<u32>,
    pub frequency_penalty: Option<N>,
    pub presence_penalty: Option<N>,
    pub tool_choice: Option<String>,
    pub parallel_tool_calls: Option<bool>,
    pub truncation: Option<String>,
    pub store: Option<bool>,
    pub include_usage: Option<bool>,
    pub response_include: Vec<String>,
    pub top_logprobs: Option<u32>,
    pub reasoning: Option<ReasoningSettings>,
    pub verbosity: Option<String>,
    pub metadata: JsonMap,
    pub extra_query: JsonMap,
    pub extra_body: JsonMap,
    pub extra_headers: JsonMap,
    pub extra_args: JsonMap,
}

/// What model settings stand for.
pub struct SettingsView<N> {
    pub temperature: Option<N>,
    pub top_p: Option<N>,
    pub max_output_tokens: Option<u32>,
    pub frequency_penalty: Option<N>,
    pub presence_penalty: Option<N>,
    pub tool_choice: Option<Seq<char>>,
    pub parallel_tool_calls: Option<bool>,
    pub truncation: Option<Seq<char>>,
    pub store: Option<bool>,
    pub include_usage: Option<bool>,
    pub response_include: Seq<Seq<char>>,
    pub top_logprobs: Option<u32>,
    pub reasoning: Option<(Option<Seq<char>>, Option<Seq<char>>)>,
    pub verbosity: Option<Seq<char>>,
    pub metadata: Map<Seq<char>, Json>,
    pub extra_query: Map<Seq<char>, Json>,
    pub extra_body: Map<Seq<char>, Json>,
    pub extra_headers: Map<Seq<char>, Json>,
    pub extra_args: Map<Seq<char>, Json>,
}

/// The characters of each string.
pub open spec fn strings_view(v: Seq<String>) -> Seq<Seq<char>> {
    v.map_values(|s: String| s@)
}

impl<N> ModelSettings<N> {
    /// What these settings stand for.
    pub open spec fn view(&self) -> SettingsView<N> {
        SettingsView {
            temperature: self.temperature,
            top_p: self.top_p,
            max_output_tokens: self.max_output_tokens,
            frequency_penalty: self.frequency_penalty,
            presence_penalty: self.presence_penalty,
            tool_choice: opt_view(self.tool_choice),
            parallel_tool_calls: self.parallel_tool_calls,
            truncation: opt_view(self.truncation),
            store: self.store,
            include_usage: self.include_usage,
            response_include: strings_view(self.response_include@),
            top_logprobs: self.top_logprobs,
            reasoning: reasoning_view(self.reasoning),
            verbosity: opt_view(self.verbosity),
            metadata: self.metadata.view(),
            extra_query: self.extra_query.view(),
            extra_body: self.extra_body.view(),
            extra_headers: self.extra_headers.view(),
            extra_args: self.extra_args.view(),
        }
    }
}

/// The override's value where it sets one, else the base's.
pub open spec fn overlay<T>(base: Option<T>, over: Option<T>) -> Option<T> {
    if over.is_some() {
        over
    } else {
        base
    }
}

/// Settings with `over` laid over `base`: each parameter the override sets
/// replaces the base's, a non-empty include list replaces the base's, and the
/// override's map entries are added to the base's, replacing equal keys.
pub open spec fn overlay_settings<N>(base: SettingsView<N>, over: SettingsView<N>) -> SettingsView<N> {
    SettingsView {
        temperature: overlay(base.temperature, over.temperature),
        top_p: overlay(base.top_p, over.top_p),
        max_output_tokens: overlay(base.max_output_tokens, over.max_output_tokens),
        frequency_penalty: overlay(base.frequency_penalty, over.frequency_penalty),
        presence_penalty: overlay(base.presence_penalty, over.presence_penalty),
        tool_choice: overlay(base.tool_choice, over.tool_choice),
        parallel_tool_calls: overlay(base.parallel_tool_calls, over.parallel_tool_calls),
        truncation: overlay(base.truncation, over.truncation),
        store: overlay(base.store, over.store),
        include_usage: overlay(base.include_usage, over.include_usage),
        response_include: if over.response_include.len() > 0 {
            over.response_include
        } else {
            base.response_include
        },
        top_logprobs: overlay(base.top_logprobs, over.top_logprobs),
        reasoning: overlay(base.reasoning, over.reasoning),
        verbosity: overlay(base.verbosity, over.verbosity),
        metadata: base.metadata.union_prefer_right(over.metadata),
        extra_query: base.extra_query.union_prefer_right(over.extra_query),
        extra_body: base.extra_body.union_prefer_right(over.extra_body),
        extra_headers: base.extra_headers.union_prefer_right(over.extra_headers),
        extra_args: base.extra_args.union_prefer_right(over.extra_args),
    }
}

/// Copies a list of strings.
fn copy_strings(v: &Vec<String>) -> (res: Vec<String>)
    ensures
        strings_view(res@) == strings_view(v@),
{
    let mut out: Vec<String> = Vec::new();
    let mut i: usize = 0;
    while i < v.len()
        invariant
            i <= v@.len(),
            strings_view(out@) =~= strings_view(v@).subrange(0, i as int),
        decreases v@.len() - i,
    {
        let ghost before = out@;
        out.push(copy_string(&v[i]));
        assert(strings_view(out@) =~= strings_view(before).push(v@[i as int]@));
        i = i + 1;
    }
    out
}

/// Copies reasoning options.
fn copy_reasoning(r: &Option<ReasoningSettings>) -> (res: Option<ReasoningSettings>)
    ensures
        reasoning_view(res) == reasoning_view(*r),
{
    match r {
        Some(r) => Some(
            ReasoningSettings { effort: copy_opt_string(&r.effort), summary: copy_opt_string(&r.summary) },
        ),
        None => None,
    }
}

impl<N: Copy> ModelSettings<N> {
    /// Copies the settings.
    pub fn copy(&self) -> (res: Self)
        ensures
            res.view() == self.view(),
    {
        ModelSettings {
            temperature: self.temperature,
            top_p: self.top_p,
            max_output_tokens: self.max_output_tokens,
            frequency_penalty: self.frequency_penalty,
            presence_penalty: self.presence_penalty,
            tool_choice: copy_opt_string(&self.tool_choice),
            parallel_tool_calls: self.parallel_tool_calls,
            truncation: copy_opt_string(&self.truncation),
            store: self.store,
            include_usage: self.include_usage,
            response_include: copy_strings(&self.response_include),
            top_logprobs: self.top_logprobs,
            reasoning: copy_reasoning(&self.reasoning),
            verbosity: copy_opt_string(&self.verbosity),
            metadata: self.metadata.copy(),
            extra_query: self.extra_query.copy(),
            extra_body: self.extra_body.copy(),
            extra_headers: self.extra_headers.copy(),
            extra_args: self.extra_args.copy(),
        }
    }

    /// These settings with `override_settings`, when given, laid over them.
    pub fn resolve(&self, override_settings: Option<&Self>) -> (res: Self)
        ensures
            res.view() == match override_settings {
                Some(o) => overlay_settings(self.view(), o.view()),
                None => self.view(),
            },
    {
        let o = match override_settings {
            Some(o) => o,
            None => {
                return self.copy();
            },
        };
        ModelSettings {
            temperature: pick(self.temperature, o.temperature),
            top_p: pick(self.top_p, o.top_p),
            max_output_tokens: pick(self.max_output_tokens, o.max_output_tokens),
            frequency_penalty: pick(self.frequency_penalty, o.frequency_penalty),
            presence_penalty: pick(self.presence_penalty, o.presence_penalty),
            tool_choice: pick_string(&self.tool_choice, &o.tool_choice),
            parallel_tool_calls: pick(self.parallel_tool_calls, o.parallel_tool_calls),
            truncation: pick_string(&self.truncation, &o.truncation),
            store: pick(self.store, o.store),
            include_usage: pick(self.include_usage, o.include_usage),
            response_include: if o.response_include.len() > 0 {
                copy_strings(&o.response_include)
            } else {
                copy_strings(&self.response_include)
            },
            top_logprobs: pick(self.top_logprobs, o.top_logprobs),
            reasoning: if o.reasoning.is_some() {
                copy_reasoning(&o.reasoning)
            } else {
                copy_reasoning(&self.reasoning)
            },
            verbosity: pick_string(&self.verbosity, &o.verbosity),
            metadata: merge(&self.metadata, &o.metadata),
            extra_query: merge(&self.extra_query, &o.extra_query),
            extra_body: merge(&self.extra_body, &o.extra_body),
            extra_headers: merge(&self.extra_headers, &o.extra_headers),
            extra_args: merge(&self.extra_args, &o.extra_args),
        }
    }
}

/// The override's value where it sets one, else the base's.
fn pick<T: Copy>(base: Option<T>, over: Option<T>) -> (res: Option<T>)
    ensures
        res == overlay(base, over),
{
    if over.is_some() {
        over
    } else {
        base
    }
}

/// The override's text where it sets one, else the base's.
fn pick_string(base: &Option<String>, over: &Option<String>) -> (res: Option<String>)
    ensures
        opt_view(res) == overlay(opt_view(*base), opt_view(*over)),
{
    if over.is_some() {
        copy_opt_string(over)
    } else {
        copy_opt_string(base)
    }
}

/// The base's entries with the override's added, replacing equal keys.
fn merge(base: &JsonMap, over: &JsonMap) -> (res: JsonMap)
    ensures
        res.view() == base.view().union_prefer_right(over.view()),
{
    let mut merged = base.copy();
    if !over.is_empty() {
        merged.extend(over);
    } else {
        assert(base.view().union_prefer_right(over.view()) =~= base.view());
    }
    merged
}

impl<N> Default for ModelSettings<N> {
    fn default() -> (res: Self)
        ensures
            res.view() == unset_settings::<N>(),
    {
        let res = ModelSettings {
            temperature: None,
            top_p: None,
            max_output_tokens: None,
            frequency_penalty: None,
            presence_penalty: None,
            tool_choice: None,
            parallel_tool_calls: None,
            truncation: None,
            store: None,
            include_usage: None,
            response_include: Vec::new(),
            top_logprobs: None,
            reasoning: None,
            verbosity: None,
            metadata: JsonMap::new(),
            extra_query: JsonMap::new(),
            extra_body: JsonMap::new(),
            extra_headers: JsonMap::new(),
            extra_args: JsonMap::new(),
        };
        assert(strings_view(res.response_include@) =~= Seq::<Seq<char>>::empty());
        res
    }
}

/// The settings that set nothing.
pub open spec fn unset_settings<N>() -> SettingsView<N> {
    SettingsView::<N> {
        temperature: None,
        top_p: None,
        max_output_tokens: None,
        frequency_penalty: None,
        presence_penalty: None,
        tool_choice: None,
        parallel_tool_calls: None,
        truncation: None,
        store: None,
        include_usage: None,
        response_include: Seq::empty(),
        top_logprobs: None,
        reasoning: None,
        verbosity: None,
        metadata: Map::empty(),
        extra_query: Map::empty(),
        extra_body: Map::empty(),
        extra_headers: Map::empty(),
        extra_args: Map::empty(),
    }
}

/// An override that sets nothing leaves the base as it is, and settings laid
/// over themselves are unchanged.
pub proof fn law_overlay_neutral_and_idempotent<N>(base: SettingsView<N>)
    ensures
        overlay_settings(base, unset_settings::<N>()) == base,
        overlay_settings(base, base) == base,
{
    let e = Map::<Seq<char>, Json>::empty();
    assert(base.metadata.union_prefer_right(e) =~= base.metadata);
    assert(base.extra_query.union_prefer_right(e) =~= base.extra_query);
    assert(base.extra_body.union_prefer_right(e) =~= base.extra_body);
    assert(base.extra_headers.union_prefer_right(e) =~= base.extra_headers);
    assert(base.extra_args.union_prefer_right(e) =~= base.extra_args);
    assert(base.metadata.union_prefer_right(base.metadata) =~= base.metadata);
    assert(base.extra_query.union_prefer_right(base.extra_query) =~= base.extra_query);
    assert(base.extra_body.union_prefer_right(base.extra_body) =~= base.extra_body);
    assert(base.extra_headers.union_prefer_right(base.extra_headers) =~= base.extra_headers);
    assert(base.extra_args.union_prefer_right(base.extra_args) =~= base.extra_args);
}

/// Laying `b` over `a` and then `c` over the result is laying over `a` what
/// `c` laid over `b` gives.
pub proof fn law_overlay_associative<N>(a: SettingsView<N>, b: SettingsView<N>, c: SettingsView<N>)
    ensures
        overlay_settings(overlay_settings(a, b), c) == overlay_settings(a, overlay_settings(b, c)),
{
    assert(a.metadata.union_prefer_right(b.metadata).union_prefer_right(c.metadata) =~= a.metadata.union_prefer_right(
        b.metadata.union_prefer_right(c.metadata),
    ));
    assert(a.extra_query.union_prefer_right(b.extra_query).union_prefer_right(c.extra_query)
        =~= a.extra_query.union_prefer_right(b.extra_query.union_prefer_right(c.extra_query)));
    assert(a.extra_body.union_prefer_right(b.extra_body).union_prefer_right(c.extra_body)
        =~= a.extra_body.union_prefer_right(b.extra_body.union_prefer_right(c.extra_body)));
    assert(a.extra_headers.union_prefer_right(b.extra_headers).union_prefer_right(c.extra_headers)
        =~= a.extra_headers.union_prefer_right(b.extra_headers.union_prefer_right(c.extra_headers)));
    assert(a.extra_args.union_prefer_right(b.extra_args).union_prefer_right(c.extra_args)
        =~= a.extra_args.union_prefer_right(b.extra_args.union_prefer_right(c.extra_args)));
}

} // verus!
