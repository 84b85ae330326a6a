//! Routing a model name to a model provider by its prefix (`prefix/model`).
//!
//! Providers are values of any type `P`; routing picks one of them and the
//! model name to hand it.
use vstd::prelude::*;

use crate::lines::{law_split_once_at_first, split_once, split_once_spec, string_of};
use crate::ordered::StrMap;
use crate::text::{chars_of, concat3, opt_view, str_eq};

verus! {

/// What the `openai/` prefix means when no provider is mapped to it.
#[derive(Clone, Copy, Debug, PartialEq, Eq, Structural)]
pub enum MultiProviderOpenAIPrefixMode {
    /// The default provider gets the name without the prefix.
    Alias,
    /// The default provider gets the whole name.
    ModelId,
}

/// What a prefix no provider is mapped to means.
#[derive(Clone, Copy, Debug, PartialEq, Eq, Structural)]
pub enum MultiProviderUnknownPrefixMode {
    /// No provider serves the model.
    Error,
    /// The default provider gets the whole name.
    ModelId,
}

/// Providers by prefix.
pub struct MultiProviderMap<P> {
    mapping: StrMap<P>,
}

impl<P> MultiProviderMap<P> {
    /// The provider of each prefix.
    pub closed spec fn view(&self) -> Map<Seq<char>, P> {
        self.mapping.view()
    }

    /// A map without providers.
    pub fn new() -> (res: Self)
        ensures
            res.view() == Map::<Seq<char>, P>::empty(),
    {
        MultiProviderMap { mapping: StrMap::new() }
    }

    /// Whether a provider is mapped to `prefix`.
    pub fn has_prefix(&self, prefix: &str) -> (res: bool)
        ensures
            res == self.view().contains_key(prefix@),
    {
        self.mapping.contains_key(prefix)
    }

    /// The providers by prefix.
    pub fn get_mapping(&self) -> (res: &StrMap<P>)
        ensures
            res.view() == self.view(),
    {
        &self.mapping
    }

    /// Replaces the providers.
    pub fn set_mapping(&mut self, mapping: StrMap<P>)
        ensures
            final(self).view() == mapping.view(),
    {
        self.mapping = mapping;
    }

    /// The provider mapped to `prefix`.
    pub fn get_provider(&self, prefix: &str) -> (res: Option<&P>)
        ensures
            match res {
                Some(p) => self.view().contains_key(prefix@) && self.view()[prefix@] == *p,
                None => !self.view().contains_key(prefix@),
            },
    {
        self.mapping.get(prefix)
    }

    /// Maps `provider` to `prefix`.
    pub fn add_provider(&mut self, prefix: String, provider: P)
        ensures
            final(self).view() == old(self).view().insert(prefix@, provider),
    {
        self.mapping.insert(prefix, provider);
    }

    /// Unmaps `prefix`, giving back its provider.
    pub fn remove_provider(&mut self, prefix: &str) -> (res: Option<P>)
        ensures
            final(self).view() == old(self).view().remove(prefix@),
            match res {
                Some(p) => old(self).view().contains_key(prefix@) && old(self).view()[prefix@] == p,
                None => !old(self).view().contains_key(prefix@),
            },
    {
        self.mapping.remove(prefix)
    }
}

/// A model name split at its first `/` into prefix and rest; a name without
/// `/` has no prefix.
pub open spec fn split_name(model: Option<Seq<char>>) -> (Option<Seq<char>>, Option<Seq<char>>) {
    match model {
        None => (None, None),
        Some(m) => match split_once_spec(m, '/') {
            Some((prefix, rest)) => (Some(prefix), Some(rest)),
            None => (None, Some(m)),
        },
    }
}

/// Where a model name is routed.
pub enum Route {
    /// To the provider mapped to the prefix, with this name.
    Mapped(Seq<char>, Option<Seq<char>>),
    /// To the default provider, with this name.
    Default(Option<Seq<char>>),
    /// Nowhere: the prefix is unknown.
    Unavailable,
}

/// Where a model name is routed: a mapped prefix to its provider with the
/// rest of the name; `openai` to the default provider with the rest (alias
/// mode) or the whole name; another prefix to the default provider with the
/// whole name, or nowhere; a name without prefix to the default provider.
pub open spec fn route(
    prefixes: Set<Seq<char>>,
    openai_mode: MultiProviderOpenAIPrefixMode,
    unknown_mode: MultiProviderUnknownPrefixMode,
    model: Option<Seq<char>>,
) -> Route {
    let (prefix, stripped) = split_name(model);
    match prefix {
        Some(p) => if prefixes.contains(p) {
            Route::Mapped(p, stripped)
        } else if p == "openai"@ {
            match openai_mode {
                MultiProviderOpenAIPrefixMode::Alias => Route::Default(stripped),
                MultiProviderOpenAIPrefixMode::ModelId => Route::Default(model),
            }
        } else {
            match unknown_mode {
                MultiProviderUnknownPrefixMode::ModelId => Route::Default(model),
                MultiProviderUnknownPrefixMode::Error => Route::Unavailable,
            }
        },
        None => Route::Default(model),
    }
}

/// The characters of an optional `&str`.
pub open spec fn opt_str_view(s: Option<&str>) -> Option<Seq<char>> {
    match s {
        Some(t) => Some(t@),
        None => None,
    }
}

/// The message of a model no provider serves.
pub open spec fn unknown_prefix_text(model: Option<Seq<char>>) -> Seq<char> {
    let p = match split_name(model).0 {
        Some(p) => p,
        None => "unknown"@,
    };
    "unknown model provider prefix `"@ + p + "`"@
}

/// A provider that routes each model name to a provider by its prefix.
pub struct MultiProvider<P> {
    default_provider: P,
    provider_map: MultiProviderMap<P>,
    openai_prefix_mode: MultiProviderOpenAIPrefixMode,
    unknown_prefix_mode: MultiProviderUnknownPrefixMode,
}

impl<P> MultiProvider<P> {
    /// The provider used when no prefix routes elsewhere.
    pub closed spec fn default_view(&self) -> P {
        self.default_provider
    }

    /// The providers by prefix.
    pub closed spec fn map_view(&self) -> Map<Seq<char>, P> {
        self.provider_map.view()
    }

    /// What the `openai/` prefix means.
    pub closed spec fn openai_mode_view(&self) -> MultiProviderOpenAIPrefixMode {
        self.openai_prefix_mode
    }

    /// What an unknown prefix means.
    pub closed spec fn unknown_mode_view(&self) -> MultiProviderUnknownPrefixMode {
        self.unknown_prefix_mode
    }

    /// Routing to `default_provider`, with `openai/` as an alias and unknown
    /// prefixes refused.
    pub fn new(default_provider: P) -> (res: Self)
        ensures
            res.default_view() == default_provider,
            res.map_view() == Map::<Seq<char>, P>::empty(),
            res.openai_mode_view() == MultiProviderOpenAIPrefixMode::Alias,
            res.unknown_mode_view() == MultiProviderUnknownPrefixMode::Error,
    {
        MultiProvider {
            default_provider,
            provider_map: MultiProviderMap::new(),
            openai_prefix_mode: MultiProviderOpenAIPrefixMode::Alias,
            unknown_prefix_mode: MultiProviderUnknownPrefixMode::Error,
        }
    }

    /// The same provider with `provider_map` as its providers.
    pub fn with_provider_map(self, provider_map: MultiProviderMap<P>) -> (res: Self)
        ensures
            res.default_view() == self.default_view(),
            res.map_view() == provider_map.view(),
            res.openai_mode_view() == self.openai_mode_view(),
            res.unknown_mode_view() == self.unknown_mode_view(),
    {
        MultiProvider { provider_map, ..self }
    }

    /// The same provider with `mode` for the `openai/` prefix.
    pub fn with_openai_prefix_mode(self, mode: MultiProviderOpenAIPrefixMode) -> (res: Self)
        ensures
            res.default_view() == self.default_view(),
            res.map_view() == self.map_view(),
            res.openai_mode_view() == mode,
            res.unknown_mode_view() == self.unknown_mode_view(),
    {
        MultiProvider { openai_prefix_mode: mode, ..self }
    }

    /// The same provider with `mode` for unknown prefixes.
    pub fn with_unknown_prefix_mode(self, mode: MultiProviderUnknownPrefixMode) -> (res: Self)
        ensures
            res.default_view() == self.default_view(),
            res.map_view() == self.map_view(),
            res.openai_mode_view() == self.openai_mode_view(),
            res.unknown_mode_view() == mode,
    {
        MultiProvider { unknown_prefix_mode: mode, ..self }
    }

    /// The providers by prefix.
    pub fn provider_map(&self) -> (res: &MultiProviderMap<P>)
        ensures
            res.view() == self.map_view(),
    {
        &self.provider_map
    }

    /// The provider used when no prefix routes elsewhere.
    pub fn default_provider(&self) -> (res: &P)
        ensures
            *res == self.default_view(),
    {
        &self.default_provider
    }

    /// Splits a model name into its prefix and the rest.
    pub fn split_model_name(&self, model_name: Option<&str>) -> (res: (Option<String>, Option<String>))
        ensures
            (opt_view(res.0), opt_view(res.1)) == split_name(opt_str_view(model_name)),
    {
        let m = match model_name {
            Some(m) => m,
            None => {
                return (None, None);
            },
        };
        let cs = chars_of(m);
        match split_once(&cs, '/') {
            Some((prefix, rest)) => (Some(string_of(&prefix)), Some(string_of(&rest))),
            None => (None, Some(String::from_str(m))),
        }
    }

    /// The provider a model name is routed to and the name it gets, or nothing
    /// when the prefix is unknown and refused.
    pub fn resolve_provider_for_model(&self, model: Option<&str>) -> (res: Option<(&P, Option<String>)>)
        ensures
            match route(
                self.map_view().dom(),
                self.openai_mode_view(),
                self.unknown_mode_view(),
                opt_str_view(model),
            ) {
                Route::Mapped(p, name) => res matches Some((prov, n)) && *prov == self.map_view()[p]
                    && opt_view(n) == name,
                Route::Default(name) => res matches Some((prov, n)) && *prov == self.default_view()
                    && opt_view(n) == name,
                Route::Unavailable => res is None,
            },
    {
        let (prefix, stripped) = self.split_model_name(model);
        let whole = match model {
            Some(m) => Some(String::from_str(m)),
            None => None,
        };
        match prefix {
            Some(p) => {
                if let Some(provider) = self.provider_map.get_provider(p.as_str()) {
                    return Some((provider, stripped));
                }
                if str_eq(p.as_str(), "openai") {
                    return match self.openai_prefix_mode {
                        MultiProviderOpenAIPrefixMode::Alias => Some((&self.default_provider, stripped)),
                        MultiProviderOpenAIPrefixMode::ModelId => Some((&self.default_provider, whole)),
                    };
                }
                match self.unknown_prefix_mode {
                    MultiProviderUnknownPrefixMode::ModelId => Some((&self.default_provider, whole)),
                    MultiProviderUnknownPrefixMode::Error => None,
                }
            },
            None => Some((&self.default_provider, whole)),
        }
    }

    /// The message of a model no provider serves.
    pub fn unknown_prefix_message(&self, model: Option<&str>) -> (res: String)
        ensures
            res@ == unknown_prefix_text(opt_str_view(model)),
    {
        let (prefix, _) = self.split_model_name(model);
        match prefix {
            Some(p) => concat3("unknown model provider prefix `", p.as_str(), "`"),
            None => concat3("unknown model provider prefix `", "unknown", "`"),
        }
    }
}

/// A model name is routed by the text before its first `/`: a mapped prefix
/// sends the rest of the name to that prefix's provider, and a name without
/// `/` goes whole to the default provider.
pub proof fn law_route_by_first_prefix(
    prefixes: Set<Seq<char>>,
    openai_mode: MultiProviderOpenAIPrefixMode,
    unknown_mode: MultiProviderUnknownPrefixMode,
    prefix: Seq<char>,
    rest: Seq<char>,
    plain: Seq<char>,
)
    requires
        forall|k: int| 0 <= k < prefix.len() ==> prefix[k] != '/',
        forall|k: int| 0 <= k < plain.len() ==> plain[k] != '/',
    ensures
        prefixes.contains(prefix) ==> route(prefixes, openai_mode, unknown_mode, Some(prefix + seq!['/'] + rest))
            == Route::Mapped(prefix, Some(rest)),
        route(prefixes, openai_mode, unknown_mode, Some(plain)) == Route::Default(Some(plain)),
{
    law_split_once_at_first(prefix, rest, '/', plain);
}

} // verus!
