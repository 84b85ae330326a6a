//! Process-wide OpenAI compatibility settings and debug logging flags.
//!
//! The settings are held in an explicit `OpenAICompatibilityConfig` value; the
//! flags are decided from the text of the environment variable that holds them.
use vstd::prelude::*;

use crate::text::{copy_opt_string, opt_view, str_eq};

verus! {

/// Default OpenAI API selection used by top-level helpers.
#[derive(Clone, Copy, Debug, PartialEq, Eq, Structural)]
pub enum DefaultOpenAIApi {
    ChatCompletions,
    Responses,
}

impl Default for DefaultOpenAIApi {
    fn default() -> (res: Self)
        ensures
            res == DefaultOpenAIApi::Responses,
    {
        DefaultOpenAIApi::Responses
    }
}

/// Default transport selection used by Responses helpers.
#[derive(Clone, Copy, Debug, PartialEq, Eq, Structural)]
pub enum DefaultOpenAIResponsesTransport {
    Http,
    Websocket,
}

impl Default for DefaultOpenAIResponsesTransport {
    fn default() -> (res: Self)
        ensures
            res == DefaultOpenAIResponsesTransport::Http,
    {
        DefaultOpenAIResponsesTransport::Http
    }
}

/// The compatibility settings: API key, tracing export key, API and transport.
pub struct OpenAICompatibilityConfig {
    pub api_key: Option<String>,
    pub tracing_export_api_key: Option<String>,
    pub api: DefaultOpenAIApi,
    pub responses_transport: DefaultOpenAIResponsesTransport,
}

/// The settings before anything is set: no keys, the Responses API over HTTP.
pub fn config() -> (res: OpenAICompatibilityConfig)
    ensures
        res.api_key.is_none(),
        res.tracing_export_api_key.is_none(),
        res.api == DefaultOpenAIApi::Responses,
        res.responses_transport == DefaultOpenAIResponsesTransport::Http,
{
    OpenAICompatibilityConfig {
        api_key: None,
        tracing_export_api_key: None,
        api: DefaultOpenAIApi::Responses,
        responses_transport: DefaultOpenAIResponsesTransport::Http,
    }
}

/// Sets the default API key; with `use_for_tracing` it becomes the tracing export key too.
pub fn set_default_openai_key(config: &mut OpenAICompatibilityConfig, key: String, use_for_tracing: bool)
    ensures
        opt_view(final(config).api_key) == Some(key@),
        opt_view(final(config).tracing_export_api_key) == (if use_for_tracing {
            Some(key@)
        } else {
            opt_view(old(config).tracing_export_api_key)
        }),
        final(config).api == old(config).api,
        final(config).responses_transport == old(config).responses_transport,
{
    if use_for_tracing {
        config.tracing_export_api_key = Some(key.clone());
    }
    config.api_key = Some(key);
}

/// The default API key, if one was set.
pub fn default_openai_key(config: &OpenAICompatibilityConfig) -> (res: Option<String>)
    ensures
        opt_view(res) == opt_view(config.api_key),
{
    copy_opt_string(&config.api_key)
}

/// Sets the key used to export traces.
pub fn set_default_tracing_export_api_key(config: &mut OpenAICompatibilityConfig, key: String)
    ensures
        opt_view(final(config).tracing_export_api_key) == Some(key@),
        opt_view(final(config).api_key) == opt_view(old(config).api_key),
        final(config).api == old(config).api,
        final(config).responses_transport == old(config).responses_transport,
{
    config.tracing_export_api_key = Some(key);
}

/// The key used to export traces, if one was set.
pub fn default_tracing_export_api_key(config: &OpenAICompatibilityConfig) -> (res: Option<String>)
    ensures
        opt_view(res) == opt_view(config.tracing_export_api_key),
{
    copy_opt_string(&config.tracing_export_api_key)
}

/// Selects the default API.
pub fn set_default_openai_api(config: &mut OpenAICompatibilityConfig, api: DefaultOpenAIApi)
    ensures
        final(config).api == api,
        opt_view(final(config).api_key) == opt_view(old(config).api_key),
        opt_view(final(config).tracing_export_api_key) == opt_view(
            old(config).tracing_export_api_key,
        ),
        final(config).responses_transport == old(config).responses_transport,
{
    config.api = api;
}

/// The default API.
pub fn default_openai_api(config: &OpenAICompatibilityConfig) -> (res: DefaultOpenAIApi)
    ensures
        res == config.api,
{
    config.api
}

/// Selects the default Responses transport.
pub fn set_default_openai_responses_transport(
    config: &mut OpenAICompatibilityConfig,
    transport: DefaultOpenAIResponsesTransport,
)
    ensures
        final(config).responses_transport == transport,
        opt_view(final(config).api_key) == opt_view(old(config).api_key),
        opt_view(final(config).tracing_export_api_key) == opt_view(
            old(config).tracing_export_api_key,
        ),
        final(config).api == old(config).api,
{
    config.responses_transport = transport;
}

/// The default Responses transport.
pub fn default_openai_responses_transport(config: &OpenAICompatibilityConfig) -> (res:
    DefaultOpenAIResponsesTransport)
    ensures
        res == config.responses_transport,
{
    config.responses_transport
}

/// Whether a flag's text turns it on: `1`, `true`, `TRUE` or `True`.
pub open spec fn flag_text_enabled(value: Seq<char>) -> bool {
    value == "1"@ || value == "true"@ || value == "TRUE"@ || value == "True"@
}

/// The flag's state given the text of its environment variable (`None` when unset).
pub open spec fn flag_enabled(value: Option<Seq<char>>, default: bool) -> bool {
    match value {
        Some(v) => flag_text_enabled(v),
        None => default,
    }
}

/// Decides a debug flag from the text of its environment variable, `None` when it is unset.
pub fn debug_flag_enabled(value: Option<&str>, default: bool) -> (res: bool)
    ensures
        res == flag_enabled(
            match value {
                Some(v) => Some(v@),
                None => None,
            },
            default,
        ),
{
    match value {
        Some(v) => str_eq(v, "1") || str_eq(v, "true") || str_eq(v, "TRUE") || str_eq(v, "True"),
        None => default,
    }
}

/// Whether model data is kept out of logs, given `OPENAI_AGENTS_DONT_LOG_MODEL_DATA`.
pub fn load_dont_log_model_data(value: Option<&str>) -> (res: bool)
    ensures
        res == flag_enabled(
            match value {
                Some(v) => Some(v@),
                None => None,
            },
            true,
        ),
{
    debug_flag_enabled(value, true)
}

/// Whether tool data is kept out of logs, given `OPENAI_AGENTS_DONT_LOG_TOOL_DATA`.
pub fn load_dont_log_tool_data(value: Option<&str>) -> (res: bool)
    ensures
        res == flag_enabled(
            match value {
                Some(v) => Some(v@),
                None => None,
            },
            true,
        ),
{
    debug_flag_enabled(value, true)
}

/// Same as `load_dont_log_model_data`.
pub fn dont_log_model_data(value: Option<&str>) -> (res: bool)
    ensures
        res == flag_enabled(
            match value {
                Some(v) => Some(v@),
                None => None,
            },
            true,
        ),
{
    load_dont_log_model_data(value)
}

/// Same as `load_dont_log_tool_data`.
pub fn dont_log_tool_data(value: Option<&str>) -> (res: bool)
    ensures
        res == flag_enabled(
            match value {
                Some(v) => Some(v@),
                None => None,
            },
            true,
        ),
{
    load_dont_log_tool_data(value)
}

} // verus!
