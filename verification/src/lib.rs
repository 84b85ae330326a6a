//! Core runtime logic of an agents SDK: tool identities, run configuration,
//! conversation tracking, handoff history and the local sandbox model.
pub mod text;
pub mod usage;
pub mod lines;
pub mod errors;
pub mod fingerprint;
pub mod config;
pub mod tool_identity;
pub mod tool_context;
pub mod tool_use_tracker;
pub mod session;
pub mod session_input;
pub mod json;
pub mod json_map;
pub mod agent_behavior;
pub mod agent_output;
pub mod function_schema;
pub mod agent_tool_input;
pub mod agent_tool_state;
pub mod agent_tool;
pub mod items;
pub mod mcp;
pub mod mcp_manager;
pub mod model;
pub mod memory;
pub mod model_settings;
pub mod multi_provider;
pub mod prompts;
pub mod repl;
pub mod conversation;
pub mod guardrails;
pub mod handoff_history;
pub mod conversation_laws;
pub mod ordered;
pub mod replay;
pub mod run_flow;
pub mod run_driver;
pub mod run_state;
pub mod results;
pub mod sandbox;
pub mod sandbox_tools;
pub mod sandbox_profile;
pub mod shell;
pub mod stream_events;
pub mod strict_schema;
