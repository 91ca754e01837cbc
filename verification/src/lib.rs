//! Core logic of the zerostack coding agent: command splitting, edit-block
//! parsing, permission globs, configuration resolution and the small text
//! transformations the agent relies on, each with a verified contract.

pub mod pricing;
pub mod text;
pub mod strmap;
pub mod layers;
pub mod prompts;
pub mod themes;
pub mod docs;
pub mod json;
pub mod chain;
pub mod config;
pub mod bash;
pub mod sandbox;
pub mod truncate;
pub mod fs;
pub mod pattern;
pub mod oauth;
pub mod mcp_config;
pub mod acp;
pub mod edit;
pub mod runner;
pub mod tools;
pub mod lsp;
pub mod signals;
pub mod rtk;
pub mod logging;
pub mod storage;
pub mod subagents;
pub mod mcp_tool;
pub mod schema;
pub mod json_text;
pub mod edit_match;
