//! A small, event-driven agent SDK: the verified core of its policies,
//! transcript rules, text processing and persistence formats.

pub mod text;
pub mod permission;
pub mod types;
pub mod time;
pub mod error;
pub mod tool;
pub mod storage;
pub mod transcript;
pub mod plan;
pub mod retry;
pub mod context;
pub mod skill_config;
pub mod skill_args;
pub mod skill_catalog;
pub mod skill_frontmatter;
pub mod skill_tool;
pub mod subagent;
pub mod hook;
pub mod provider;
pub mod mcp;
pub mod agent;
pub mod chat;
pub mod json;
pub mod anthropic;
pub mod anthropic_stream;
pub mod responses;
pub mod skill_discovery;
pub mod turn_loop;
