//! agwiki: the verified core of an agent-driven markdown wiki pipeline.

pub mod text;
pub mod marker;
pub mod config;
pub mod slug;
pub mod order;
pub mod upkeep;
pub mod validate;
pub mod compile;
pub mod paths;
pub mod ingest;
pub mod init;
pub mod export_skill;
pub mod cli;
pub mod toolkit;
pub mod serve;
pub mod search;
pub mod hooks;
pub mod skill_template;
pub mod ingest_render;
