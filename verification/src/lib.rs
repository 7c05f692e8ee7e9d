//! Ominiforge's decision core: the pure logic of an agent platform's gateway,
//! permission gate, hook chain, streaming decoder and conversation fold.

pub mod text;
pub mod json;
pub mod permission;
pub mod event;
pub mod plan;
pub mod view;
pub mod llm;
pub mod wire;
pub mod hook;
pub mod session;
pub mod workspace;
pub mod env;
pub mod sandbox;
pub mod workspace_config;
pub mod lsp;
pub mod status;
pub mod monitor;
pub mod approval;
pub mod turns;
pub mod gateway;
pub mod store;
