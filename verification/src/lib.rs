//! Verified core of the Dragon Li desktop assistant.
pub mod text;
pub mod paths;
pub mod web;
pub mod config;
pub mod guardrails;
pub mod utils;
pub mod memory;
pub mod extraction;
pub mod indexing;
pub mod review;
pub mod recall;
pub mod store;
pub mod chat;
pub mod chat_flow;
pub mod agent_http;
pub mod runtime;
