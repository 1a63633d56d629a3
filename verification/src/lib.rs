//! Rules of a warm pool of ephemeral CI runners.

pub mod agent;
pub mod binary;
pub mod cleanup;
pub mod clock;
pub mod config;
pub mod github;
pub mod json;
pub mod laws;
pub mod log_search;
pub mod logging;
pub mod mcp;
pub mod monitor;
pub mod number;
pub mod order;
pub mod paths;
pub mod pattern;
pub mod runtime;
pub mod scheduler;
pub mod setup;
pub mod store;
pub mod text;
pub mod tree;
pub mod web;
