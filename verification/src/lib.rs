//! Explore a codebase's call graph through any language server's call hierarchy.

pub mod text;
pub mod clock;
pub mod error;
pub mod transport;
pub mod graph;
pub mod json;
pub mod strmap;
pub mod paths;
pub mod uri;
pub mod symbols;
pub mod tui;
pub mod engine;
pub mod server;
pub mod config;
pub mod readiness;
pub mod cache;
pub mod fixture;
