//! Verified core of an OpenAI-compatible forwarding proxy: configuration
//! loading from an environment snapshot, request shaping, error replies and
//! the retry schedule.

pub mod text;
pub mod env;
pub mod config;
pub mod config_laws;
pub mod json;
pub mod errors;
pub mod listing;
pub mod proxy;
pub mod retry;


