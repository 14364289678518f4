//! mimo_desktop_bridge — Xiaomi MiMo free-channel OpenAI bridge.

pub mod admin;
pub mod anthropic;
pub mod auth;
pub mod cookies;
pub mod error;
pub mod exchange;
pub mod json;
pub mod keys;
pub mod login;
pub mod mint;
pub mod outside;
pub mod proxy;
pub mod reply;
pub mod responses;
pub mod server;
pub mod state;
pub mod storage;
pub mod text;
pub mod ticket;
pub mod upstream;
pub mod usage;

pub use error::BridgeError;
pub use state::BridgeState;
pub use storage::Storage;
