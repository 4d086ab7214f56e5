//! Multi-provider chat-completion gateway.
//!
//! The library normalizes divergent provider request/response shapes into one
//! internal contract: it builds provider wire requests, interprets HTTP
//! responses, decodes line-oriented streaming bodies into text fragments, and
//! coordinates the result with an append-only session log. Every function
//! here carries a contract checked by Verus; the HTTP transport, the
//! terminal, and the file system live with the callers.

pub mod adapter;
pub mod args;
pub mod code;
pub mod decoder;
pub mod errors;
pub mod extract;
pub mod gateway;
pub mod history;
pub mod models;
pub mod providers;
pub mod secrets;
pub mod session;
pub mod settings;
pub mod text;
pub mod wire;
