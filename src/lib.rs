//! Credential- and proxy-pool management for a gateway in front of several
//! LLM HTTP APIs.
pub mod channels;
pub mod chat;
pub mod clock;
pub mod credential_laws;
pub mod credentials;
pub mod env;
pub mod gateway;
pub mod headers;
pub mod pipeline;
pub mod providers;
pub mod proxies;
pub mod store;
pub mod text;
