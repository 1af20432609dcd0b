//! DataMapper: the payload-shaping layer's verified core.

pub mod access_log;
pub mod config;
pub mod doctor;
pub mod env_safety;
pub mod error;
pub mod helpers;
pub mod renderer;
pub mod router;
pub mod security_headers;
pub mod text;
pub mod traceparent;
