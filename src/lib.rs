//! A forwarding proxy in front of an HTTP API that wants a secret key on every call.
//!
//! The library holds the logic of the proxy: reading its startup settings, finding the
//! key under which a client is rate-limited, rewriting an inbound request so that it
//! targets the upstream API with the secret attached, and what the client gets back.
//! Sockets, the HTTP client and the rate limiter's clock live in the program around it.

pub mod addr;
pub mod config;
pub mod relay;
pub mod text;
pub mod transform;
