//! Core of a path-routing HTTP/1.1 reverse proxy: the wire codec, the
//! prefix router, the backend selection strategies and the configuration
//! rules, each with a contract checked by Verus.

pub mod balancer;
pub mod codec;
pub mod config;
pub mod handler;
pub mod resolver;
pub mod response;
