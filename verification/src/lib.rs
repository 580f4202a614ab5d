//! Authentication and authorization core for an API gateway.
//!
//! The crate covers the unified credential pipeline: building identity
//! claims, signing them into a compact token, locating a candidate token
//! in transport headers, verifying it, and enforcing role/policy rules.
//! Transport wiring (HTTP routers, RPC servers, storage) lives outside
//! this library and consumes it through plain values.

pub mod claims;
pub mod config;
pub mod endpoint;
pub mod extract;
pub mod gate;
pub mod inject;
pub mod login;
pub mod numerals;
pub mod payload;
pub mod policy;
pub mod respond;
pub mod seats;
pub mod service;
pub mod token;
