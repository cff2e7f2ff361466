//! A fault-injection policy engine for HTTP request interception.
//!
//! Given a merged configuration scope, a request's client address and its
//! headers, the engine decides whether to inject an artificial fault (a
//! response delay, a forced status code, or both) or to pass the request
//! through unmodified.

pub mod strutil;
pub mod duration;
pub mod net;
pub mod config;
pub mod header;
pub mod engine;
