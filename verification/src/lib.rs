//! Verified core of a query gateway that fronts several time-series
//! backends: first-match routing over an ordered registry, split-mode
//! fan-out planning, deterministic response merging, body-size limiting,
//! and header handling. Network I/O lives outside this crate.

pub mod body;
pub mod cache;
pub mod codec;
pub mod config;
pub mod dispatch;
pub mod errors;
pub mod headers;
pub mod json;
pub mod merge;
pub mod model;
pub mod pattern;
pub mod registry;
pub mod router;
pub mod text;
pub mod upstream;

pub use errors::GatewayError;
