//! Verified core of a small HTTP file server: request routing, path
//! sanitization against traversal, deterministic directory-listing order,
//! and rendering of the listing page.
//!
//! Everything here is pure computation on plain values; the surrounding
//! program performs the network and filesystem work and hands the results
//! to these functions.

pub mod config;
pub mod listing;
pub mod order;
pub mod render;
pub mod router;
pub mod sanitize;
pub mod text;

pub use config::Config;
pub use router::RouteAction;
