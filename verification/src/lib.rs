//! Where is this IP address? A cache of resolved lookups, kept in key order,
//! and its projection into a metrics document.
//!
//! The address parser and the geolocation database live outside this crate.
//! What they report about one textual address arrives here as a
//! [`server::GeoAnswer`]; [`server::AppContext::lookup_ip`] decides what to
//! record and what to return, and [`server::metrics`] renders the cache.

pub mod model;
pub mod order;
pub mod cache;
pub mod store;
pub mod metrics;
pub mod server;
