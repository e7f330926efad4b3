//! A caching aggregation proxy for stratified patient counts.
//!
//! The library holds the logic: the stratifier maps and their combination,
//! the reduction of a measure report, the freshness-checked site cache, the
//! set of sites awaiting refresh, the broker task and result envelopes, and
//! the small decisions of the scheduler and the liveness gate.
pub mod keyed;
pub mod criteria;
pub mod errors;
pub mod mr;
pub mod cache;
pub mod pending;
pub mod handler;
pub mod address;
pub mod codec;
pub mod config;
pub mod beam;
pub mod refresh;
pub mod schedule;
