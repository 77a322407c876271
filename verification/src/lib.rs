//! A work-time tracker: a session state machine over work records, a
//! week-sharded record store, a debounced window-title classifier, and a
//! client-billing report engine.

pub mod config;
pub mod fmt;
pub mod list;
pub mod log;
pub mod model;
pub mod monitor;
pub mod report;
pub mod session;
pub mod store;
pub mod strutil;
pub mod week;
