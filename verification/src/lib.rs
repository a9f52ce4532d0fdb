//! Guaranteed-delivery and circuit-breaker bookkeeping for pull-driven
//! sources and event sinks.

pub mod breaker;
pub mod event_id;
pub mod value;
pub mod config;
pub mod event;
pub mod sink;
pub mod received;
pub mod source;
pub mod errors;
pub mod origin;
pub mod connector;
pub mod contraflow;
pub mod accounting;
pub mod scheduler;
pub mod batch;
