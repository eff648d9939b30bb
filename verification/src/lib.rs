//! Core of an event-ingestion and live fan-out service.
//!
//! Clients submit events tagged with a group name.  Each event is broadcast
//! to every live subscriber of that group, and a normalized copy may be
//! persisted to a per-group store.  Historical events are queried through a
//! small aggregation language compiled into ordered pipeline stages.
//!
//! The crate holds the verified logic: the connection registry and the
//! group-scoped delivery rule, the FIFO ingestion queue and the dispatcher's
//! decisions, and the query-pipeline compiler.  Transport, persistence and
//! process wiring live outside.

pub mod auth;
pub mod conns;
pub mod dispatch;
pub mod ingest;
pub mod msg;
pub mod query;
pub mod queue;
pub mod stat;
pub mod strutil;
pub mod util;
