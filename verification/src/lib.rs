//! Reconciliation engine and dispatch pipeline for a torrent-feed
//! notification service.
//!
//! The library covers the stateful diff between a freshly fetched snapshot
//! of a torrent's comment thread and the previously persisted state, the
//! per-sink delivery bookkeeping that only advances state for changes a sink
//! actually accepted, the bounded-size message chunking, and the per-cycle
//! fetch cache. Network transports, the on-disk store and process bootstrap
//! live outside the library and talk to it through plain values.

pub mod cache;
pub mod chunk;
pub mod config;
pub mod dispatch;
pub mod email;
pub mod format;
pub mod html;
pub mod laws;
pub mod model;
pub mod reconcile;
pub mod store;
pub mod strutil;
