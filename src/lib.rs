//! Core logic of a guild archival daemon: the newline-delimited log format,
//! the log writer's batching, the reverse log scanner, log-backed entity
//! indexes, the download ledger, and the decisions of the per-guild pipeline.
//!
//! Everything that touches files, sockets, clocks or threads lives outside
//! this crate; it hands plain values to the functions here and performs the
//! actions they return.

pub mod catchup;
pub mod entity;
pub mod messages;
pub mod metadata;
pub mod network;
pub mod pipeline;
pub mod settings;
pub mod storage;
pub mod text;
pub mod utils;
