//! The core of an input connector that reads records from an S2 stream.
//!
//! The service sends batches of numbered records as server-sent events. The connector takes every
//! sequence number once, in order and without a gap, hands the records on in batches, and saves
//! with each batch the range of its numbers, so that a pipeline that fails can read the batch
//! again and go on behind it.
//!
//! This crate decides; it does no I/O. `stream` says which request to send and what to do with
//! what comes back, `reader` takes a reader from its replays to work, `replay` and `worker` say
//! which records to parse and when to hand them on.

pub mod admission;
pub mod batch;
pub mod clock;
pub mod config;
pub mod contents;
pub mod digest;
pub mod endpoint;
pub mod error;
pub mod laws;
pub mod metadata;
pub mod reader;
pub mod replay;
pub mod replay_laws;
pub mod sse;
pub mod sse_laws;
pub mod stream;
pub mod text;
pub mod worker;
