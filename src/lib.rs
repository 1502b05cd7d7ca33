//! Repartitions access-log objects into date-keyed, gzip-compressed shards.
//!
//! The library holds every decision of a run: how a raw record is read,
//! how records are grouped by calendar date, how a shard is rendered and
//! named, and what a run does next once storage has answered. Talking to the
//! storage service is left to the caller.
mod bytes;
pub mod line;
pub mod group;
pub mod shard;
pub mod pipeline;
pub mod run;
