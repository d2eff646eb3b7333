//! Tables on one flat, ordered keyspace: how keys are encoded, how tables are
//! registered, renamed and destroyed, how a walk over one table is bounded,
//! and how the engine's log of committed batches is decoded. Nothing here
//! talks to the engine: every function takes what was read from it and gives
//! what is to be written.

pub mod batch;
pub mod buffer;
pub mod consts;
pub mod db;
pub mod engine;
pub mod error;
pub mod iterator;
pub mod order;
pub mod registry;
pub mod table;
pub mod update;
pub mod updates;
pub mod utils;
