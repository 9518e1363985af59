//! AiKv: a Redis-protocol key-value server library.
pub mod cli;
pub mod clock;
pub mod cluster;
pub mod command;
pub mod error;
pub mod keyed;
pub mod observability;
pub mod order;
pub mod text;
pub mod protocol;
pub mod storage;
