//! Command handlers.
pub mod pattern;
pub mod database;
pub mod dump;
pub mod executor;
pub mod hash;
pub mod key;
pub mod list;
pub mod reply;
pub mod script;
pub mod script_txn;
pub mod server;
pub mod set;
pub mod string;

pub use executor::CommandExecutor;
