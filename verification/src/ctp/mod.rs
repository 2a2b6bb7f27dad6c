//! The market-data side of the CTP connector.

pub mod api;
pub mod error;
pub mod loader;
pub mod market;
pub mod server;
pub mod stream;
pub mod topic;
