//! Verified core of a client for the key queries of a Mooncake Store master.

pub mod client;
pub mod error;
pub mod model;
pub mod query;
pub mod text;
