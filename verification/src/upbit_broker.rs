//! The broker that lets groups reach a fixed set of exchange endpoints.

pub mod endpoint;
pub mod exchange;
pub mod exchange_laws;
pub mod fields;
pub mod laws;
pub mod limits;
pub mod order;
pub mod query;
pub mod request;
pub mod task;
pub mod wire;
