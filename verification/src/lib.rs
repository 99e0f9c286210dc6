//! Transaction relay core: validated intake of transaction submission
//! requests, an idempotent persistent store with a signing-key registry,
//! a background dispatch planner, and a schema migration gate.

pub mod codec;
pub mod db;
pub mod proto;
pub mod signing_keys;
pub mod submitter;
pub mod transaction_requests;
pub mod types;
pub mod u256;
