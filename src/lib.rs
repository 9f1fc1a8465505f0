//! A bounded worker pool's dispatch state machine, and an in-memory user and
//! message store shared behind a verified lock and maintained by a background
//! processor.
pub mod error;
pub mod user;
pub mod store;
pub mod service;
pub mod pool;
