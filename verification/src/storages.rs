//! The storage layer: the value model and the backends.

pub mod bredis;
pub mod counter;
pub mod decimal;
pub mod engine;
pub mod key;
pub mod laws;
pub mod storage;
pub mod transaction;
pub mod ttl;
pub mod value;
