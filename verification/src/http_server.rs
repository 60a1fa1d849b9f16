//! What the HTTP layer computes: its records, and the answer to each request.

pub mod server;
pub mod models;
pub mod service;
