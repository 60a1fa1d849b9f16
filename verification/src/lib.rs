//! A key-value store with time-to-live expiration and atomic counters.
//!
//! The store keeps typed byte values under byte keys. An entry may expire:
//! it is then removed by the first read that meets it. An integer entry is a
//! counter that `increment` and `decrement` move.
//!
//! - [`storages::storage`] states what every backend does, over the map of
//!   entries that a store holds, and [`storages::laws`] what follows from it.
//! - [`storages::bredis`] is the backend that lives in memory.
//! - [`storages::transaction`] decides, for the backends that keep their
//!   entries in an engine, what each call returns and what its transaction
//!   writes; [`storages::engine`] shows that those decisions keep the same
//!   contract.
//! - [`storages::value`], [`storages::ttl`], [`storages::key`],
//!   [`storages::counter`] and [`storages::decimal`] hold the parts: the
//!   binary form of an entry, the arithmetic of expiry, the key space under a
//!   prefix, the step of a counter and the decimal text of integers.
//! - [`http_server`] turns what a store hands back into the responses of the
//!   HTTP interface; [`backend`] and [`info`] serve the startup.

pub mod backend;
pub mod clock;
pub mod errors;
pub mod http_server;
pub mod info;
pub mod storages;
pub mod text;
