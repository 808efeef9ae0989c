//! A verified model of a small location-voting service.
//!
//! The service serves three fixed database operations over HTTP: list the
//! stored locations, fetch one location by its identifier, and insert one
//! vote for a location. This crate holds the verified core of that pipeline:
//! the storage semantics of the three operations, the connection-pool
//! lease discipline, the startup migration sequencing, and the translation
//! of internal failures into opaque HTTP outcomes. The network server, the
//! live database driver and the TLS transport stand outside the library and
//! feed it plain values.

pub mod errors;
pub mod ids;
pub mod migrate;
pub mod pool;
pub mod store;
