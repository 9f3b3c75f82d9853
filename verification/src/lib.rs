//! Transaction-processing core of a rollup kernel: the inbox parser, the
//! authenticator for signed operations, and the durable state store.
//!
//! The library performs no I/O. Whatever the host delivers (inbox items, stored
//! values) is handed in as plain values, and whatever must be written comes back
//! as a list of storage operations for the caller to perform.
pub mod crypto;
pub mod data_interface;
pub mod database;
pub mod generate;
pub mod hash;
pub mod hex;
pub mod inbox;
pub mod kernel;
pub mod results;
