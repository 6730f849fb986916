//! Core of a container-image registry: a content-addressable blob store,
//! resumable upload sessions and manifest reconciliation.
//!
//! Every operation is stated over a mathematical model of the registry and
//! proved against it.

pub mod blob_store;
pub mod digest;
pub mod endpoints;
pub mod error;
pub mod hex;
pub mod laws;
pub mod manifest;
pub mod manifest_store;
pub mod registry;
pub mod response;
pub mod session;
pub mod table;
pub mod text;
