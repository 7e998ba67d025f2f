//! Local fleet registry client: a time-limited key/value cache, the decisions of
//! the registry HTTP client, budget bookkeeping and local capability discovery.

pub mod cache;
pub mod client;
pub mod conservation;
pub mod scan;
pub mod text;
pub mod types;

pub use types::{Capability, LocalRepo, RegistryError, Repo};
