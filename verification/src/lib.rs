//! A local key/value storage core: named collections provisioned on demand,
//! records addressed by hierarchical string keys, and a write-through search
//! index kept consistent with the records it mirrors.

pub mod codec;
pub mod errors;
pub mod fts;
pub mod laws;
pub mod manager;
pub mod provision;
pub mod sanitize;
pub mod store;
