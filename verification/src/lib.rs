//! A local secrets vault and reference-data cache: an indexed
//! credential store over a secure-storage backend, a queryable token
//! table, and a time-bounded, single-flight refresh protocol over it.

pub mod cache;
pub mod codec;
pub mod tokens;
pub mod vault;
pub mod wallet;
