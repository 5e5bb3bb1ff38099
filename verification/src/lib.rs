//! A small verified key-value store.
//!
//! The store is an in-memory string-to-string mapping that is loaded from,
//! and serialized back to, a single JSON-encoded backing file. The mapping
//! operations are deliberately silent-and-safe: `add` never overwrites,
//! `update` never creates, `remove` of an absent key does nothing.

pub mod colors;
pub mod json;
pub mod storage;
