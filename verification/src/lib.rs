//! In-memory state layer of a small asset-serving service: a
//! token-to-path store with time-bounded validity, a directory-listing
//! cache with stale-preferred refresh, and the random-selection logic
//! that ties the two together. All time and filesystem input is handed
//! in as plain values, so every rule here is stated and verified.

pub mod cache;
pub mod paths;
pub mod select;
pub mod store;
pub mod token;
