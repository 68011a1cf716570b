//! Geographic indexes over district statistics, and the queries that read
//! them: a district's record, the records of a region, a department or a
//! city, the cities of a department page by page, and free-text city search.
//!
//! - `keys`: key order, case-insensitive matching, composite keys.
//! - `decimal`: decimal cells read as fixed-point values.
//! - `entry`: the district record and its scope projections.
//! - `aggregate`: the record that stands for a group of districts.
//! - `index`: the sorted in-memory indexes and their searches.
//! - `grouping`: rows grouped by key into index entries.
//! - `csv_storage`: the source tables and what is built from them.
//! - `store`: the record store.
//! - `domain`: the query surface.
//! - `error`: what stores and queries fail with.
//! - `laws`: properties that hold across these parts.
pub mod aggregate;
pub mod csv_storage;
pub mod decimal;
pub mod domain;
pub mod entry;
pub mod error;
pub mod grouping;
pub mod index;
pub mod keys;
pub mod laws;
pub mod store;
