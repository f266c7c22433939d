//! A local persistence layer for a desktop task-management application.
//!
//! Documents are JSON-like values identified by a logical name (a relative
//! path such as `"tasks.json"`). The library owns all of the logic: the
//! document model, a serializer and parser for the on-disk text format,
//! default scaffolding for absent files, path and backup-name resolution,
//! and the atomic-write protocol, proved over a model of the disk. The
//! thin binary around it performs the actual filesystem calls.

pub mod json;
pub mod parse;
pub mod paths;
pub mod roundtrip;
pub mod scaffold;
pub mod scaffold_keys;
pub mod ser;
pub mod store;
pub mod timestamp;

pub use json::Json;
pub use json::JsonV;
