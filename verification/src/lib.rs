//! Extensions for the standard collections and for task and thread identifiers.

/// Renaming a key of a map in place.
pub mod collections;
/// Numbers as decimal text.
pub mod numeral;
/// Identifiers of tasks.
pub mod task;
/// Identifiers of threads.
pub mod thread;
