//! The first archive layout: files kept in a vault database, synced from a source folder.
pub mod file;
pub mod sync;
pub mod tag;
pub mod vault_info;
