//! The records of the archive's database.
pub mod device;
pub mod device_config;
pub mod file;
pub mod file_device;
pub mod file_search;
pub mod file_tag;
pub mod key;
pub mod tag;
