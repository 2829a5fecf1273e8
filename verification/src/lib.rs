//! Krypta: bookkeeping for an encrypted file archive.
pub mod fs;
pub mod krypta;
pub mod database;
pub mod text;
pub mod random;
pub mod tmp;
pub mod temp_path;
pub mod vault;
pub mod gui;
pub mod storage;
