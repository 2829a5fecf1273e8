//! The archive's database models and the logic around them.
pub mod bigint_as_blob;
pub mod models;
pub mod traits;
