use vstd::prelude::*;

use crate::database::bigint_as_blob::{le_u64, BigIntAsBlob};

verus! {

/// The vault's name and the total size of what it holds.
pub struct VaultInfo {
    pub name: String,
    pub total_size: u64,
}

impl VaultInfo {
    /// The vault's information from its row: the name, and the total size stored as a
    /// little-endian blob, of which the first eight bytes count.
    pub fn from_columns(name: String, total_size: &Vec<u8>) -> (info: Self)
        requires
            total_size@.len() >= 8,
        ensures
            info.name == name,
            info.total_size == le_u64(total_size@),
    {
        VaultInfo { name, total_size: BigIntAsBlob::from_bytes(total_size.as_slice()) }
    }
}

} // verus!
