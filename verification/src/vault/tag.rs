use vstd::prelude::*;

verus! {

/// A tag stored in the vault.
#[derive(Debug)]
pub struct Tag {
    pub id: u64,
    pub name: String,
}

} // verus!
