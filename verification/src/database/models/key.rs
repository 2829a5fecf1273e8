use vstd::prelude::*;

verus! {

/// The archive's encryption key.
#[derive(Clone, Debug)]
pub struct Key {
    pub key: [u8; 32],
}

impl Key {
    /// The key from the bytes the database stores for it, which must be 32.
    pub fn from_stored(bytes: &Vec<u8>) -> (key: Self)
        requires
            bytes@.len() == 32,
        ensures
            key.key@ == bytes@,
    {
        let mut key = [0u8; 32];
        let mut i: usize = 0;
        while i < 32
            invariant
                i <= 32,
                bytes@.len() == 32,
                forall|j: int| 0 <= j < i ==> key@[j] == bytes@[j],
            decreases 32 - i,
        {
            key[i] = bytes[i];
            i = i + 1;
        }
        proof {
            assert(key@ =~= bytes@);
        }
        Key { key }
    }
}

} // verus!
