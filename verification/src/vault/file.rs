use vstd::prelude::*;

use crate::database::models::file::{now_utc, Timestamp};
use crate::random::{byte_below, thread_rng};
use crate::text::{hex_of, hex_string, is_hex_digit, lemma_hex_of_shape};

verus! {

/// A file kept in the vault.
#[derive(Debug, Clone, PartialEq, Eq)]
pub struct File {
    pub title: String,
    pub path: String,
    pub is_remote: bool,
    pub is_encrypted: bool,
    pub random_hash: String,
    pub size: u64,
    pub created_at: Timestamp,
    pub updated_at: Timestamp,
}

impl File {
    /// A new file with a fresh random hash, created and updated now.
    pub fn new(title: String, path: &str, is_remote: bool, is_encrypted: bool, size: u64) -> (file: Self)
        ensures
            file.title@ == title@,
            file.path@ == path@,
            file.is_remote == is_remote,
            file.is_encrypted == is_encrypted,
            file.size == size,
            file.created_at == file.updated_at,
            file.created_at.seconds >= 0,
            file.created_at.nanoseconds < 1_000_000_000,
            exists|b: Seq<u8>|
                b.len() == 32 && (forall|i: int| 0 <= i < 32 ==> #[trigger] b[i] < 255) && file.random_hash@
                    == hex_of(b),
    {
        let random_hash = File::pseudorandom_sha256_string();
        let now = now_utc();
        File {
            title,
            path: path.to_string(),
            is_remote,
            is_encrypted,
            random_hash,
            size,
            created_at: now,
            updated_at: now,
        }
    }

    /// 32 pseudorandom bytes, each below 255, as 64 lower-case hexadecimal digits.
    pub fn pseudorandom_sha256_string() -> (s: String)
        ensures
            s@.len() == 64,
            forall|i: int| 0 <= i < 64 ==> is_hex_digit(#[trigger] s@[i]),
            exists|b: Seq<u8>|
                b.len() == 32 && (forall|i: int| 0 <= i < 32 ==> #[trigger] b[i] < 255) && s@ == hex_of(b),
    {
        let mut generator = thread_rng();
        let mut bytes: Vec<u8> = Vec::new();
        let mut i: usize = 0;
        while i < 32
            invariant
                i <= 32,
                bytes@.len() == i,
                forall|j: int| 0 <= j < i ==> #[trigger] bytes@[j] < 255,
            decreases 32 - i,
        {
            let b = byte_below(&mut generator, 255);
            bytes.push(b);
            i = i + 1;
        }
        let s = hex_string(&bytes);
        proof {
            lemma_hex_of_shape(bytes@);
        }
        s
    }
}

} // verus!
