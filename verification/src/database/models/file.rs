use chrono::Utc;
use rand::RngCore;
use rand::SeedableRng;
use rand_chacha::ChaCha20Rng;
use vstd::prelude::*;

use crate::fs::order::comps;
use crate::fs::path::{join_components, path_components, split_path};
use crate::fs::tree::{build_files, components_of_all, PathTree};
use crate::text::{hex_of, hex_string};

verus! {

/// A point in time in UTC: seconds since the Unix epoch and the nanoseconds past them.
#[derive(Debug, Clone, Copy, PartialEq, Eq, Structural)]
pub struct Timestamp {
    pub seconds: i64,
    pub nanoseconds: u32,
}

/// Calls `Utc::now` (chrono) and takes its seconds and nanoseconds
/// (`DateTime::timestamp`, `DateTime::timestamp_subsec_nanos`). Which time comes back is not
/// stated. Claimed, as the source shows (it builds the time from the `Duration` since the Unix
/// epoch and panics on a clock set before it): the seconds are not negative and the
/// nanoseconds stay below one second.
#[verifier::external_body]
pub(crate) fn now_utc() -> (now: Timestamp)
    ensures
        now.seconds >= 0,
        now.nanoseconds < 1_000_000_000,
{
    let now = Utc::now();
    Timestamp { seconds: now.timestamp(), nanoseconds: now.timestamp_subsec_nanos() }
}

/// Draws `n` bytes from a `ChaCha20Rng` (rand_chacha) seeded by `SeedableRng::from_entropy`
/// and filled by `RngCore::fill_bytes`. Claimed: `n` bytes come back; their values are chance.
#[verifier::external_body]
fn chacha_random_bytes(n: usize) -> (bytes: Vec<u8>)
    ensures
        bytes@.len() == n,
{
    let mut generator = ChaCha20Rng::from_entropy();
    let mut bytes = vec![0u8; n];
    generator.fill_bytes(&mut bytes);
    bytes
}

/// A file of the archive.
#[derive(Debug, Clone, PartialEq, Eq)]
pub struct File {
    pub id: Option<i64>,
    pub title: String,
    pub path: String,
    pub random_hash: String,
    pub contents_hash: String,
    pub size: u64,
    pub created_at: Timestamp,
    pub updated_at: Timestamp,
    pub key: Vec<u8>,
    pub nonce: Vec<u8>,
}

impl File {
    /// A new file, not stored yet, with a fresh random hash, created and updated now. The
    /// encryption `key` and `nonce` come from the caller.
    pub fn new(
        title: String,
        path: String,
        contents_hash: String,
        size: u64,
        key: Vec<u8>,
        nonce: Vec<u8>,
    ) -> (file: Self)
        ensures
            file.id is None,
            file.title@ == title@,
            file.path@ == path@,
            file.contents_hash@ == contents_hash@,
            file.size == size,
            file.created_at == file.updated_at,
            file.created_at.seconds >= 0,
            file.created_at.nanoseconds < 1_000_000_000,
            file.key@ == key@,
            file.nonce@ == nonce@,
            file.random_hash@.len() == 64,
            exists|b: Seq<u8>| b.len() == 32 && file.random_hash@ == hex_of(b),
    {
        let random_hash = File::random_hash_string();
        let now = now_utc();
        File {
            id: None,
            title,
            path,
            random_hash,
            contents_hash,
            size,
            created_at: now,
            updated_at: now,
            key,
            nonce,
        }
    }

    /// A pseudorandom 32-byte value as 64 lower-case hexadecimal digits.
    pub fn random_hash_string() -> (s: String)
        ensures
            s@.len() == 64,
            exists|b: Seq<u8>| b.len() == 32 && s@ == hex_of(b),
    {
        let bytes = chacha_random_bytes(32);
        let s = hex_string(&bytes);
        proof {
            crate::text::lemma_hex_of_shape(bytes@);
        }
        s
    }

    /// Set `updated_at` to `now`, leaving every other field as it was.
    pub fn set_updated_at(&mut self, now: Timestamp)
        ensures
            final(self).updated_at == now,
            final(self).id == old(self).id,
            final(self).title == old(self).title,
            final(self).path == old(self).path,
            final(self).random_hash == old(self).random_hash,
            final(self).contents_hash == old(self).contents_hash,
            final(self).size == old(self).size,
            final(self).created_at == old(self).created_at,
            final(self).key == old(self).key,
            final(self).nonce == old(self).nonce,
    {
        self.updated_at = now;
    }

    /// Set `updated_at` to now: a time after the Unix epoch, its nanoseconds below one second.
    pub fn update_updated_at(&mut self)
        ensures
            final(self).updated_at.seconds >= 0,
            final(self).updated_at.nanoseconds < 1_000_000_000,
            final(self).id == old(self).id,
            final(self).title == old(self).title,
            final(self).path == old(self).path,
            final(self).random_hash == old(self).random_hash,
            final(self).contents_hash == old(self).contents_hash,
            final(self).size == old(self).size,
            final(self).created_at == old(self).created_at,
            final(self).key == old(self).key,
            final(self).nonce == old(self).nonce,
    {
        let now = now_utc();
        self.set_updated_at(now);
    }
}


impl File {
    /// Where the file is read from and where its encrypted copy goes: `source_path` joined
    /// with the file's path, and `locked_path` joined with its random hash.
    pub fn encryption_source_and_target(&self, locked_path: &Vec<String>, source_path: &Vec<String>) -> (r: (Vec<String>, Vec<String>))
        ensures
            comps(r.0@) == comps(source_path@) + path_components(self.path@),
            comps(r.1@) == comps(locked_path@).push(self.random_hash@),
    {
        let relative = split_path(self.path.as_str());
        let source = join_components(source_path, &relative);
        let mut locked = locked_path.clone();
        proof {
            assert(locked@ =~= locked_path@);
        }
        locked.push(self.random_hash.clone());
        proof {
            assert(comps(locked@) =~= comps(locked_path@).push(self.random_hash@));
        }
        (source, locked)
    }
}

/// What the file system says of a file: its path and size.
pub struct MetadataFile {
    pub title: String,
    pub path: String,
    pub size: u64,
}

impl MetadataFile {
    /// A `MetadataFile` for the file at `path` of `size` bytes, titled by its path.
    pub fn new(path: &str, size: u64) -> (m: Self)
        ensures
            m.title@ == path@,
            m.path@ == path@,
            m.size == size,
    {
        MetadataFile { title: path.to_string(), path: path.to_string(), size }
    }

    /// The `File` for this path, given its contents hash and its encryption key and nonce.
    pub fn into_file(self, contents_hash: String, key: Vec<u8>, nonce: Vec<u8>) -> (file: File)
        ensures
            file.id is None,
            file.title@ == self.title@,
            file.path@ == self.path@,
            file.contents_hash@ == contents_hash@,
            file.size == self.size,
            file.key@ == key@,
            file.nonce@ == nonce@,
            file.random_hash@.len() == 64,
    {
        File::new(self.title, self.path, contents_hash, self.size, key, nonce)
    }
}

/// The components of the path of each of `files`.
pub open spec fn file_path_components(files: Seq<File>) -> Seq<Seq<Seq<char>>> {
    files.map_values(|f: File| path_components(f.path@))
}

/// The tree of the paths of `files`, inserted in turn; `None` where one runs into the file of
/// another.
pub fn tree_of_files(files: &Vec<File>) -> (r: Option<PathTree>)
    ensures
        r is Some <==> build_files(file_path_components(files@)) is Some,
        r matches Some(tree) ==> tree.wf() && Some(tree@) == build_files(file_path_components(files@)),
{
    let mut paths: Vec<String> = Vec::new();
    let mut i: usize = 0;
    while i < files.len()
        invariant
            i <= files@.len(),
            paths@.len() == i,
            forall|j: int| 0 <= j < i ==> (#[trigger] paths@[j])@ == files@[j].path@,
        decreases files@.len() - i,
    {
        paths.push(files[i].path.clone());
        i = i + 1;
    }
    proof {
        assert(components_of_all(paths@) =~= file_path_components(files@));
    }
    PathTree::from_paths(&paths)
}

} // verus!
