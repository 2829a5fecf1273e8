use vstd::prelude::*;

use crate::fs::order::{comps, comps_list};
use crate::fs::path::{path_components, split_path};
use crate::text::hex_of;
use crate::vault::file::File;

verus! {

/// What is known of a path to sync: the path and, once read, its size.
#[derive(Debug, Clone)]
pub struct PathInfo {
    pub path: String,
    pub size: Option<u64>,
}

impl From<String> for PathInfo {
    /// A path whose size is not known yet.
    fn from(path: String) -> (info: Self) {
        PathInfo { path, size: None }
    }
}

impl vstd::std_specs::convert::FromSpecImpl<String> for PathInfo {
    open spec fn obeys_from_spec() -> bool {
        true
    }

    open spec fn from_spec(path: String) -> Self {
        PathInfo { path, size: None }
    }
}

/// The size a path counts with: the one known, else 0.
pub open spec fn size_or_zero(info: PathInfo) -> u64 {
    match info.size {
        Some(s) => s,
        None => 0,
    }
}

impl PathInfo {
    /// The known size, or 0 when it is not known.
    pub fn size_or_default(&self) -> (size: u64)
        ensures
            size == size_or_zero(*self),
    {
        match self.size {
            Some(s) => s,
            None => 0,
        }
    }

    /// Records the size read from disk (`read`, `None` when it could not be read), unless a
    /// size is known already. Says whether it recorded one.
    pub fn try_update_size(&mut self, read: Option<u64>) -> (updated: Option<()>)
        ensures
            old(self).size is Some ==> updated is None && *final(self) == *old(self),
            old(self).size is None ==> {
                &&& final(self).path == old(self).path
                &&& final(self).size == read
                &&& (updated is Some <==> read is Some)
            },
    {
        if self.size.is_some() {
            return None;
        }
        match read {
            Some(size) => {
                self.size = Some(size);
                Some(())
            },
            None => None,
        }
    }
}

/// The paths to sync, each with what is known of it.
pub struct PathInfos {
    pub inner: Vec<PathInfo>,
}

impl From<Vec<PathInfo>> for PathInfos {
    fn from(inner: Vec<PathInfo>) -> (infos: Self) {
        PathInfos { inner }
    }
}

impl vstd::std_specs::convert::FromSpecImpl<Vec<PathInfo>> for PathInfos {
    open spec fn obeys_from_spec() -> bool {
        true
    }

    open spec fn from_spec(inner: Vec<PathInfo>) -> Self {
        PathInfos { inner }
    }
}

/// The local paths that the database does not hold, paths compared by their components.
pub open spec fn unknown_paths(local: Seq<Seq<char>>, database: Seq<Seq<char>>) -> Seq<Seq<char>> {
    local.filter(
        |p: Seq<char>|
            !database.map_values(|d: Seq<char>| path_components(d)).contains(path_components(p)),
    )
}

/// The vault sync keeps exactly the local paths that the database does not hold, whole paths
/// compared by their components: a local path whose components differ from those of every
/// database path is kept, and every kept path is a local path whose components differ from
/// those of every database path.
pub proof fn lemma_unknown_paths_kept(local: Seq<Seq<char>>, database: Seq<Seq<char>>)
    ensures
        forall|i: int|
            0 <= i < local.len() && (forall|j: int| 0 <= j < database.len() ==> path_components(database[j]) != path_components(#[trigger] local[i]))
                ==> unknown_paths(local, database).contains(local[i]),
        forall|x: Seq<char>|
            #[trigger] unknown_paths(local, database).contains(x) ==> local.contains(x) && forall|j: int|
                0 <= j < database.len() ==> path_components(database[j]) != path_components(x),
{
    broadcast use vstd::seq_lib::group_filter_ensures, Seq::lemma_filter_contains_rev;

    let keys = database.map_values(|d: Seq<char>| path_components(d));
    assert forall|i: int|
        0 <= i < local.len() && (forall|j: int| 0 <= j < database.len() ==> path_components(database[j]) != path_components(#[trigger] local[i]))
        implies unknown_paths(local, database).contains(local[i]) by {
        if keys.contains(path_components(local[i])) {
            let j = choose|j: int| 0 <= j < keys.len() && keys[j] == path_components(local[i]);
            assert(keys[j] == path_components(database[j]));
        }
    }
    assert forall|x: Seq<char>| #[trigger] unknown_paths(local, database).contains(x) implies local.contains(x) && forall|j: int|
        0 <= j < database.len() ==> path_components(database[j]) != path_components(x) by {
        let u = unknown_paths(local, database);
        let a = choose|a: int| 0 <= a < u.len() && u[a] == x;
        assert forall|j: int| 0 <= j < database.len() implies path_components(database[j]) != path_components(x) by {
            assert(keys[j] == path_components(database[j]));
        }
    }
}

/// The views of a list of texts.
pub open spec fn texts(s: Seq<String>) -> Seq<Seq<char>> {
    s.map_values(|t: String| t@)
}

/// The paths of a list of path infos.
pub open spec fn info_paths(s: Seq<PathInfo>) -> Seq<Seq<char>> {
    s.map_values(|info: PathInfo| info.path@)
}

/// The local paths that the database does not hold yet, in their order, none with a known size.
pub fn paths_to_sync(local_paths: &Vec<String>, database_paths: &Vec<String>) -> (infos: PathInfos)
    ensures
        info_paths(infos.inner@) == unknown_paths(texts(local_paths@), texts(database_paths@)),
        forall|i: int| 0 <= i < infos.inner@.len() ==> (#[trigger] infos.inner@[i]).size is None,
{
    let ghost db = texts(database_paths@).map_values(|d: Seq<char>| path_components(d));
    let mut known: Vec<Vec<String>> = Vec::new();
    let mut k: usize = 0;
    while k < database_paths.len()
        invariant
            k <= database_paths@.len(),
            db == texts(database_paths@).map_values(|d: Seq<char>| path_components(d)),
            known@.len() == k,
            comps_list(known@) == db.take(k as int),
        decreases database_paths@.len() - k,
    {
        let c = split_path(database_paths[k].as_str());
        let ghost old_known = known@;
        known.push(c);
        proof {
            assert(db[k as int] == path_components(database_paths@[k as int]@));
            assert forall|j: int| 0 <= j < k + 1 implies comps_list(known@)[j] == db.take(k + 1)[j] by {
                if j < k {
                    assert(known@[j] == old_known[j]);
                    assert(comps_list(old_known)[j] == db.take(k as int)[j]);
                }
            }
            assert(comps_list(known@) =~= db.take(k + 1));
        }
        k = k + 1;
    }
    proof {
        assert(db.take(database_paths@.len() as int) =~= db);
    }
    let ghost local = texts(local_paths@);
    let ghost keep = |p: Seq<char>| !db.contains(path_components(p));
    let mut inner: Vec<PathInfo> = Vec::new();
    let mut i: usize = 0;
    while i < local_paths.len()
        invariant
            i <= local_paths@.len(),
            local == texts(local_paths@),
            comps_list(known@) == db,
            keep == (|p: Seq<char>| !db.contains(path_components(p))),
            info_paths(inner@) == local.take(i as int).filter(keep),
            forall|j: int| 0 <= j < inner@.len() ==> (#[trigger] inner@[j]).size is None,
        decreases local_paths@.len() - i,
    {
        let c = split_path(local_paths[i].as_str());
        let mut held = false;
        let mut m: usize = 0;
        while m < known.len()
            invariant
                m <= known@.len(),
                comps_list(known@) == db,
                held == exists|n: int| 0 <= n < m && db[n] == comps(c@),
            decreases known@.len() - m,
        {
            if crate::fs::path_finder::same_path(&known[m], &c) {
                held = true;
            }
            proof {
                assert(db[m as int] == comps(known@[m as int]@));
            }
            m = m + 1;
        }
        proof {
            let t = local.take(i + 1);
            assert(t.drop_last() =~= local.take(i as int));
            assert(t.last() == local_paths@[i as int]@);
            assert(t =~= local.take(i as int).push(local_paths@[i as int]@));
            local.take(i as int).lemma_filter_push(local_paths@[i as int]@, keep);
            assert(held == db.contains(path_components(local_paths@[i as int]@)));
        }
        if !held {
            let ghost old_inner = inner@;
            inner.push(PathInfo { path: local_paths[i].clone(), size: None });
            proof {
                assert(info_paths(inner@) =~= info_paths(old_inner).push(local_paths@[i as int]@));
            }
        }
        i = i + 1;
    }
    proof {
        assert(local.take(local_paths@.len() as int) =~= local);
    }
    PathInfos { inner }
}

impl PathInfos {
    /// Records, for each path in turn, the size read from disk for it (`None` where none could
    /// be read), as `PathInfo::try_update_size` does.
    pub fn populate_all(self, read: &Vec<Option<u64>>) -> (infos: Self)
        requires
            read@.len() == self.inner@.len(),
        ensures
            infos.inner@.len() == self.inner@.len(),
            forall|i: int| #![trigger infos.inner@[i]]
                0 <= i < self.inner@.len() ==> {
                    &&& infos.inner@[i].path == self.inner@[i].path
                    &&& infos.inner@[i].size == match self.inner@[i].size {
                        Some(s) => Some(s),
                        None => read@[i],
                    }
                },
    {
        let mut inner = self.inner;
        let ghost before = inner@;
        let mut i: usize = 0;
        while i < inner.len()
            invariant
                i <= inner@.len(),
                inner@.len() == before.len(),
                read@.len() == before.len(),
                forall|j: int| #![trigger inner@[j]]
                    i <= j < inner@.len() ==> inner@[j] == before[j],
                forall|j: int| #![trigger inner@[j]]
                    0 <= j < i ==> {
                        &&& inner@[j].path == before[j].path
                        &&& inner@[j].size == match before[j].size {
                            Some(s) => Some(s),
                            None => read@[j],
                        }
                    },
            decreases inner@.len() - i,
        {
            inner[i].try_update_size(read[i]);
            i = i + 1;
        }
        PathInfos { inner }
    }

    /// The files to add for these paths: each titled and placed by its path, neither remote
    /// nor encrypted, with its known size or 0.
    pub fn into_files(self) -> (files: Vec<File>)
        ensures
            files@.len() == self.inner@.len(),
            forall|i: int| #![trigger files@[i]]
                0 <= i < files@.len() ==> {
                    &&& files@[i].title@ == self.inner@[i].path@
                    &&& files@[i].path@ == self.inner@[i].path@
                    &&& !files@[i].is_remote
                    &&& !files@[i].is_encrypted
                    &&& files@[i].size == size_or_zero(self.inner@[i])
                    &&& exists|b: Seq<u8>| b.len() == 32 && files@[i].random_hash@ == hex_of(b)
                },
    {
        let mut files: Vec<File> = Vec::new();
        let mut i: usize = 0;
        while i < self.inner.len()
            invariant
                i <= self.inner@.len(),
                files@.len() == i,
                forall|j: int| #![trigger files@[j]]
                    0 <= j < i ==> {
                        &&& files@[j].title@ == self.inner@[j].path@
                        &&& files@[j].path@ == self.inner@[j].path@
                        &&& !files@[j].is_remote
                        &&& !files@[j].is_encrypted
                        &&& files@[j].size == size_or_zero(self.inner@[j])
                        &&& exists|b: Seq<u8>| b.len() == 32 && files@[j].random_hash@ == hex_of(b)
                    },
            decreases self.inner@.len() - i,
        {
            let info = &self.inner[i];
            let f = File::new(info.path.clone(), info.path.as_str(), false, false, info.size_or_default());
            files.push(f);
            i = i + 1;
        }
        files
    }
}

/// The final report of a sync job that met no fatal error.
#[derive(Debug)]
pub struct SyncReport {
    pub processed_files: usize,
}

} // verus!
