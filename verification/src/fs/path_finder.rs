use vstd::prelude::*;

use crate::fs::order::comps;
use crate::fs::path::skip_components;

verus! {

/// What is known of a file found on disk: its length in bytes and when it was last modified
/// (seconds since the Unix epoch).
#[derive(Clone, Copy, Debug, PartialEq, Eq, Structural)]
pub struct FileMetadata {
    pub len: u64,
    pub last_modified: u64,
}

/// An entry met while walking a directory: its absolute path by components, whether it is a
/// file, and its metadata.
pub struct WalkEntry {
    pub path: Vec<String>,
    pub is_file: bool,
    pub metadata: FileMetadata,
}

/// `path` without its first `n` components (nothing when it has fewer).
pub open spec fn skipped(path: Seq<Seq<char>>, n: int) -> Seq<Seq<char>> {
    if n <= path.len() {
        path.skip(n)
    } else {
        Seq::empty()
    }
}

/// The files met by a walk, keyed by their path without its first `n` components; where two
/// entries share a key, the later one counts.
pub open spec fn walk_map(walked: Seq<WalkEntry>, n: int) -> Map<Seq<Seq<char>>, FileMetadata>
    decreases walked.len(),
{
    if walked.len() == 0 {
        Map::empty()
    } else {
        let m = walk_map(walked.drop_last(), n);
        let e = walked.last();
        if e.is_file {
            m.insert(skipped(comps(e.path@), n), e.metadata)
        } else {
            m
        }
    }
}

/// No two entries have the same path.
pub open spec fn keys_unique(s: Seq<(Vec<String>, FileMetadata)>) -> bool {
    forall|i: int, j: int|
        0 <= i < j < s.len() ==> comps((#[trigger] s[i]).0@) != comps((#[trigger] s[j]).0@)
}

/// The entries as a map from path to metadata.
pub open spec fn entries_map(s: Seq<(Vec<String>, FileMetadata)>) -> Map<
    Seq<Seq<char>>,
    FileMetadata,
> {
    Map::new(
        |k: Seq<Seq<char>>| exists|i: int| 0 <= i < s.len() && comps((#[trigger] s[i]).0@) == k,
        |k: Seq<Seq<char>>| s[choose|i: int| 0 <= i < s.len() && comps((#[trigger] s[i]).0@) == k].1,
    )
}

pub(crate) proof fn lemma_entries_map_at(s: Seq<(Vec<String>, FileMetadata)>, i: int)
    requires
        keys_unique(s),
        0 <= i < s.len(),
    ensures
        entries_map(s).contains_key(comps(s[i].0@)),
        entries_map(s)[comps(s[i].0@)] == s[i].1,
{
    let k = comps(s[i].0@);
    assert(entries_map(s).dom().contains(k));
    let j = choose|j: int| 0 <= j < s.len() && comps((#[trigger] s[j]).0@) == k;
    if j != i {
        if j < i {
            assert(comps(s[j].0@) != comps(s[i].0@));
        } else {
            assert(comps(s[i].0@) != comps(s[j].0@));
        }
    }
}

/// Appending an entry under a new path adds that path to the map.
pub(crate) proof fn lemma_push_entry(s: Seq<(Vec<String>, FileMetadata)>, x: (Vec<String>, FileMetadata))
    requires
        keys_unique(s),
        !entries_map(s).contains_key(comps(x.0@)),
    ensures
        keys_unique(s.push(x)),
        entries_map(s.push(x)) == entries_map(s).insert(comps(x.0@), x.1),
{
    let t = s.push(x);
    let last = s.len() as int;
    let key = comps(x.0@);
    assert forall|a: int, b: int|
        0 <= a < b < t.len() implies comps((#[trigger] t[a]).0@) != comps((#[trigger] t[b]).0@) by {
        if b < last {
            assert(t[a] == s[a] && t[b] == s[b]);
        } else {
            assert(t[a] == s[a]);
            assert(entries_map(s).contains_key(comps(s[a].0@)));
        }
    }
    assert forall|k: Seq<Seq<char>>| #![auto] entries_map(t).contains_key(k) <==> entries_map(s).insert(key, x.1).contains_key(k) by {
        if entries_map(s).contains_key(k) {
            let j = choose|j: int| 0 <= j < s.len() && comps((#[trigger] s[j]).0@) == k;
            assert(t[j] == s[j]);
        }
        if k == key {
            assert(t[last] == x);
        }
        if entries_map(t).contains_key(k) {
            let j = choose|j: int| 0 <= j < t.len() && comps((#[trigger] t[j]).0@) == k;
            if j < last {
                assert(t[j] == s[j]);
            }
        }
    }
    assert forall|k: Seq<Seq<char>>| #![auto] entries_map(t).contains_key(k) implies entries_map(t)[k] == entries_map(s).insert(key, x.1)[k] by {
        let j = choose|j: int| 0 <= j < t.len() && comps((#[trigger] t[j]).0@) == k;
        lemma_entries_map_at(t, j);
        if j < last {
            assert(t[j] == s[j]);
            lemma_entries_map_at(s, j);
        } else {
            assert(t[j] == x);
        }
    }
    assert(entries_map(t) =~= entries_map(s).insert(key, x.1));
}

/// Holds the files found below a source directory, keyed by their path relative to it.
pub struct PathFinder {
    metadatas: Vec<(Vec<String>, FileMetadata)>,
}

impl View for PathFinder {
    type V = Map<Seq<Seq<char>>, FileMetadata>;

    closed spec fn view(&self) -> Map<Seq<Seq<char>>, FileMetadata> {
        entries_map(self.metadatas@)
    }
}

/// Whether two paths have the same components.
pub(crate) fn same_path(a: &Vec<String>, b: &Vec<String>) -> (r: bool)
    ensures
        r == (comps(a@) == comps(b@)),
{
    if a.len() != b.len() {
        proof {
            assert(comps(a@).len() != comps(b@).len());
        }
        return false;
    }
    let mut i: usize = 0;
    while i < a.len()
        invariant
            a@.len() == b@.len(),
            i <= a@.len(),
            forall|j: int| 0 <= j < i ==> a@[j]@ == b@[j]@,
        decreases a@.len() - i,
    {
        if a[i] != b[i] {
            proof {
                assert(comps(a@)[i as int] != comps(b@)[i as int]);
            }
            return false;
        }
        i = i + 1;
    }
    proof {
        assert(comps(a@) =~= comps(b@));
    }
    true
}

/// The index of the entry with path `path`, if any.
pub(crate) fn find_key(s: &Vec<(Vec<String>, FileMetadata)>, path: &Vec<String>) -> (r: Option<usize>)
    ensures
        match r {
            Some(k) => k < s@.len() && comps(s@[k as int].0@) == comps(path@),
            None => forall|k: int| 0 <= k < s@.len() ==> comps(s@[k].0@) != comps(path@),
        },
{
    let mut i: usize = 0;
    while i < s.len()
        invariant
            i <= s@.len(),
            forall|k: int| 0 <= k < i ==> comps(s@[k].0@) != comps(path@),
        decreases s@.len() - i,
    {
        if same_path(&s[i].0, path) {
            return Some(i);
        }
        i = i + 1;
    }
    None
}

impl PathFinder {
    /// Every entry's path is held once.
    pub closed spec fn wf(&self) -> bool {
        keys_unique(self.metadatas@)
    }

    /// The found files, keyed by their relative path, each path once.
    pub fn metadatas(&self) -> (r: &Vec<(Vec<String>, FileMetadata)>)
        requires
            self.wf(),
        ensures
            keys_unique(r@),
            entries_map(r@) == self@,
    {
        &self.metadatas
    }

    /// The files among the entries of a walk of a source directory whose path has
    /// `source_path_length` components, each keyed by its path relative to that directory.
    pub fn from_walk(source_path_length: usize, walked: &Vec<WalkEntry>) -> (finder: Self)
        ensures
            finder.wf(),
            finder@ == walk_map(walked@, source_path_length as int),
    {
        let ghost n = source_path_length as int;
        let mut metadatas: Vec<(Vec<String>, FileMetadata)> = Vec::new();
        let mut i: usize = 0;
        proof {
            assert(walked@.take(0) =~= Seq::<WalkEntry>::empty());
            assert(entries_map(metadatas@) =~= Map::<Seq<Seq<char>>, FileMetadata>::empty());
        }
        while i < walked.len()
            invariant
                i <= walked@.len(),
                n == source_path_length as int,
                keys_unique(metadatas@),
                entries_map(metadatas@) == walk_map(walked@.take(i as int), n),
            decreases walked@.len() - i,
        {
            let entry = &walked[i];
            let ghost before = metadatas@;
            proof {
                assert(walked@.take(i + 1).drop_last() =~= walked@.take(i as int));
                assert(walked@.take(i + 1).last() == walked@[i as int]);
            }
            if entry.is_file {
                let relative_path = skip_components(&entry.path, source_path_length);
                let ghost key = comps(relative_path@);
                proof {
                    assert(key == skipped(comps(entry.path@), n));
                }
                match find_key(&metadatas, &relative_path) {
                    Some(k) => {
                        metadatas.set(k, (relative_path, entry.metadata));
                        proof {
                            assert forall|a: int, b: int|
                                0 <= a < b < metadatas@.len() implies comps((#[trigger] metadatas@[a]).0@) != comps((#[trigger] metadatas@[b]).0@) by {
                                assert(comps(before[a].0@) != comps(before[b].0@));
                            }
                            assert forall|x: Seq<Seq<char>>| #![auto] entries_map(metadatas@).contains_key(x) <==> entries_map(before).insert(key, entry.metadata).contains_key(x) by {
                                if entries_map(before).contains_key(x) {
                                    let j = choose|j: int| 0 <= j < before.len() && comps((#[trigger] before[j]).0@) == x;
                                    if j != k {
                                        assert(metadatas@[j] == before[j]);
                                    }
                                }
                                if entries_map(metadatas@).contains_key(x) {
                                    let j = choose|j: int| 0 <= j < metadatas@.len() && comps((#[trigger] metadatas@[j]).0@) == x;
                                    if j != k {
                                        assert(metadatas@[j] == before[j]);
                                    }
                                }
                                if x == key {
                                    assert(comps(metadatas@[k as int].0@) == key);
                                }
                            }
                            assert forall|x: Seq<Seq<char>>| #![auto] entries_map(metadatas@).contains_key(x) implies entries_map(metadatas@)[x] == entries_map(before).insert(key, entry.metadata)[x] by {
                                let j = choose|j: int| 0 <= j < metadatas@.len() && comps((#[trigger] metadatas@[j]).0@) == x;
                                lemma_entries_map_at(metadatas@, j);
                                if j != k {
                                    assert(metadatas@[j] == before[j]);
                                    lemma_entries_map_at(before, j);
                                }
                            }
                            assert(entries_map(metadatas@) =~= entries_map(before).insert(key, entry.metadata));
                        }
                    },
                    None => {
                        metadatas.push((relative_path, entry.metadata));
                        proof {
                            let last = before.len() as int;
                            assert forall|a: int, b: int|
                                0 <= a < b < metadatas@.len() implies comps((#[trigger] metadatas@[a]).0@) != comps((#[trigger] metadatas@[b]).0@) by {
                                if b < last {
                                    assert(comps(before[a].0@) != comps(before[b].0@));
                                } else {
                                    assert(metadatas@[a] == before[a]);
                                }
                            }
                            assert forall|x: Seq<Seq<char>>| #![auto] entries_map(metadatas@).contains_key(x) <==> entries_map(before).insert(key, entry.metadata).contains_key(x) by {
                                if entries_map(before).contains_key(x) {
                                    let j = choose|j: int| 0 <= j < before.len() && comps((#[trigger] before[j]).0@) == x;
                                    assert(metadatas@[j] == before[j]);
                                }
                                if x == key {
                                    assert(comps(metadatas@[last].0@) == key);
                                }
                                if entries_map(metadatas@).contains_key(x) {
                                    let j = choose|j: int| 0 <= j < metadatas@.len() && comps((#[trigger] metadatas@[j]).0@) == x;
                                    if j < last {
                                        assert(metadatas@[j] == before[j]);
                                    }
                                }
                            }
                            assert forall|x: Seq<Seq<char>>| #![auto] entries_map(metadatas@).contains_key(x) implies entries_map(metadatas@)[x] == entries_map(before).insert(key, entry.metadata)[x] by {
                                let j = choose|j: int| 0 <= j < metadatas@.len() && comps((#[trigger] metadatas@[j]).0@) == x;
                                lemma_entries_map_at(metadatas@, j);
                                if j < last {
                                    assert(metadatas@[j] == before[j]);
                                    lemma_entries_map_at(before, j);
                                }
                            }
                            assert(entries_map(metadatas@) =~= entries_map(before).insert(key, entry.metadata));
                        }
                    },
                }
            }
            i = i + 1;
        }
        proof {
            assert(walked@.take(walked@.len() as int) =~= walked@);
        }
        PathFinder { metadatas }
    }

    /// Remove the files at each of `relative_paths_to_filter`.
    pub fn filter_out_paths(&mut self, relative_paths_to_filter: &Vec<Vec<String>>)
        requires
            old(self).wf(),
        ensures
            final(self).wf(),
            final(self)@ == old(self)@.remove_keys(
                Set::new(|p: Seq<Seq<char>>| exists|i: int| 0 <= i < relative_paths_to_filter@.len() && comps((#[trigger] relative_paths_to_filter@[i])@) == p),
            ),
    {
        let ghost filter = Set::new(|p: Seq<Seq<char>>| exists|i: int| 0 <= i < relative_paths_to_filter@.len() && comps((#[trigger] relative_paths_to_filter@[i])@) == p);
        let ghost start = self@;
        let mut i: usize = 0;
        while i < relative_paths_to_filter.len()
            invariant
                i <= relative_paths_to_filter@.len(),
                keys_unique(self.metadatas@),
                self@ == start.remove_keys(Set::new(|p: Seq<Seq<char>>| exists|j: int| 0 <= j < i && comps((#[trigger] relative_paths_to_filter@[j])@) == p)),
            decreases relative_paths_to_filter@.len() - i,
        {
            let ghost before = self.metadatas@;
            let ghost key = comps(relative_paths_to_filter@[i as int]@);
            match find_key(&self.metadatas, &relative_paths_to_filter[i]) {
                Some(k) => {
                    self.metadatas.remove(k);
                    proof {
                        let after = self.metadatas@;
                        assert(after =~= before.remove(k as int));
                        assert forall|a: int, b: int|
                            0 <= a < b < after.len() implies comps((#[trigger] after[a]).0@) != comps((#[trigger] after[b]).0@) by {
                            let a0 = if a < k { a } else { a + 1 };
                            let b0 = if b < k { b } else { b + 1 };
                            assert(after[a] == before[a0]);
                            assert(after[b] == before[b0]);
                            assert(comps(before[a0].0@) != comps(before[b0].0@));
                        }
                        assert forall|x: Seq<Seq<char>>| #![auto] entries_map(after).contains_key(x) <==> entries_map(before).remove(key).contains_key(x) by {
                            if entries_map(before).contains_key(x) && x != key {
                                let j = choose|j: int| 0 <= j < before.len() && comps((#[trigger] before[j]).0@) == x;
                                assert(j != k);
                                let j2 = if j < k { j } else { j - 1 };
                                assert(after[j2] == before[j]);
                            }
                            if entries_map(after).contains_key(x) {
                                let j = choose|j: int| 0 <= j < after.len() && comps((#[trigger] after[j]).0@) == x;
                                let j0 = if j < k { j } else { j + 1 };
                                assert(after[j] == before[j0]);
                                assert(j0 != k);
                                if j0 < k {
                                    assert(comps(before[j0].0@) != comps(before[k as int].0@));
                                } else {
                                    assert(comps(before[k as int].0@) != comps(before[j0].0@));
                                }
                            }
                        }
                        assert forall|x: Seq<Seq<char>>| #![auto] entries_map(after).contains_key(x) implies entries_map(after)[x] == entries_map(before)[x] by {
                            let j = choose|j: int| 0 <= j < after.len() && comps((#[trigger] after[j]).0@) == x;
                            let j0 = if j < k { j } else { j + 1 };
                            assert(after[j] == before[j0]);
                            lemma_entries_map_at(after, j);
                            lemma_entries_map_at(before, j0);
                        }
                        assert(entries_map(after) =~= entries_map(before).remove(key));
                    }
                },
                None => {
                    proof {
                        assert(!entries_map(before).contains_key(key));
                        assert(entries_map(before).remove(key) =~= entries_map(before));
                    }
                },
            }
            proof {
                let s_old = Set::new(|p: Seq<Seq<char>>| exists|j: int| 0 <= j < i && comps((#[trigger] relative_paths_to_filter@[j])@) == p);
                let s_new = Set::new(|p: Seq<Seq<char>>| exists|j: int| 0 <= j < i + 1 && comps((#[trigger] relative_paths_to_filter@[j])@) == p);
                assert(s_new =~= s_old.insert(key)) by {
                    assert forall|p: Seq<Seq<char>>| s_new.contains(p) implies s_old.insert(key).contains(p) by {
                        let j = choose|j: int| 0 <= j < i + 1 && comps((#[trigger] relative_paths_to_filter@[j])@) == p;
                        if j < i {
                            assert(s_old.contains(p));
                        }
                    }
                    assert(s_new.contains(key)) by {
                        assert(comps(relative_paths_to_filter@[i as int]@) == key);
                    }
                }
                assert(start.remove_keys(s_new) =~= start.remove_keys(s_old).remove(key));
            }
            i = i + 1;
        }
        proof {
            let s_end = Set::new(|p: Seq<Seq<char>>| exists|j: int| 0 <= j < relative_paths_to_filter@.len() && comps((#[trigger] relative_paths_to_filter@[j])@) == p);
            assert(s_end =~= filter);
        }
    }
}

} // verus!
