use vstd::prelude::*;

use crate::database::models::file::File;
use crate::fs::order::{comps, comps_list};
use crate::fs::path::{join_components, path_components, skip_components};
use crate::fs::path_finder::{skipped, entries_map, keys_unique, lemma_entries_map_at, lemma_push_entry, FileMetadata, PathFinder};

verus! {

/// Final report of a database sync job.
#[derive(Debug)]
pub struct DatabaseSyncReport {
    pub processed_files: usize,
}

/// Final report of an encryption job.
#[derive(Debug)]
pub struct EncryptionReport {
    pub processed_files: usize,
    pub errors_count: usize,
}

/// The number of `false` entries of `s`.
pub open spec fn count_false(s: Seq<bool>) -> nat
    decreases s.len(),
{
    if s.len() == 0 {
        0
    } else {
        count_false(s.drop_last()) + if s.last() {
            0nat
        } else {
            1nat
        }
    }
}

/// `count_false` counts the failures: none in an empty list, one more for each `false`
/// appended, none more for each `true`, and never more than the entries.
pub proof fn lemma_count_false_counts_failures(s: Seq<bool>)
    ensures
        count_false(Seq::<bool>::empty()) == 0,
        count_false(s.push(false)) == count_false(s) + 1,
        count_false(s.push(true)) == count_false(s),
        count_false(s) <= s.len(),
    decreases s.len(),
{
    assert(s.push(false).drop_last() =~= s);
    assert(s.push(true).drop_last() =~= s);
    if s.len() > 0 {
        lemma_count_false_counts_failures(s.drop_last());
    }
}

impl EncryptionReport {
    /// The report on an encryption job from whether each file was encrypted: every file is
    /// processed, and those that were not encrypted are the errors.
    pub fn from_status(status: &Vec<bool>) -> (report: Self)
        ensures
            report.processed_files == status@.len(),
            report.errors_count == count_false(status@),
    {
        let mut errors_count: usize = 0;
        let mut i: usize = 0;
        while i < status.len()
            invariant
                i <= status@.len(),
                errors_count == count_false(status@.take(i as int)),
                errors_count <= i,
            decreases status@.len() - i,
        {
            proof {
                assert(status@.take(i + 1).drop_last() =~= status@.take(i as int));
            }
            if !status[i] {
                errors_count = errors_count + 1;
            }
            i = i + 1;
        }
        proof {
            assert(status@.take(status@.len() as int) =~= status@);
        }
        EncryptionReport { processed_files: status.len(), errors_count }
    }
}

/// For each file to encrypt: where it is read from (`source_path` joined with its path) and
/// where its encrypted copy goes (`encrypted_path` joined with its random hash).
pub fn encryption_targets(files: &Vec<File>, source_path: &Vec<String>, encrypted_path: &Vec<String>) -> (targets: Vec<(Vec<String>, Vec<String>)>)
    ensures
        targets@.len() == files@.len(),
        forall|i: int| 0 <= i < files@.len() ==> {
            &&& comps((#[trigger] targets@[i]).0@) == comps(source_path@) + path_components(files@[i].path@)
            &&& comps(targets@[i].1@) == comps(encrypted_path@).push(files@[i].random_hash@)
        },
{
    let mut targets: Vec<(Vec<String>, Vec<String>)> = Vec::new();
    let mut i: usize = 0;
    while i < files.len()
        invariant
            i <= files@.len(),
            targets@.len() == i,
            forall|j: int| 0 <= j < i ==> {
                &&& comps((#[trigger] targets@[j]).0@) == comps(source_path@) + path_components(files@[j].path@)
                &&& comps(targets@[j].1@) == comps(encrypted_path@).push(files@[j].random_hash@)
            },
        decreases files@.len() - i,
    {
        let pair = files[i].encryption_source_and_target(encrypted_path, source_path);
        targets.push(pair);
        i = i + 1;
    }
    targets
}

/// The local files that are new or changed: those the database does not know go to the
/// first list; those it knows with an older modification time go to the second.
pub open spec fn needs_insertion(local: Map<Seq<Seq<char>>, FileMetadata>, database: Map<Seq<Seq<char>>, u64>, p: Seq<Seq<char>>) -> bool {
    local.contains_key(p) && !database.contains_key(p)
}

pub open spec fn needs_update(local: Map<Seq<Seq<char>>, FileMetadata>, database: Map<Seq<Seq<char>>, u64>, p: Seq<Seq<char>>) -> bool {
    local.contains_key(p) && database.contains_key(p) && local[p].last_modified > database[p]
}

/// How a sync sorts a local file: it is to insert exactly when the database does not know its
/// path, and to update exactly when the database knows it with an older modification time,
/// whatever the file's size.
pub proof fn lemma_sync_decision(local: Map<Seq<Seq<char>>, FileMetadata>, database: Map<Seq<Seq<char>>, u64>, p: Seq<Seq<char>>)
    requires
        local.contains_key(p),
    ensures
        needs_insertion(local, database, p) <==> !database.contains_key(p),
        needs_update(local, database, p) <==> database.contains_key(p) && local[p].last_modified > database[p],
        !(needs_insertion(local, database, p) && needs_update(local, database, p)),
{
}

/// The database's paths with their last modification time, as a map.
pub open spec fn times_map(s: Seq<(Vec<String>, u64)>) -> Map<Seq<Seq<char>>, u64> {
    Map::new(
        |k: Seq<Seq<char>>| exists|i: int| 0 <= i < s.len() && comps((#[trigger] s[i]).0@) == k,
        |k: Seq<Seq<char>>| s[choose|i: int| 0 <= i < s.len() && comps((#[trigger] s[i]).0@) == k].1,
    )
}

/// No two of the database's paths are the same.
pub open spec fn times_unique(s: Seq<(Vec<String>, u64)>) -> bool {
    forall|i: int, j: int|
        0 <= i < j < s.len() ==> comps((#[trigger] s[i]).0@) != comps((#[trigger] s[j]).0@)
}

/// The database's time for `path`, if it knows the path.
fn find_time(s: &Vec<(Vec<String>, u64)>, path: &Vec<String>) -> (r: Option<u64>)
    requires
        times_unique(s@),
    ensures
        match r {
            Some(t) => times_map(s@).contains_key(comps(path@)) && times_map(s@)[comps(path@)] == t,
            None => !times_map(s@).contains_key(comps(path@)),
        },
{
    let mut i: usize = 0;
    while i < s.len()
        invariant
            i <= s@.len(),
            times_unique(s@),
            forall|k: int| 0 <= k < i ==> comps(s@[k].0@) != comps(path@),
        decreases s@.len() - i,
    {
        if crate::fs::path_finder::same_path(&s[i].0, path) {
            proof {
                let key = comps(path@);
                assert(times_map(s@).dom().contains(key));
                let j = choose|j: int| 0 <= j < s@.len() && comps((#[trigger] s@[j]).0@) == key;
                if j != i {
                    if j < i {
                        assert(comps(s@[j].0@) != comps(s@[i as int].0@));
                    } else {
                        assert(comps(s@[i as int].0@) != comps(s@[j].0@));
                    }
                }
            }
            return Some(s[i].1);
        }
        i = i + 1;
    }
    None
}

/// Split the files found locally into those to insert into the database and those to update
/// there, given the database's paths with their last modification time.
pub fn find_paths_requiring_insertion_or_update(local: &PathFinder, database: &Vec<(Vec<String>, u64)>) -> (r: (Vec<(Vec<String>, FileMetadata)>, Vec<(Vec<String>, FileMetadata)>))
    requires
        local.wf(),
        times_unique(database@),
    ensures
        keys_unique(r.0@),
        keys_unique(r.1@),
        entries_map(r.0@) == local@.restrict(Set::new(|p: Seq<Seq<char>>| needs_insertion(local@, times_map(database@), p))),
        entries_map(r.1@) == local@.restrict(Set::new(|p: Seq<Seq<char>>| needs_update(local@, times_map(database@), p))),
{
    let entries = local.metadatas();
    let ghost db = times_map(database@);
    let mut require_insertion: Vec<(Vec<String>, FileMetadata)> = Vec::new();
    let mut require_update: Vec<(Vec<String>, FileMetadata)> = Vec::new();
    let mut i: usize = 0;
    proof {
        assert(entries_map(require_insertion@) =~= local@.restrict(Set::new(|p: Seq<Seq<char>>| needs_insertion(local@, db, p) && seen(entries@, 0, p))));
        assert(entries_map(require_update@) =~= local@.restrict(Set::new(|p: Seq<Seq<char>>| needs_update(local@, db, p) && seen(entries@, 0, p))));
    }
    while i < entries.len()
        invariant
            i <= entries@.len(),
            keys_unique(entries@),
            entries_map(entries@) == local@,
            db == times_map(database@),
            times_unique(database@),
            keys_unique(require_insertion@),
            keys_unique(require_update@),
            entries_map(require_insertion@) == local@.restrict(Set::new(|p: Seq<Seq<char>>| needs_insertion(local@, db, p) && seen(entries@, i as int, p))),
            entries_map(require_update@) == local@.restrict(Set::new(|p: Seq<Seq<char>>| needs_update(local@, db, p) && seen(entries@, i as int, p))),
        decreases entries@.len() - i,
    {
        let relative_local_path = &entries[i].0;
        let metadata = entries[i].1;
        let ghost key = comps(relative_local_path@);
        let ghost ins_old = Set::new(|p: Seq<Seq<char>>| needs_insertion(local@, db, p) && seen(entries@, i as int, p));
        let ghost upd_old = Set::new(|p: Seq<Seq<char>>| needs_update(local@, db, p) && seen(entries@, i as int, p));
        let ghost ins_new = Set::new(|p: Seq<Seq<char>>| needs_insertion(local@, db, p) && seen(entries@, i + 1, p));
        let ghost upd_new = Set::new(|p: Seq<Seq<char>>| needs_update(local@, db, p) && seen(entries@, i + 1, p));
        proof {
            lemma_entries_map_at(entries@, i as int);
            lemma_seen_next(entries@, i as int);
            assert(!seen(entries@, i as int, key)) by {
                if seen(entries@, i as int, key) {
                    let b = choose|b: int| 0 <= b < i && comps((#[trigger] entries@[b]).0@) == key;
                    assert(comps(entries@[b].0@) != comps(entries@[i as int].0@));
                }
            }
        }
        match find_time(database, relative_local_path) {
            None => {
                let ghost before = require_insertion@;
                let x = (relative_local_path.clone(), metadata);
                proof {
                    assert(comps(x.0@) =~= key);
                    assert(!entries_map(before).contains_key(key));
                    lemma_push_entry(before, x);
                }
                require_insertion.push(x);
                proof {
                    assert(ins_new =~= ins_old.insert(key));
                    assert(upd_new =~= upd_old);
                    assert(local@.restrict(ins_new) =~= local@.restrict(ins_old).insert(key, metadata));
                }
            },
            Some(db_last_modified) => {
                if metadata.last_modified > db_last_modified {
                    let ghost before = require_update@;
                    let x = (relative_local_path.clone(), metadata);
                    proof {
                        assert(comps(x.0@) =~= key);
                        assert(!entries_map(before).contains_key(key));
                        lemma_push_entry(before, x);
                    }
                    require_update.push(x);
                    proof {
                        assert(upd_new =~= upd_old.insert(key));
                        assert(ins_new =~= ins_old);
                        assert(local@.restrict(upd_new) =~= local@.restrict(upd_old).insert(key, metadata));
                    }
                } else {
                    proof {
                        assert(ins_new =~= ins_old);
                        assert(upd_new =~= upd_old);
                    }
                }
            },
        }
        i = i + 1;
    }
    proof {
        lemma_seen_all(entries@);
        assert(Set::new(|p: Seq<Seq<char>>| needs_insertion(local@, db, p) && seen(entries@, entries@.len() as int, p)) =~= Set::new(|p: Seq<Seq<char>>| needs_insertion(local@, db, p)));
        assert(Set::new(|p: Seq<Seq<char>>| needs_update(local@, db, p) && seen(entries@, entries@.len() as int, p)) =~= Set::new(|p: Seq<Seq<char>>| needs_update(local@, db, p)));
    }
    (require_insertion, require_update)
}

/// `p` is the path of one of the first `i` entries.
pub open spec fn seen(entries: Seq<(Vec<String>, FileMetadata)>, i: int, p: Seq<Seq<char>>) -> bool {
    exists|b: int| 0 <= b < i && comps((#[trigger] entries[b]).0@) == p
}

proof fn lemma_seen_next(entries: Seq<(Vec<String>, FileMetadata)>, i: int)
    requires
        0 <= i < entries.len(),
    ensures
        forall|p: Seq<Seq<char>>| #[trigger] seen(entries, i + 1, p) <==> (seen(entries, i, p) || p == comps(entries[i].0@)),
{
    assert forall|p: Seq<Seq<char>>| #[trigger] seen(entries, i + 1, p) <==> (seen(entries, i, p) || p == comps(entries[i].0@)) by {
        if seen(entries, i + 1, p) {
            let b = choose|b: int| 0 <= b < i + 1 && comps((#[trigger] entries[b]).0@) == p;
            if b < i {
                assert(seen(entries, i, p));
            }
        }
        if seen(entries, i, p) {
            let b = choose|b: int| 0 <= b < i && comps((#[trigger] entries[b]).0@) == p;
            assert(seen(entries, i + 1, p));
        }
        if p == comps(entries[i].0@) {
            assert(seen(entries, i + 1, p));
        }
    }
}

proof fn lemma_seen_all(entries: Seq<(Vec<String>, FileMetadata)>)
    ensures
        forall|p: Seq<Seq<char>>| #[trigger] seen(entries, entries.len() as int, p) <==> entries_map(entries).contains_key(p),
{
}


/// A second sync over unchanged files finds nothing to do: when the database knows every
/// local path with a modification time no older than the local one, nothing needs inserting
/// or updating.
pub proof fn lemma_resync_finds_nothing(local: Map<Seq<Seq<char>>, FileMetadata>, database: Map<Seq<Seq<char>>, u64>)
    requires
        forall|p: Seq<Seq<char>>| #[trigger] local.contains_key(p) ==> database.contains_key(p) && local[p].last_modified <= database[p],
    ensures
        local.restrict(Set::new(|p: Seq<Seq<char>>| needs_insertion(local, database, p))) == Map::<Seq<Seq<char>>, FileMetadata>::empty(),
        local.restrict(Set::new(|p: Seq<Seq<char>>| needs_update(local, database, p))) == Map::<Seq<Seq<char>>, FileMetadata>::empty(),
{
    assert(local.restrict(Set::new(|p: Seq<Seq<char>>| needs_insertion(local, database, p))) =~= Map::<Seq<Seq<char>>, FileMetadata>::empty());
    assert(local.restrict(Set::new(|p: Seq<Seq<char>>| needs_update(local, database, p))) =~= Map::<Seq<Seq<char>>, FileMetadata>::empty());
}

/// A file added after a sync is the only one the next sync finds: when the database knows
/// every local path but `new_path`, none of them changed since, the new path is the one to
/// insert and nothing is to update.
pub proof fn lemma_new_file_detected(
    local: Map<Seq<Seq<char>>, FileMetadata>,
    database: Map<Seq<Seq<char>>, u64>,
    new_path: Seq<Seq<char>>,
)
    requires
        local.contains_key(new_path),
        !database.contains_key(new_path),
        forall|p: Seq<Seq<char>>|
            #[trigger] local.contains_key(p) && p != new_path ==> database.contains_key(p)
                && local[p].last_modified <= database[p],
    ensures
        local.restrict(Set::new(|p: Seq<Seq<char>>| needs_insertion(local, database, p))) == map![new_path => local[new_path]],
        local.restrict(Set::new(|p: Seq<Seq<char>>| needs_update(local, database, p))) == Map::<Seq<Seq<char>>, FileMetadata>::empty(),
{
    assert(local.restrict(Set::new(|p: Seq<Seq<char>>| needs_insertion(local, database, p))) =~= map![new_path => local[new_path]]);
    assert(local.restrict(Set::new(|p: Seq<Seq<char>>| needs_update(local, database, p))) =~= Map::<Seq<Seq<char>>, FileMetadata>::empty());
}

/// Filtering out every path the database already holds leaves nothing to add once the
/// database holds every local path.
pub proof fn lemma_filter_known_paths_empties(local: Map<Seq<Seq<char>>, FileMetadata>, known: Set<Seq<Seq<char>>>)
    requires
        local.dom().subset_of(known),
    ensures
        local.remove_keys(known) == Map::<Seq<Seq<char>>, FileMetadata>::empty(),
{
    assert(local.remove_keys(known) =~= Map::<Seq<Seq<char>>, FileMetadata>::empty());
}

/// The paths of the entries whose status is `true`, each without its first `n` components.
pub open spec fn succeeded_paths(status: Seq<(Vec<String>, bool)>, n: int) -> Seq<Seq<Seq<char>>>
    decreases status.len(),
{
    if status.len() == 0 {
        Seq::empty()
    } else {
        let rest = succeeded_paths(status.drop_last(), n);
        if status.last().1 {
            rest.push(skipped(comps(status.last().0@), n))
        } else {
            rest
        }
    }
}

/// The files encrypted successfully, by their path relative to the unlocked path, which has
/// `unlocked_path_len` components.
pub fn successful_relative_paths(status: &Vec<(Vec<String>, bool)>, unlocked_path_len: usize) -> (paths: Vec<Vec<String>>)
    ensures
        comps_list(paths@) == succeeded_paths(status@, unlocked_path_len as int),
{
    let mut paths: Vec<Vec<String>> = Vec::new();
    let mut i: usize = 0;
    while i < status.len()
        invariant
            i <= status@.len(),
            comps_list(paths@) == succeeded_paths(status@.take(i as int), unlocked_path_len as int),
        decreases status@.len() - i,
    {
        proof {
            assert(status@.take(i + 1).drop_last() =~= status@.take(i as int));
            assert(status@.take(i + 1).last() == status@[i as int]);
        }
        if status[i].1 {
            let relative = skip_components(&status[i].0, unlocked_path_len);
            let ghost before = paths@;
            paths.push(relative);
            proof {
                assert(comps_list(paths@) =~= comps_list(before).push(comps(relative@)));
            }
        }
        i = i + 1;
    }
    proof {
        assert(status@.take(status@.len() as int) =~= status@);
    }
    paths
}

/// Each of `relative` joined onto `root`: the files to hash, by absolute path.
pub fn absolute_paths(root: &Vec<String>, relative: &Vec<Vec<String>>) -> (paths: Vec<Vec<String>>)
    ensures
        paths@.len() == relative@.len(),
        forall|i: int| 0 <= i < relative@.len() ==> comps((#[trigger] paths@[i])@) == comps(root@) + comps(relative@[i]@),
{
    let mut paths: Vec<Vec<String>> = Vec::new();
    let mut i: usize = 0;
    while i < relative.len()
        invariant
            i <= relative@.len(),
            paths@.len() == i,
            forall|j: int| 0 <= j < i ==> comps((#[trigger] paths@[j])@) == comps(root@) + comps(relative@[j]@),
        decreases relative@.len() - i,
    {
        paths.push(join_components(root, &relative[i]));
        i = i + 1;
    }
    paths
}

/// Each of `absolute` without its first `root_len` components: hashed files back by their
/// path relative to the root.
pub fn relative_paths(root_len: usize, absolute: &Vec<Vec<String>>) -> (paths: Vec<Vec<String>>)
    ensures
        paths@.len() == absolute@.len(),
        forall|i: int| 0 <= i < absolute@.len() ==> comps((#[trigger] paths@[i])@) == skipped(comps(absolute@[i]@), root_len as int),
{
    let mut paths: Vec<Vec<String>> = Vec::new();
    let mut i: usize = 0;
    while i < absolute.len()
        invariant
            i <= absolute@.len(),
            paths@.len() == i,
            forall|j: int| 0 <= j < i ==> comps((#[trigger] paths@[j])@) == skipped(comps(absolute@[j]@), root_len as int),
        decreases absolute@.len() - i,
    {
        paths.push(skip_components(&absolute[i], root_len));
        i = i + 1;
    }
    paths
}

/// Making paths absolute under a root and then relative to it again gives them back.
pub proof fn lemma_relative_after_absolute(root: Seq<Seq<char>>, relative: Seq<Seq<char>>)
    ensures
        skipped(root + relative, root.len() as int) == relative,
{
    assert((root + relative).skip(root.len() as int) =~= relative);
}

} // verus!
