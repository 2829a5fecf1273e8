use vstd::prelude::*;

use crate::database::models::file::File;
use crate::database::models::tag::Tag;
use crate::fs::order::{comps, comps_list};
use crate::fs::path::{join_components, lemma_name_components, names_component, path_components, split_path};
use crate::text::{decimal, hex_of, is_hex_digit, lemma_hex_of_shape, signed_decimal, signed_decimal_string};
use crate::fs::path_finder::{entries_map, find_key, keys_unique, same_path, FileMetadata, PathFinder};

verus! {

/// The path under which the archive stores a file: its random hash, read as a path.
pub open spec fn stored_key(f: File) -> Seq<Seq<char>> {
    path_components(f.random_hash@)
}

/// The stored paths of `files`, in order.
pub open spec fn stored_keys(files: Seq<File>) -> Seq<Seq<Seq<char>>> {
    files.map_values(|f: File| stored_key(f))
}

/// A random hash made of the hexadecimal digits of 32 bytes, as `File::new` makes them, is a
/// plain name: 64 characters, none of them `/`.
pub proof fn lemma_hex_hash_is_a_name(bytes: Seq<u8>)
    requires
        bytes.len() == 32,
    ensures
        forall|i: int| 0 <= i < hex_of(bytes).len() ==> hex_of(bytes)[i] != '/',
        names_component(hex_of(bytes)),
{
    lemma_hex_of_shape(bytes);
    assert forall|i: int| 0 <= i < hex_of(bytes).len() implies hex_of(bytes)[i] != '/' by {
        assert(is_hex_digit(hex_of(bytes)[i]));
    }
    assert(hex_of(bytes).len() != seq!['.'].len());
}

/// The consistency check and pruning look for a file where encryption put it: directly in
/// the locked directory, under its whole random hash. For a hash that is a plain name (no
/// `/`, neither empty nor `.`), its stored path is that one name.
pub proof fn lemma_stored_key_is_the_hash(f: File)
    requires
        forall|i: int| 0 <= i < f.random_hash@.len() ==> f.random_hash@[i] != '/',
        names_component(f.random_hash@),
    ensures
        stored_key(f) == seq![f.random_hash@],
{
    lemma_name_components(f.random_hash@);
}

/// A locked directory that holds exactly the files the database's files were encrypted to,
/// each under its whole random hash, is consistent with the database: every stored file is
/// found, every found file is known, and both count as many distinct files.
pub proof fn lemma_encrypted_archive_is_consistent(files: Seq<File>, found: Map<Seq<Seq<char>>, FileMetadata>)
    requires
        forall|i: int| #![trigger files[i]] 0 <= i < files.len() ==> {
            &&& forall|c: int| 0 <= c < files[i].random_hash@.len() ==> files[i].random_hash@[c] != '/'
            &&& names_component(files[i].random_hash@)
        },
        forall|k: Seq<Seq<char>>| found.contains_key(k) <==> exists|i: int| 0 <= i < files.len() && k == seq![(#[trigger] files[i]).random_hash@],
    ensures
        forall|i: int| 0 <= i < files.len() ==> found.contains_key(stored_key(#[trigger] files[i])),
        forall|k: Seq<Seq<char>>| found.contains_key(k) ==> stored_keys(files).contains(k),
        found.dom().len() == stored_keys(files).to_set().len(),
{
    assert forall|i: int| 0 <= i < files.len() implies stored_key(#[trigger] files[i]) == seq![files[i].random_hash@] by {
        lemma_stored_key_is_the_hash(files[i]);
    }
    assert forall|k: Seq<Seq<char>>| found.dom().contains(k) <==> stored_keys(files).to_set().contains(k) by {
        if found.dom().contains(k) {
            let i = choose|i: int| 0 <= i < files.len() && k == seq![(#[trigger] files[i]).random_hash@];
            assert(stored_keys(files)[i] == stored_key(files[i]));
        }
        if stored_keys(files).to_set().contains(k) {
            let i = choose|i: int| 0 <= i < stored_keys(files).len() && stored_keys(files)[i] == k;
            assert(stored_keys(files)[i] == stored_key(files[i]));
            assert(stored_key(files[i]) == seq![files[i].random_hash@]);
        }
    }
    assert(found.dom() =~= stored_keys(files).to_set());
    lemma_consistent_archive_reports_nothing(files, found);
}

/// No later entry of `keys` equals the one at `i`.
pub open spec fn is_last(keys: Seq<Seq<Seq<char>>>, i: int) -> bool {
    forall|j: int| i < j < keys.len() ==> keys[j] != keys[i]
}

/// The stored path of each file.
fn stored_paths(files: &Vec<File>) -> (keys: Vec<Vec<String>>)
    ensures
        comps_list(keys@) == stored_keys(files@),
{
    let mut keys: Vec<Vec<String>> = Vec::new();
    let mut i: usize = 0;
    while i < files.len()
        invariant
            i <= files@.len(),
            keys@.len() == i,
            comps_list(keys@) == stored_keys(files@).take(i as int),
        decreases files@.len() - i,
    {
        let k = split_path(files[i].random_hash.as_str());
        let ghost old_keys = keys@;
        keys.push(k);
        proof {
            assert(comps(k@) == stored_key(files@[i as int]));
            assert forall|j: int| 0 <= j < i + 1 implies comps_list(keys@)[j] == stored_keys(files@).take(i + 1)[j] by {
                if j < i {
                    assert(keys@[j] == old_keys[j]);
                    assert(comps_list(old_keys)[j] == stored_keys(files@).take(i as int)[j]);
                }
            }
            assert(comps_list(keys@) =~= stored_keys(files@).take(i + 1));
        }
        i = i + 1;
    }
    proof {
        assert(stored_keys(files@).take(files@.len() as int) =~= stored_keys(files@));
    }
    keys
}

/// Whether some entry of `keys` from index `from` on is the path `key`.
fn occurs_from(keys: &Vec<Vec<String>>, from: usize, key: &Vec<String>) -> (r: bool)
    requires
        from <= keys@.len(),
    ensures
        r == exists|j: int| from <= j < keys@.len() && comps_list(keys@)[j] == comps(key@),
{
    let mut j: usize = from;
    while j < keys.len()
        invariant
            from <= j <= keys@.len(),
            forall|m: int| from <= m < j ==> comps_list(keys@)[m] != comps(key@),
        decreases keys@.len() - j,
    {
        if same_path(&keys[j], key) {
            proof {
                assert(comps_list(keys@)[j as int] == comps(key@));
            }
            return true;
        }
        j = j + 1;
    }
    false
}

/// The index of the last occurrence of each distinct path of `keys`.
fn last_occurrences(keys: &Vec<Vec<String>>) -> (idx: Vec<usize>)
    ensures
        forall|a: int|
            0 <= a < idx@.len() ==> idx@[a] < keys@.len() && is_last(comps_list(keys@), idx@[a] as int),
        forall|i: int|
            0 <= i < keys@.len() && is_last(comps_list(keys@), i) ==> idx@.contains(i as usize),
        idx@.no_duplicates(),
{
    let ghost ks = comps_list(keys@);
    let mut idx: Vec<usize> = Vec::new();
    let mut i: usize = keys.len();
    while i > 0
        invariant
            i <= keys@.len(),
            ks == comps_list(keys@),
            forall|a: int| 0 <= a < idx@.len() ==> i <= idx@[a] < keys@.len() && is_last(ks, idx@[a] as int),
            forall|m: int| i <= m < keys@.len() && is_last(ks, m) ==> idx@.contains(m as usize),
            idx@.no_duplicates(),
        decreases i,
    {
        i = i - 1;
        let later = occurs_from(keys, i + 1, &keys[i]);
        if !later {
            proof {
                assert forall|j: int| i < j < ks.len() implies ks[j] != ks[i as int] by {
                    assert(comps_list(keys@)[j] != comps(keys@[i as int]@));
                }
            }
            let ghost old_idx = idx@;
            idx.push(i);
            proof {
                assert forall|a: int, b: int|
                    0 <= a < idx@.len() && 0 <= b < idx@.len() && a != b implies idx@[a] != idx@[b] by {
                    if a < old_idx.len() && b < old_idx.len() {
                        assert(old_idx[a] != old_idx[b]);
                    }
                }
                assert forall|m: int| i <= m < keys@.len() && is_last(ks, m) implies idx@.contains(m as usize) by {
                    if m == i {
                        assert(idx@[old_idx.len() as int] == i);
                    } else {
                        let a = choose|a: int| 0 <= a < old_idx.len() && old_idx[a] == m as usize;
                        assert(idx@[a] == m as usize);
                    }
                }
            }
        } else {
            proof {
                let j = choose|j: int| i + 1 <= j < keys@.len() && comps_list(keys@)[j] == comps(keys@[i as int]@);
                assert(ks[j] == ks[i as int]);
                assert(!is_last(ks, i as int));
            }
        }
    }
    idx
}

/// Every path of `ks` has a last occurrence at or after each of its occurrences.
proof fn lemma_has_last(ks: Seq<Seq<Seq<char>>>, i: int)
    requires
        0 <= i < ks.len(),
    ensures
        exists|j: int| i <= j < ks.len() && ks[j] == ks[i] && is_last(ks, j),
    decreases ks.len() - i,
{
    if !is_last(ks, i) {
        let j = choose|j: int| i < j < ks.len() && ks[j] == ks[i];
        lemma_has_last(ks, j);
        let m = choose|m: int| j <= m < ks.len() && ks[m] == ks[j] && is_last(ks, m);
        assert(i <= m < ks.len() && ks[m] == ks[i] && is_last(ks, m));
    } else {
        assert(i <= i < ks.len() && ks[i] == ks[i] && is_last(ks, i));
    }
}

/// There are as many last occurrences as distinct paths.
proof fn lemma_last_count(ks: Seq<Seq<Seq<char>>>, idx: Seq<usize>)
    requires
        ks.len() <= usize::MAX,
        forall|a: int| 0 <= a < idx.len() ==> idx[a] < ks.len() && is_last(ks, idx[a] as int),
        forall|i: int| 0 <= i < ks.len() && is_last(ks, i) ==> idx.contains(i as usize),
        idx.no_duplicates(),
    ensures
        idx.len() == ks.to_set().len(),
{
    let l = idx.map_values(|a: usize| ks[a as int]);
    assert forall|a: int, b: int| 0 <= a < l.len() && 0 <= b < l.len() && a != b implies l[a] != l[b] by {
        let x = idx[a] as int;
        let y = idx[b] as int;
        assert(idx[a] != idx[b]);
        if x < y {
            assert(is_last(ks, x));
            assert(ks[y] != ks[x]);
        } else {
            assert(is_last(ks, y));
            assert(ks[x] != ks[y]);
        }
    }
    assert(l.no_duplicates());
    assert forall|k: Seq<Seq<char>>| l.to_set().contains(k) <==> ks.to_set().contains(k) by {
        if ks.to_set().contains(k) {
            let i = choose|i: int| 0 <= i < ks.len() && ks[i] == k;
            lemma_has_last(ks, i);
            let j = choose|j: int| i <= j < ks.len() && ks[j] == ks[i] && is_last(ks, j);
            assert(idx.contains(j as usize));
            let a = choose|a: int| 0 <= a < idx.len() && idx[a] == j as usize;
            assert(l[a] == k);
        }
        if l.to_set().contains(k) {
            let a = choose|a: int| 0 <= a < l.len() && l[a] == k;
            assert(ks[idx[a] as int] == k);
        }
    }
    assert(l.to_set() =~= ks.to_set());
    l.unique_seq_to_set();
}

/// Entries with distinct paths give a map with as many paths as entries.
proof fn lemma_entries_len(s: Seq<(Vec<String>, FileMetadata)>)
    requires
        keys_unique(s),
    ensures
        entries_map(s).dom().len() == s.len(),
{
    let k = s.map_values(|e: (Vec<String>, FileMetadata)| comps(e.0@));
    assert forall|a: int, b: int| 0 <= a < k.len() && 0 <= b < k.len() && a != b implies k[a] != k[b] by {
        if a < b {
            assert(comps(s[a].0@) != comps(s[b].0@));
        } else {
            assert(comps(s[b].0@) != comps(s[a].0@));
        }
    }
    assert forall|p: Seq<Seq<char>>| entries_map(s).dom().contains(p) <==> k.to_set().contains(p) by {
        if entries_map(s).dom().contains(p) {
            let i = choose|i: int| 0 <= i < s.len() && comps((#[trigger] s[i]).0@) == p;
            assert(k[i] == p);
        }
        if k.to_set().contains(p) {
            let i = choose|i: int| 0 <= i < k.len() && k[i] == p;
            assert(comps(s[i].0@) == p);
        }
    }
    assert(entries_map(s).dom() =~= k.to_set());
    k.unique_seq_to_set();
}

/// What a consistency check of the archive finds: how many distinct files the database and
/// the locked directory hold, the database's files missing on disk (by index, one per stored
/// path) and the files on disk that the database does not know.
pub struct ConsistencyReport {
    pub database_count: usize,
    pub fs_count: usize,
    pub missing_in_fs: Vec<usize>,
    pub missing_in_database: Vec<Vec<String>>,
    pub errors_count: usize,
}

/// Compares the files the database holds with those found in the locked directory, where
/// each file is stored under its random hash.
pub fn consistency_report(files: &Vec<File>, found: &PathFinder) -> (r: ConsistencyReport)
    requires
        found.wf(),
        files@.len() + found@.dom().len() <= usize::MAX,
    ensures
        r.database_count == stored_keys(files@).to_set().len(),
        r.fs_count == found@.dom().len(),
        forall|a: int| #![trigger r.missing_in_fs@[a]]
            0 <= a < r.missing_in_fs@.len() ==> {
                let i = r.missing_in_fs@[a] as int;
                &&& i < files@.len()
                &&& is_last(stored_keys(files@), i)
                &&& !found@.contains_key(stored_key(files@[i]))
            },
        forall|i: int|
            0 <= i < files@.len() && is_last(stored_keys(files@), i) && !found@.contains_key(
                stored_key(#[trigger] files@[i]),
            ) ==> r.missing_in_fs@.contains(i as usize),
        r.missing_in_fs@.no_duplicates(),
        forall|a: int| #![trigger comps_list(r.missing_in_database@)[a]]
            0 <= a < r.missing_in_database@.len() ==> {
                let k = comps_list(r.missing_in_database@)[a];
                found@.contains_key(k) && !stored_keys(files@).contains(k)
            },
        forall|k: Seq<Seq<char>>|
            found@.contains_key(k) && !stored_keys(files@).contains(k) ==> comps_list(
                r.missing_in_database@,
            ).contains(k),
        comps_list(r.missing_in_database@).no_duplicates(),
        r.errors_count == r.missing_in_fs@.len() + r.missing_in_database@.len(),
{
    let keys = stored_paths(files);
    let lasts = last_occurrences(&keys);
    let entries = found.metadatas();
    let ghost ks = comps_list(keys@);
    let ghost s = entries@;
    proof {
        assert(keys@.len() == ks.len() && ks.len() == files@.len());
        lemma_last_count(ks, lasts@);
        lemma_entries_len(s);
        ks.lemma_cardinality_of_set();
    }
    let mut missing_in_fs: Vec<usize> = Vec::new();
    let mut a: usize = 0;
    while a < lasts.len()
        invariant
            a <= lasts@.len(),
            ks == comps_list(keys@),
            ks == stored_keys(files@),
            keys@.len() == files@.len(),
            s == entries@,
            entries_map(s) == found@,
            forall|b: int| 0 <= b < lasts@.len() ==> lasts@[b] < keys@.len() && is_last(ks, lasts@[b] as int),
            forall|i: int| 0 <= i < keys@.len() && is_last(ks, i) ==> lasts@.contains(i as usize),
            lasts@.no_duplicates(),
            missing_in_fs@.len() <= a,
            forall|c: int| #![trigger missing_in_fs@[c]]
                0 <= c < missing_in_fs@.len() ==> {
                    let i = missing_in_fs@[c] as int;
                    &&& i < files@.len()
                    &&& is_last(ks, i)
                    &&& !found@.contains_key(ks[i])
                    &&& exists|b: int| 0 <= b < a && lasts@[b] == i as usize
                },
            forall|b: int| 0 <= b < a && !found@.contains_key(ks[lasts@[b] as int]) ==> missing_in_fs@.contains(
                #[trigger] lasts@[b],
            ),
            missing_in_fs@.no_duplicates(),
        decreases lasts@.len() - a,
    {
        let i = lasts[a];
        let present = find_key(entries, &keys[i]);
        if present.is_none() {
            proof {
                if found@.contains_key(ks[i as int]) {
                    let m = choose|m: int| 0 <= m < s.len() && comps((#[trigger] s[m]).0@) == ks[i as int];
                    assert(comps(s[m].0@) == comps(keys@[i as int]@));
                }
                assert(!found@.contains_key(ks[i as int]));
            }
            let ghost old_missing = missing_in_fs@;
            missing_in_fs.push(i);
            proof {
                assert forall|c: int, d: int|
                    0 <= c < missing_in_fs@.len() && 0 <= d < missing_in_fs@.len() && c != d
                    implies missing_in_fs@[c] != missing_in_fs@[d] by {
                    if c < old_missing.len() && d < old_missing.len() {
                        assert(old_missing[c] != old_missing[d]);
                    } else if c < old_missing.len() {
                        let b = choose|b: int| 0 <= b < a && lasts@[b] == old_missing[c];
                        assert(lasts@[b] != lasts@[a as int]);
                    } else {
                        let b = choose|b: int| 0 <= b < a && lasts@[b] == old_missing[d];
                        assert(lasts@[b] != lasts@[a as int]);
                    }
                }
                assert forall|b: int| 0 <= b < a + 1 && !found@.contains_key(ks[lasts@[b] as int])
                    implies missing_in_fs@.contains(#[trigger] lasts@[b]) by {
                    if b == a {
                        assert(missing_in_fs@[old_missing.len() as int] == lasts@[b]);
                    } else {
                        let c = choose|c: int| 0 <= c < old_missing.len() && old_missing[c] == lasts@[b];
                        assert(missing_in_fs@[c] == lasts@[b]);
                    }
                }
                assert forall|c: int| #![trigger missing_in_fs@[c]]
                    0 <= c < missing_in_fs@.len() implies {
                        let j = missing_in_fs@[c] as int;
                        &&& j < files@.len()
                        &&& is_last(ks, j)
                        &&& !found@.contains_key(ks[j])
                        &&& exists|b: int| 0 <= b < a + 1 && lasts@[b] == j as usize
                    } by {
                    if c == old_missing.len() {
                        assert(missing_in_fs@[c] == i);
                        assert(lasts@[a as int] == missing_in_fs@[c]);
                    } else {
                        assert(missing_in_fs@[c] == old_missing[c]);
                        let b = choose|b: int| 0 <= b < a && lasts@[b] == old_missing[c];
                        assert(lasts@[b] == missing_in_fs@[c]);
                    }
                }
            }
        } else {
            proof {
                let m = present.unwrap() as int;
                assert(comps((s[m]).0@) == ks[i as int]);
                assert(found@.contains_key(ks[i as int]));
            }
        }
        a = a + 1;
    }
    let mut missing_in_database: Vec<Vec<String>> = Vec::new();
    let mut m: usize = 0;
    while m < entries.len()
        invariant
            m <= s.len(),
            s == entries@,
            keys_unique(s),
            entries_map(s) == found@,
            ks == comps_list(keys@),
            ks == stored_keys(files@),
            missing_in_database@.len() <= m,
            missing_in_fs@.len() + s.len() <= usize::MAX,
            forall|c: int| #![trigger comps_list(missing_in_database@)[c]]
                0 <= c < missing_in_database@.len() ==> {
                    let k = comps_list(missing_in_database@)[c];
                    &&& found@.contains_key(k)
                    &&& !ks.contains(k)
                    &&& exists|n: int| 0 <= n < m && comps((#[trigger] s[n]).0@) == k
                },
            forall|n: int| 0 <= n < m && !ks.contains(comps((#[trigger] s[n]).0@)) ==> comps_list(
                missing_in_database@,
            ).contains(comps(s[n].0@)),
            comps_list(missing_in_database@).no_duplicates(),
        decreases s.len() - m,
    {
        let known = occurs_from(&keys, 0, &entries[m].0);
        if !known {
            let ghost key = comps(s[m as int].0@);
            let ghost old_list = comps_list(missing_in_database@);
            proof {
                assert forall|j: int| 0 <= j < ks.len() implies ks[j] != key by {}
                assert(!ks.contains(key));
                crate::fs::path_finder::lemma_entries_map_at(s, m as int);
            }
            missing_in_database.push(entries[m].0.clone());
            proof {
                let l = comps_list(missing_in_database@);
                assert(l =~= old_list.push(key));
                assert forall|c: int| 0 <= c < old_list.len() implies old_list[c] != key by {
                    assert(old_list[c] == comps_list(missing_in_database@)[c]);
                    let n = choose|n: int| 0 <= n < m && comps((#[trigger] s[n]).0@) == old_list[c];
                    assert(comps(s[n].0@) != comps(s[m as int].0@));
                }
                assert forall|c: int, d: int| 0 <= c < l.len() && 0 <= d < l.len() && c != d implies l[c] != l[d] by {
                    if c < old_list.len() && d < old_list.len() {
                        assert(old_list[c] != old_list[d]);
                    }
                }
                assert forall|c: int| #![trigger comps_list(missing_in_database@)[c]]
                    0 <= c < missing_in_database@.len() implies {
                        let k = comps_list(missing_in_database@)[c];
                        &&& found@.contains_key(k)
                        &&& !ks.contains(k)
                        &&& exists|n: int| 0 <= n < m + 1 && comps((#[trigger] s[n]).0@) == k
                    } by {
                    if c < old_list.len() {
                        assert(old_list[c] == l[c]);
                        let n = choose|n: int| 0 <= n < m && comps((#[trigger] s[n]).0@) == old_list[c];
                        assert(0 <= n < m + 1 && comps(s[n].0@) == l[c]);
                    } else {
                        assert(l[c] == key);
                        assert(0 <= m < m + 1 && comps(s[m as int].0@) == l[c]);
                    }
                }
                assert forall|n: int| 0 <= n < m + 1 && !ks.contains(comps((#[trigger] s[n]).0@)) implies l.contains(comps(s[n].0@)) by {
                    if n == m {
                        assert(l[old_list.len() as int] == key);
                    } else {
                        let c = choose|c: int| 0 <= c < old_list.len() && old_list[c] == comps(s[n].0@);
                        assert(l[c] == old_list[c]);
                    }
                }
            }
        } else {
            proof {
                let j = choose|j: int| 0 <= j < keys@.len() && comps_list(keys@)[j] == comps(s[m as int].0@);
                assert(ks.contains(comps(s[m as int].0@)));
            }
        }
        m = m + 1;
    }
    let total = missing_in_fs.len() + missing_in_database.len();
    ConsistencyReport {
        database_count: lasts.len(),
        fs_count: entries.len(),
        missing_in_fs,
        missing_in_database,
        errors_count: total,
    }
}

/// When the locked directory holds exactly the stored paths of the database's files, the
/// consistency check has nothing to report: no stored file is missing on disk, no file on
/// disk is unknown to the database, and both hold as many distinct files.
pub proof fn lemma_consistent_archive_reports_nothing(files: Seq<File>, found: Map<Seq<Seq<char>>, FileMetadata>)
    requires
        found.dom() == stored_keys(files).to_set(),
    ensures
        forall|i: int| 0 <= i < files.len() ==> found.contains_key(stored_key(#[trigger] files[i])),
        forall|k: Seq<Seq<char>>| found.contains_key(k) ==> stored_keys(files).contains(k),
        found.dom().len() == stored_keys(files).to_set().len(),
{
    assert forall|i: int| 0 <= i < files.len() implies found.contains_key(stored_key(#[trigger] files[i])) by {
        assert(stored_keys(files)[i] == stored_key(files[i]));
        assert(stored_keys(files).to_set().contains(stored_keys(files)[i]));
    }
}

/// The files that pruning deletes: each distinct stored path once, under the locked directory.
pub fn prune_targets(locked_path: &Vec<String>, files: &Vec<File>) -> (targets: Vec<Vec<String>>)
    ensures
        targets@.len() == stored_keys(files@).to_set().len(),
        comps_list(targets@).to_set() == stored_keys(files@).to_set().map(
            |k: Seq<Seq<char>>| comps(locked_path@) + k,
        ),
        comps_list(targets@).no_duplicates(),
{
    let keys = stored_paths(files);
    let lasts = last_occurrences(&keys);
    let ghost ks = comps_list(keys@);
    let ghost root = comps(locked_path@);
    proof {
        assert(keys@.len() == ks.len() && ks.len() == files@.len());
        assert(keys@.len() == keys.len());
        lemma_last_count(ks, lasts@);
    }
    let mut targets: Vec<Vec<String>> = Vec::new();
    let mut a: usize = 0;
    while a < lasts.len()
        invariant
            a <= lasts@.len(),
            ks == comps_list(keys@),
            ks == stored_keys(files@),
            keys@.len() == files@.len(),
            root == comps(locked_path@),
            forall|b: int| 0 <= b < lasts@.len() ==> lasts@[b] < keys@.len() && is_last(ks, lasts@[b] as int),
            lasts@.no_duplicates(),
            targets@.len() == a,
            forall|b: int| 0 <= b < a ==> comps(#[trigger] targets@[b]@) == root + ks[lasts@[b] as int],
        decreases lasts@.len() - a,
    {
        let t = join_components(locked_path, &keys[lasts[a]]);
        targets.push(t);
        a = a + 1;
    }
    proof {
        let l = comps_list(targets@);
        let f = |k: Seq<Seq<char>>| root + k;
        assert forall|p: Seq<Seq<char>>| l.to_set().contains(p) <==> ks.to_set().map(f).contains(p) by {
            if l.to_set().contains(p) {
                let b = choose|b: int| 0 <= b < l.len() && l[b] == p;
                let w = lasts@[b] as int;
                assert(l[b] == comps(targets@[b]@));
                assert(ks.to_set().contains(ks[w]));
                assert(p == f(ks[w]));
            }
            if ks.to_set().map(f).contains(p) {
                let k = choose|k: Seq<Seq<char>>| ks.to_set().contains(k) && p == f(k);
                let i = choose|i: int| 0 <= i < ks.len() && ks[i] == k;
                lemma_has_last(ks, i);
                let j = choose|j: int| i <= j < ks.len() && ks[j] == ks[i] && is_last(ks, j);
                let b = choose|b: int| 0 <= b < lasts@.len() && lasts@[b] == j as usize;
                assert(l[b] == comps(targets@[b]@));
                assert(l[b] == p);
            }
        }
        assert(l.to_set() =~= ks.to_set().map(f));
        assert forall|b: int, c: int| 0 <= b < l.len() && 0 <= c < l.len() && b != c implies l[b] != l[c] by {
            let x = lasts@[b] as int;
            let y = lasts@[c] as int;
            assert(lasts@[b] != lasts@[c]);
            if x < y {
                assert(is_last(ks, x));
            } else {
                assert(is_last(ks, y));
            }
            assert(ks[x] != ks[y]);
            assert(l[b] == comps(targets@[b]@));
            assert(l[c] == comps(targets@[c]@));
            if l[b] == l[c] {
                assert((root + ks[x]).skip(root.len() as int) =~= ks[x]);
                assert((root + ks[y]).skip(root.len() as int) =~= ks[y]);
            }
        }
    }
    targets
}

/// The names of `tags`, each followed by a space.
pub open spec fn tags_text(tags: Seq<Tag>) -> Seq<char>
    decreases tags.len(),
{
    if tags.len() == 0 {
        Seq::empty()
    } else {
        tags_text(tags.drop_last()) + tags.last().name@ + seq![' ']
    }
}

/// How a file's tags are listed: `(no tags)` when it has none, else each name followed by a
/// space.
pub fn tags_pretty(tags: &Vec<Tag>) -> (s: String)
    ensures
        s@ == if tags@.len() == 0 {
            "(no tags)"@
        } else {
            tags_text(tags@)
        },
{
    if tags.len() == 0 {
        return "(no tags)".to_string();
    }
    let mut s = String::new();
    let mut i: usize = 0;
    while i < tags.len()
        invariant
            i <= tags@.len(),
            s@ == tags_text(tags@.take(i as int)),
        decreases tags@.len() - i,
    {
        s.append(tags[i].name.as_str());
        s.append(" ");
        proof {
            reveal_strlit(" ");
            let t = tags@.take(i + 1);
            assert(t.drop_last() =~= tags@.take(i as int));
            assert(t.last() == tags@[i as int]);
        }
        i = i + 1;
    }
    proof {
        assert(tags@.take(tags@.len() as int) =~= tags@);
    }
    s
}

/// What `str::trim` makes of `s`.
pub uninterp spec fn trimmed(s: Seq<char>) -> Seq<char>;

/// What `str::to_lowercase` makes of `s`.
pub uninterp spec fn lowercased(s: Seq<char>) -> Seq<char>;

/// `part` is a contiguous part of `whole`.
pub open spec fn contiguous_part(part: Seq<char>, whole: Seq<char>) -> bool {
    exists|i: int, j: int| 0 <= i <= j <= whole.len() && part == whole.subrange(i, j)
}

/// Calls `str::trim`. Claimed: the result is a function of `s`, named `trimmed`, and, as the
/// documentation says (leading and trailing whitespace removed), a contiguous part of `s`.
/// Which characters count as whitespace (the Unicode `White_Space` property) is not stated.
#[verifier::external_body]
fn trim_text(s: &str) -> (r: &str)
    ensures
        r@ == trimmed(s@),
        contiguous_part(r@, s@),
{
    s.trim()
}

/// Calls `str::to_lowercase`. Claimed: the result is a function of `s`, named `lowercased`;
/// nothing more is stated.
#[verifier::external_body]
fn lowercase_text(s: &str) -> (r: String)
    ensures
        r@ == lowercased(s@),
{
    s.to_lowercase()
}

/// Whether an answer, already trimmed and in lower case, says yes: it is not empty and starts
/// with `y`.
pub fn confirms(normalized: &str) -> (r: bool)
    ensures
        r == (normalized@.len() > 0 && normalized@[0] == 'y'),
{
    normalized.unicode_len() > 0 && normalized.get_char(0) == 'y'
}

/// Whether an answer to a yes/no question says yes, once trimmed and put in lower case.
pub fn is_confirmed(answer: &str) -> (r: bool)
    ensures
        r == (lowercased(trimmed(answer@)).len() > 0 && lowercased(trimmed(answer@))[0] == 'y'),
{
    let trimmed_answer = trim_text(answer);
    let normalized = lowercase_text(trimmed_answer);
    confirms(normalized.as_str())
}

/// What byte_unit shows for `bytes` in its most fitting decimal unit.
pub uninterp spec fn appropriate_unit_text(bytes: u64) -> Seq<char>;

/// Calls `Byte::from_bytes` and `Byte::get_appropriate_unit` with decimal multiples
/// (byte_unit), then `to_string` on the result. Claimed: the text is a function of `bytes`,
/// named `appropriate_unit_text`; and, as the source shows, up to 1000 bytes the unit is `B`
/// and the count is written in full: its decimal digits followed by ` B`.
#[verifier::external_body]
fn appropriate_unit(bytes: u64) -> (s: String)
    ensures
        s@ == appropriate_unit_text(bytes),
        bytes <= 1000 ==> s@ == decimal(bytes as nat) + " B"@,
{
    byte_unit::Byte::from_bytes(bytes as u128).get_appropriate_unit(false).to_string()
}

/// The archive's status: how many files the database holds and the archive's size in its most
/// fitting unit, on two lines.
pub fn status_text(archive_count: i64, archive_size: u64) -> (s: String)
    ensures
        s@ == "Files stored in database: "@ + signed_decimal(archive_count as int) + "\nArchive size: "@
            + appropriate_unit_text(archive_size),
{
    let mut s = "Files stored in database: ".to_string();
    let count = signed_decimal_string(archive_count);
    s.append(count.as_str());
    s.append("\nArchive size: ");
    let size = appropriate_unit(archive_size);
    s.append(size.as_str());
    s
}

} // verus!
