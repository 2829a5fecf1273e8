use indexmap::IndexSet;
use itertools::Itertools;
use vstd::prelude::*;

use crate::fs::path::{path_components, split_path, take_components};
use crate::fs::order::{comps, comps_list, name_lt, path_lt, strictly_sorted, dirs_sorted, dir_lt};

verus! {

/// The kind of a path inside the tree.
pub enum PathType {
    /// A directory and its children, each name at most once.
    Directory(Vec<PathEntry>),
    File,
}

/// A named child of a directory.
pub struct PathEntry {
    pub name: String,
    pub kind: PathType,
}

/// `node` holds a file at the relative path `p`.
pub open spec fn has_file(node: PathType, p: Seq<Seq<char>>) -> bool
    decreases p.len(), 1nat,
{
    match node {
        PathType::File => p.len() == 0,
        PathType::Directory(entries) => has_file_in(entries@, p),
    }
}

/// The children `entries` of a directory hold a file at the relative path `p`.
pub open spec fn has_file_in(entries: Seq<PathEntry>, p: Seq<Seq<char>>) -> bool
    decreases p.len(), 0nat,
{
    p.len() > 0 && exists|i: int|
        0 <= i < entries.len() && (#[trigger] entries[i]).name@ == p[0] && has_file(
            entries[i].kind,
            p.drop_first(),
        )
}

/// Names are unique among siblings, every directory below the root has a child,
/// and the same holds further down.
pub open spec fn wf_node(node: PathType) -> bool
    decreases node,
{
    match node {
        PathType::File => true,
        PathType::Directory(entries) => {
            &&& forall|i: int, j: int|
                0 <= i < j < entries@.len() ==> (#[trigger] entries@[i]).name@ != (
                #[trigger] entries@[j]).name@
            &&& forall|i: int|
                0 <= i < entries@.len() ==> wf_node(#[trigger] entries@[i].kind) && (
                entries@[i].kind matches PathType::Directory(sub) ==> sub@.len() > 0)
        },
    }
}

/// `wf_node` for the children of a directory.
pub open spec fn wf_entries(entries: Seq<PathEntry>) -> bool {
    &&& forall|i: int, j: int|
        0 <= i < j < entries.len() ==> (#[trigger] entries[i]).name@ != (
        #[trigger] entries[j]).name@
    &&& forall|i: int|
        0 <= i < entries.len() ==> wf_node(#[trigger] entries[i].kind) && (
        entries[i].kind matches PathType::Directory(sub) ==> sub@.len() > 0)
}

/// The files below a directory whose children are `entries`.
pub open spec fn files_in(entries: Seq<PathEntry>) -> Set<Seq<Seq<char>>> {
    Set::new(|p: Seq<Seq<char>>| has_file_in(entries, p))
}

/// `q` is a prefix of `f` (possibly `f` itself).
pub open spec fn is_prefix(q: Seq<Seq<char>>, f: Seq<Seq<char>>) -> bool {
    q.len() <= f.len() && f.take(q.len() as int) == q
}

/// Inserting `p` into a tree whose files are `files` does not run into a file:
/// no non-empty prefix of `p`, `p` included, is a file already.
pub open spec fn insertable(files: Set<Seq<Seq<char>>>, p: Seq<Seq<char>>) -> bool {
    forall|l: int| 1 <= l <= p.len() ==> !files.contains(#[trigger] p.take(l))
}

/// Inserting `p` adds it as a file: it is not empty and no file lies at or below it.
pub open spec fn adds_file(files: Set<Seq<Seq<char>>>, p: Seq<Seq<char>>) -> bool {
    p.len() > 0 && !exists|f: Seq<Seq<char>>| #[trigger] files.contains(f) && is_prefix(p, f)
}

/// The files after inserting `p` into a tree whose files are `files`.
pub open spec fn after_insert(files: Set<Seq<Seq<char>>>, p: Seq<Seq<char>>) -> Set<
    Seq<Seq<char>>,
> {
    if adds_file(files, p) {
        files.insert(p)
    } else {
        files
    }
}

/// The directories of a tree whose files are `files`: every non-empty proper prefix of a file.
pub open spec fn dirs_of(files: Set<Seq<Seq<char>>>, q: Seq<Seq<char>>) -> bool {
    q.len() > 0 && exists|f: Seq<Seq<char>>|
        #[trigger] files.contains(f) && q.len() < f.len() && f.take(q.len() as int) == q
}

/// A well-formed directory with at least one child holds at least one file.
proof fn lemma_nonempty_has_file(entries: Seq<PathEntry>) -> (f: Seq<Seq<char>>)
    requires
        wf_entries(entries),
        entries.len() > 0,
    ensures
        has_file_in(entries, f),
    decreases entries,
{
    let e = entries[0];
    match e.kind {
        PathType::File => {
            let f = seq![e.name@];
            assert(f.drop_first() =~= Seq::<Seq<char>>::empty());
            f
        },
        PathType::Directory(sub) => {
            assert(decreases_to!(entries => sub@)) by {
                assert(decreases_to!(entries => entries[0]));
                assert(decreases_to!(entries[0] => entries[0].kind));
                assert(decreases_to!(entries[0].kind => sub));
                assert(decreases_to!(sub => sub@));
            }
            let g = lemma_nonempty_has_file(sub@);
            let f = seq![e.name@] + g;
            assert(f.drop_first() =~= g);
            assert(entries[0] == e);
            f
        },
    }
}

/// Look up the child named `name`.
fn find_entry(entries: &Vec<PathEntry>, name: &String) -> (r: Option<usize>)
    ensures
        match r {
            Some(k) => k < entries@.len() && entries@[k as int].name@ == name@,
            None => forall|k: int| 0 <= k < entries@.len() ==> entries@[k].name@ != name@,
        },
{
    let mut i: usize = 0;
    while i < entries.len()
        invariant
            i <= entries@.len(),
            forall|k: int| 0 <= k < i ==> entries@[k].name@ != name@,
        decreases entries@.len() - i,
    {
        if entries[i].name == *name {
            return Some(i);
        }
        i = i + 1;
    }
    None
}


/// Among siblings with unique names, a path under the child named `p[0]` is found there only.
proof fn lemma_file_under_child(entries: Seq<PathEntry>, k: int, p: Seq<Seq<char>>)
    requires
        wf_entries(entries),
        0 <= k < entries.len(),
        p.len() > 0,
        p[0] == entries[k].name@,
    ensures
        has_file_in(entries, p) <==> has_file(entries[k].kind, p.drop_first()),
{
    if has_file_in(entries, p) {
        let i = choose|i: int|
            0 <= i < entries.len() && (#[trigger] entries[i]).name@ == p[0] && has_file(
                entries[i].kind,
                p.drop_first(),
            );
        if i != k {
            if i < k {
                assert(entries[i].name@ != entries[k].name@);
            } else {
                assert(entries[k].name@ != entries[i].name@);
            }
        }
    }
    if has_file(entries[k].kind, p.drop_first()) {
        assert(entries[k].name@ == p[0]);
    }
}

/// Replacing the child at `k` by one of the same name changes only the files below that name.
proof fn lemma_replace_child(entries: Seq<PathEntry>, k: int, x: PathEntry, p: Seq<Seq<char>>)
    requires
        wf_entries(entries),
        0 <= k < entries.len(),
        x.name@ == entries[k].name@,
    ensures
        p.len() > 0 && p[0] == x.name@ ==> (has_file_in(entries.update(k, x), p) <==> has_file(
            x.kind,
            p.drop_first(),
        )),
        !(p.len() > 0 && p[0] == x.name@) ==> (has_file_in(entries.update(k, x), p)
            <==> has_file_in(entries, p)),
{
    let e2 = entries.update(k, x);
    if p.len() > 0 && p[0] == x.name@ {
        if has_file_in(e2, p) {
            let i = choose|i: int|
                0 <= i < e2.len() && (#[trigger] e2[i]).name@ == p[0] && has_file(
                    e2[i].kind,
                    p.drop_first(),
                );
            if i != k {
                assert(e2[i] == entries[i]);
                if i < k {
                    assert(entries[i].name@ != entries[k].name@);
                } else {
                    assert(entries[k].name@ != entries[i].name@);
                }
            }
        }
        if has_file(x.kind, p.drop_first()) {
            assert(e2[k] == x);
        }
    } else {
        if has_file_in(e2, p) {
            let i = choose|i: int|
                0 <= i < e2.len() && (#[trigger] e2[i]).name@ == p[0] && has_file(
                    e2[i].kind,
                    p.drop_first(),
                );
            assert(i != k);
            assert(e2[i] == entries[i]);
        }
        if has_file_in(entries, p) {
            let i = choose|i: int|
                0 <= i < entries.len() && (#[trigger] entries[i]).name@ == p[0] && has_file(
                    entries[i].kind,
                    p.drop_first(),
                );
            assert(i != k);
            assert(e2[i] == entries[i]);
        }
    }
}

/// Adding a child under a new name adds exactly the files below it.
proof fn lemma_push_child(entries: Seq<PathEntry>, x: PathEntry, p: Seq<Seq<char>>)
    ensures
        has_file_in(entries.push(x), p) <==> (has_file_in(entries, p) || (p.len() > 0 && p[0]
            == x.name@ && has_file(x.kind, p.drop_first()))),
{
    let e2 = entries.push(x);
    if has_file_in(e2, p) {
        let i = choose|i: int|
            0 <= i < e2.len() && (#[trigger] e2[i]).name@ == p[0] && has_file(
                e2[i].kind,
                p.drop_first(),
            );
        if i < entries.len() {
            assert(e2[i] == entries[i]);
        }
    }
    if has_file_in(entries, p) {
        let i = choose|i: int|
            0 <= i < entries.len() && (#[trigger] entries[i]).name@ == p[0] && has_file(
                entries[i].kind,
                p.drop_first(),
            );
        assert(e2[i] == entries[i]);
    }
    if p.len() > 0 && p[0] == x.name@ && has_file(x.kind, p.drop_first()) {
        assert(e2[entries.len() as int] == x);
    }
}

/// No file lies below a name that no child has.
proof fn lemma_no_file_under_absent(entries: Seq<PathEntry>, p: Seq<Seq<char>>)
    requires
        p.len() > 0,
        forall|k: int| 0 <= k < entries.len() ==> entries[k].name@ != p[0],
    ensures
        !has_file_in(entries, p),
{
}

/// A directory without children holds no file.
proof fn lemma_empty_files(entries: Seq<PathEntry>)
    requires
        entries.len() == 0,
    ensures
        files_in(entries) == Set::<Seq<Seq<char>>>::empty(),
{
    assert(files_in(entries) =~= Set::<Seq<Seq<char>>>::empty());
}

/// Inserting below an existing child directory.
proof fn lemma_insert_below_child(
    entries: Seq<PathEntry>,
    k: int,
    x: PathEntry,
    sub_old: Seq<PathEntry>,
    sub_new: Seq<PathEntry>,
    rest: Seq<Seq<char>>,
)
    requires
        wf_entries(entries),
        0 <= k < entries.len(),
        entries[k].kind matches PathType::Directory(v) && v@ == sub_old,
        x.name@ == entries[k].name@,
        x.kind matches PathType::Directory(w) && w@ == sub_new,
        rest.len() > 0,
        rest[0] == x.name@,
        files_in(sub_new) == after_insert(files_in(sub_old), rest.drop_first()),
    ensures
        files_in(entries.update(k, x)) == after_insert(files_in(entries), rest),
{
    let e2 = entries.update(k, x);
    let n = x.name@;
    let rest1 = rest.drop_first();
    assert(wf_node(entries[k].kind));
    assert(sub_old.len() > 0);
    let adds_here = adds_file(files_in(entries), rest);
    let adds_below = adds_file(files_in(sub_old), rest1);
    assert(adds_here == adds_below) by {
        if rest1.len() == 0 {
            let g = lemma_nonempty_has_file(sub_old);
            let f = seq![n] + g;
            assert(f.drop_first() =~= g);
            lemma_file_under_child(entries, k, f);
            assert(files_in(entries).contains(f));
            assert(f.take(1) =~= rest);
            assert(is_prefix(rest, f));
        } else {
            if !adds_here {
                let f = choose|f: Seq<Seq<char>>|
                    #[trigger] files_in(entries).contains(f) && is_prefix(rest, f);
                assert(f[0] == f.take(rest.len() as int)[0]);
                lemma_file_under_child(entries, k, f);
                let g = f.drop_first();
                assert(files_in(sub_old).contains(g));
                assert(g.take(rest1.len() as int) =~= f.take(rest.len() as int).drop_first());
                assert(is_prefix(rest1, g));
            }
            if !adds_below {
                let g = choose|g: Seq<Seq<char>>|
                    #[trigger] files_in(sub_old).contains(g) && is_prefix(rest1, g);
                let f = seq![n] + g;
                assert(f.drop_first() =~= g);
                lemma_file_under_child(entries, k, f);
                assert(files_in(entries).contains(f));
                assert(f.take(rest.len() as int) =~= seq![n] + g.take(rest1.len() as int));
                assert(rest =~= seq![rest[0]] + rest1);
                assert(is_prefix(rest, f));
            }
        }
    }
    assert forall|p: Seq<Seq<char>>|
        files_in(e2).contains(p) <==> after_insert(files_in(entries), rest).contains(p) by {
        lemma_replace_child(entries, k, x, p);
        if p.len() > 0 && p[0] == n {
            lemma_file_under_child(entries, k, p);
            assert(has_file(x.kind, p.drop_first()) == has_file_in(sub_new, p.drop_first()));
            assert(has_file(entries[k].kind, p.drop_first()) == has_file_in(
                sub_old,
                p.drop_first(),
            ));
            assert(p == rest <==> p.drop_first() == rest1) by {
                if p.drop_first() == rest1 {
                    assert(p =~= seq![p[0]] + p.drop_first());
                    assert(rest =~= seq![rest[0]] + rest1);
                }
            }
            assert(files_in(e2).contains(p) == has_file_in(e2, p));
            assert(files_in(entries).contains(p) == has_file_in(entries, p));
            assert(files_in(sub_new).contains(p.drop_first()) == has_file_in(sub_new, p.drop_first()));
            assert(files_in(sub_old).contains(p.drop_first()) == has_file_in(sub_old, p.drop_first()));
            assert(after_insert(files_in(sub_old), rest1).contains(p.drop_first()) == (files_in(sub_old).contains(p.drop_first()) || (adds_below && p.drop_first() == rest1)));
            assert(after_insert(files_in(entries), rest).contains(p) == (files_in(entries).contains(p) || (adds_here && p == rest)));
        } else {
            assert(files_in(e2).contains(p) == has_file_in(e2, p));
            assert(files_in(entries).contains(p) == has_file_in(entries, p));
            assert(p != rest);
        }
    }
    assert(files_in(e2) =~= after_insert(files_in(entries), rest));
}

/// Insert `path[i..]` below the directory whose children are `entries`.
fn insert_at(entries: &mut Vec<PathEntry>, path: &Vec<String>, i: usize)
    requires
        wf_entries(old(entries)@),
        i <= path@.len(),
        insertable(files_in(old(entries)@), comps(path@).skip(i as int)),
    ensures
        wf_entries(final(entries)@),
        files_in(final(entries)@) == after_insert(
            files_in(old(entries)@),
            comps(path@).skip(i as int),
        ),
        final(entries)@.len() >= old(entries)@.len(),
        i < path@.len() ==> final(entries)@.len() > 0,
    decreases path@.len() - i,
{
    let ghost rest = comps(path@).skip(i as int);
    let ghost old_e = entries@;
    if i >= path.len() {
        assert(!adds_file(files_in(old_e), rest));
        return ;
    }
    let ghost rest1 = comps(path@).skip(i + 1);
    proof {
        assert(rest1 =~= rest.drop_first());
        assert(rest[0] == path@[i as int]@);
    }
    let piece = path[i].clone();
    match find_entry(entries, &piece) {
        Some(k) => {
            let is_dir = match &entries[k].kind {
                PathType::Directory(_) => true,
                PathType::File => false,
            };
            if !is_dir {
                proof {
                    let one = rest.take(1);
                    assert(one.drop_first() =~= Seq::<Seq<char>>::empty());
                    lemma_file_under_child(old_e, k as int, one);
                    assert(files_in(old_e).contains(one));
                }
                return ;
            }
            let entry = entries.remove(k);
            let PathEntry { name, kind } = entry;
            match kind {
                PathType::Directory(mut sub) => {
                    let ghost sub_old = sub@;
                    proof {
                        assert(old_e[k as int].kind matches PathType::Directory(v) && v@ == sub_old);
                        assert(wf_node(old_e[k as int].kind));
                        assert forall|l: int| 1 <= l <= rest1.len() implies !files_in(
                            sub_old,
                        ).contains(#[trigger] rest1.take(l)) by {
                            let q = rest.take(l + 1);
                            assert(!files_in(old_e).contains(q));
                            assert(q.drop_first() =~= rest1.take(l));
                            lemma_file_under_child(old_e, k as int, q);
                        }
                    }
                    insert_at(&mut sub, path, i + 1);
                    let ghost sub_new = sub@;
                    let x = PathEntry { name, kind: PathType::Directory(sub) };
                    entries.insert(k, x);
                    proof {
                        assert(entries@ =~= old_e.update(k as int, x));
                        lemma_insert_below_child(old_e, k as int, x, sub_old, sub_new, rest);
                        assert(wf_entries(entries@)) by {
                            assert forall|a: int, b: int|
                                0 <= a < b < entries@.len() implies (#[trigger] entries@[a]).name@
                                != (#[trigger] entries@[b]).name@ by {
                                assert(old_e[a].name@ != old_e[b].name@);
                            }
                            assert(sub_new.len() > 0);
                            assert(wf_node(x.kind));
                        }
                    }
                },
                PathType::File => {
                    proof {
                        assert(false);
                    }
                },
            }
        },
        None => {
            if i + 1 == path.len() {
                let x = PathEntry { name: piece, kind: PathType::File };
                entries.push(x);
                proof {
                    assert(rest.len() == 1);
                    assert(!adds_file(files_in(old_e), rest) ==> false) by {
                        if !adds_file(files_in(old_e), rest) {
                            let f = choose|f: Seq<Seq<char>>|
                                #[trigger] files_in(old_e).contains(f) && is_prefix(rest, f);
                            assert(f[0] == f.take(1)[0]);
                            lemma_no_file_under_absent(old_e, f);
                        }
                    }
                    assert forall|p: Seq<Seq<char>>|
                        files_in(entries@).contains(p) <==> files_in(old_e).insert(rest).contains(
                            p,
                        ) by {
                        lemma_push_child(old_e, x, p);
                        if p.len() > 0 && p[0] == x.name@ && p.drop_first().len() == 0 {
                            assert(p =~= rest);
                        }
                        if p == rest {
                            assert(p.drop_first() =~= Seq::<Seq<char>>::empty());
                        }
                    }
                    assert(files_in(entries@) =~= files_in(old_e).insert(rest));
                }
            } else {
                let mut sub: Vec<PathEntry> = Vec::new();
                proof {
                    lemma_empty_files(sub@);
                }
                insert_at(&mut sub, path, i + 1);
                let ghost sub_new = sub@;
                let x = PathEntry { name: piece, kind: PathType::Directory(sub) };
                entries.push(x);
                proof {
                    assert(rest1.len() > 0);
                    assert(adds_file(Set::<Seq<Seq<char>>>::empty(), rest1));
                    assert(files_in(sub_new) == Set::<Seq<Seq<char>>>::empty().insert(rest1));
                    assert(!adds_file(files_in(old_e), rest) ==> false) by {
                        if !adds_file(files_in(old_e), rest) {
                            let f = choose|f: Seq<Seq<char>>|
                                #[trigger] files_in(old_e).contains(f) && is_prefix(rest, f);
                            assert(f[0] == f.take(rest.len() as int)[0]);
                            lemma_no_file_under_absent(old_e, f);
                        }
                    }
                    assert forall|p: Seq<Seq<char>>|
                        files_in(entries@).contains(p) <==> files_in(old_e).insert(rest).contains(
                            p,
                        ) by {
                        lemma_push_child(old_e, x, p);
                        if p.len() > 0 && p[0] == x.name@ {
                            assert(has_file(x.kind, p.drop_first()) == files_in(sub_new).contains(
                                p.drop_first(),
                            ));
                            if p.drop_first() == rest1 {
                                assert(p =~= seq![p[0]] + p.drop_first());
                                assert(rest =~= seq![rest[0]] + rest1);
                            }
                        }
                    }
                    assert(files_in(entries@) =~= files_in(old_e).insert(rest));
                    assert(wf_entries(entries@)) by {
                        assert forall|a: int, b: int|
                            0 <= a < b < entries@.len() implies (#[trigger] entries@[a]).name@
                            != (#[trigger] entries@[b]).name@ by {
                            if b < old_e.len() {
                                assert(old_e[a].name@ != old_e[b].name@);
                            } else {
                                assert(entries@[b] == x);
                                assert(entries@[a] == old_e[a]);
                            }
                        }
                        assert(wf_node(x.kind));
                    }
                }
            }
        },
    }
}


/// Calls `Itertools::sorted_by_key` (itertools) on the indices of `names`, keyed by the name.
/// Claimed: every index below `names.len()` comes out exactly once, and the names of the
/// indices, in the order they come out, never decrease. `String` compares by bytes, which on
/// UTF-8 text is the code point order of `name_lt`.
#[verifier::external_body]
fn sorted_by_name(names: &Vec<String>) -> (order: Vec<usize>)
    ensures
        order@.len() == names@.len(),
        forall|a: int| 0 <= a < order@.len() ==> order@[a] < names@.len(),
        forall|a: int, b: int| 0 <= a < b < order@.len() ==> order@[a] != order@[b],
        forall|k: usize| k < names@.len() ==> #[trigger] order@.contains(k),
        forall|a: int, b: int|
            0 <= a < b < order@.len() ==> !name_lt(
                names@[order@[b] as int]@,
                names@[order@[a] as int]@,
            ),
{
    (0..names.len()).sorted_by_key(|i| &names[*i]).collect()
}

/// `block` lists, in strictly increasing order, the full paths `cur + p` of the files `p` of `node`.
pub open spec fn lists_files_of(block: Seq<Seq<Seq<char>>>, cur: Seq<Seq<char>>, node: PathType) -> bool {
    &&& strictly_sorted(block)
    &&& forall|i: int|
        0 <= i < block.len() ==> is_prefix(cur, #[trigger] block[i]) && has_file(
            node,
            block[i].skip(cur.len() as int),
        )
    &&& forall|p: Seq<Seq<char>>| has_file(node, p) ==> block.contains(#[trigger] (cur + p))
}

/// The names of the children, in order.
fn entry_names(entries: &Vec<PathEntry>) -> (names: Vec<String>)
    ensures
        names@.len() == entries@.len(),
        forall|i: int| 0 <= i < names@.len() ==> (#[trigger] names@[i])@ == entries@[i].name@,
{
    let mut names: Vec<String> = Vec::new();
    let mut i: usize = 0;
    while i < entries.len()
        invariant
            i <= entries@.len(),
            names@.len() == i,
            forall|j: int| 0 <= j < i ==> (#[trigger] names@[j])@ == entries@[j].name@,
        decreases entries@.len() - i,
    {
        names.push(entries[i].name.clone());
        i = i + 1;
    }
    names
}

/// `cur` followed by `name`.
fn child_path(cur: &Vec<String>, name: &String) -> (r: Vec<String>)
    ensures
        comps(r@) == comps(cur@).push(name@),
{
    let mut r = cur.clone();
    proof {
        assert(r@ =~= cur@);
    }
    r.push(name.clone());
    proof {
        assert(comps(r@) =~= comps(cur@).push(name@));
    }
    r
}

/// Fully traverse `item`, appending the full path of each of its files to `output` in
/// increasing order; `current_path` is the path of `item` itself.
fn traverse_paths_ordered(item: &PathType, current_path: Vec<String>, output: &mut Vec<Vec<String>>)
    requires
        wf_node(*item),
    ensures
        final(output)@.len() >= old(output)@.len(),
        final(output)@.subrange(0, old(output)@.len() as int) == old(output)@,
        lists_files_of(
            comps_list(final(output)@.skip(old(output)@.len() as int)),
            comps(current_path@),
            *item,
        ),
    decreases item,
{
    let ghost base = output@.len() as int;
    let ghost cur = comps(current_path@);
    match item {
        PathType::Directory(entries) => {
            let names = entry_names(entries);
            let order = sorted_by_name(&names);
            let mut j: usize = 0;
            while j < order.len()
                invariant
                    wf_node(*item),
                    *item == PathType::Directory(*entries),
                    cur == comps(current_path@),
                    names@.len() == entries@.len(),
                    forall|i: int| 0 <= i < names@.len() ==> (#[trigger] names@[i])@ == entries@[i].name@,
                    order@.len() == names@.len(),
                    forall|a: int| 0 <= a < order@.len() ==> order@[a] < names@.len(),
                    forall|a: int, b: int| 0 <= a < b < order@.len() ==> order@[a] != order@[b],
                    forall|k: usize| k < names@.len() ==> #[trigger] order@.contains(k),
                    forall|a: int, b: int|
                        0 <= a < b < order@.len() ==> !name_lt(
                            names@[order@[b] as int]@,
                            names@[order@[a] as int]@,
                        ),
                    j <= order@.len(),
                    base == old(output)@.len(),
                    output@.len() >= base,
                    output@.subrange(0, base) == old(output)@,
                    strictly_sorted(comps_list(output@.skip(base))),
                    forall|i: int|
                        0 <= i < comps_list(output@.skip(base)).len() ==> {
                            let x = #[trigger] comps_list(output@.skip(base))[i];
                            &&& is_prefix(cur, x)
                            &&& x.len() > cur.len()
                            &&& has_file(*item, x.skip(cur.len() as int))
                            &&& forall|b: int| j <= b < order@.len() ==> name_lt(x[cur.len() as int], #[trigger] names@[order@[b] as int]@)
                        },
                    forall|a: int, p: Seq<Seq<char>>|
                        0 <= a < j && has_file(entries@[order@[a] as int].kind, p)
                            ==> #[trigger] comps_list(output@.skip(base)).contains(cur.push(names@[order@[a] as int]@) + p),
                decreases order@.len() - j,
            {
                let k = order[j];
                let ghost before = output@;
                let cp = child_path(&current_path, &names[k]);
                proof {
                    assert(wf_node(entries@[k as int].kind));
                    assert(decreases_to!(*item => entries@[k as int].kind)) by {
                        assert(decreases_to!(*item => *entries));
                        assert(decreases_to!(*entries => entries@));
                        assert(decreases_to!(entries@ => entries@[k as int]));
                        assert(decreases_to!(entries@[k as int] => entries@[k as int].kind));
                    }
                }
                traverse_paths_ordered(&entries[k].kind, cp, output);
                proof {
                    let ccur = cur.push(names@[k as int]@);
                    let block = comps_list(output@.skip(before.len() as int));
                    let sold = comps_list(before.skip(base));
                    let snew = comps_list(output@.skip(base));
                    assert(before.len() >= base);
                    assert(output@.len() >= before.len());
                    assert(output@.subrange(0, before.len() as int) == before);
                    assert forall|i: int| 0 <= i < before.len() implies output@[i] == before[i] by {
                        assert(output@.subrange(0, before.len() as int)[i] == output@[i]);
                    }
                    assert(output@.skip(base) =~= before.skip(base) + output@.skip(before.len() as int)) by {
                        assert(output@.subrange(0, before.len() as int) == before);
                    }
                    assert(snew =~= sold + block);
                    assert(output@.subrange(0, base) =~= before.subrange(0, base)) by {
                        assert(output@.subrange(0, before.len() as int) == before);
                    }
                    // facts on the new block
                    assert forall|i: int| 0 <= i < block.len() implies {
                        let y = #[trigger] block[i];
                        &&& is_prefix(cur, y)
                        &&& y.len() > cur.len()
                        &&& y[cur.len() as int] == names@[k as int]@
                        &&& has_file(*item, y.skip(cur.len() as int))
                    } by {
                        let y = block[i];
                        assert(is_prefix(ccur, y));
                        assert(y.take(cur.len() as int) =~= ccur.take(cur.len() as int));
                        assert(ccur.take(cur.len() as int) =~= cur);
                        assert(y[cur.len() as int] == y.take(ccur.len() as int)[cur.len() as int]);
                        let q = y.skip(cur.len() as int);
                        assert(q.drop_first() =~= y.skip(ccur.len() as int));
                        assert(q[0] == entries@[k as int].name@);
                        assert(has_file(entries@[k as int].kind, q.drop_first()));
                        assert(has_file_in(entries@, q));
                    }
                    // order of the names
                    assert forall|b: int| j < b < order@.len() implies name_lt(names@[k as int]@, #[trigger] names@[order@[b] as int]@) by {
                        assert(!name_lt(names@[order@[b] as int]@, names@[k as int]@));
                        assert(order@[b] != order@[j as int]);
                        let kb = order@[b] as int;
                        if names@[kb]@ == names@[k as int]@ {
                            if kb < k {
                                assert(entries@[kb].name@ != entries@[k as int].name@);
                            } else {
                                assert(entries@[k as int].name@ != entries@[kb].name@);
                            }
                        }
                        crate::fs::order::lemma_name_lt_total(names@[k as int]@, names@[kb]@);
                    }
                    // sortedness across the old part and the block
                    assert forall|a: int, b: int| 0 <= a < b < snew.len() implies path_lt(#[trigger] snew[a], #[trigger] snew[b]) by {
                        if b < sold.len() {
                            assert(snew[a] == sold[a]);
                            assert(snew[b] == sold[b]);
                        } else if a >= sold.len() {
                            assert(snew[a] == block[a - sold.len()]);
                            assert(snew[b] == block[b - sold.len()]);
                        } else {
                            let x = snew[a];
                            let y = snew[b];
                            assert(x == sold[a]);
                            assert(y == block[b - sold.len()]);
                            assert(name_lt(x[cur.len() as int], names@[order@[j as int] as int]@));
                            assert(x.take(cur.len() as int) == y.take(cur.len() as int));
                            crate::fs::order::lemma_path_lt_at(x, y, cur.len() as int);
                        }
                    }
                    assert forall|i: int| 0 <= i < snew.len() implies {
                            let x = #[trigger] snew[i];
                            &&& is_prefix(cur, x)
                            &&& x.len() > cur.len()
                            &&& has_file(*item, x.skip(cur.len() as int))
                            &&& forall|b: int| j + 1 <= b < order@.len() ==> name_lt(x[cur.len() as int], #[trigger] names@[order@[b] as int]@)
                        } by {
                        if i < sold.len() {
                            assert(snew[i] == sold[i]);
                        } else {
                            assert(snew[i] == block[i - sold.len()]);
                        }
                    }
                    assert forall|a: int, p: Seq<Seq<char>>|
                        0 <= a < j + 1 && has_file(entries@[order@[a] as int].kind, p)
                            implies #[trigger] snew.contains(cur.push(names@[order@[a] as int]@) + p) by {
                        if a < j {
                            assert(sold.contains(cur.push(names@[order@[a] as int]@) + p));
                            let w = choose|w: int| 0 <= w < sold.len() && sold[w] == cur.push(names@[order@[a] as int]@) + p;
                            assert(snew[w] == sold[w]);
                        } else {
                            assert(block.contains(ccur + p));
                            let w = choose|w: int| 0 <= w < block.len() && block[w] == ccur + p;
                            assert(snew[sold.len() + w] == block[w]);
                        }
                    }
                }
                j = j + 1;
            }
            proof {
                let snew = comps_list(output@.skip(base));
                assert forall|p: Seq<Seq<char>>| has_file(*item, p) implies snew.contains(#[trigger] (cur + p)) by {
                    let k = choose|k: int| 0 <= k < entries@.len() && (#[trigger] entries@[k]).name@ == p[0] && has_file(entries@[k].kind, p.drop_first());
                    assert(order@.contains(k as usize));
                    let a = choose|a: int| 0 <= a < order@.len() && order@[a] == k as usize;
                    assert(has_file(entries@[order@[a] as int].kind, p.drop_first()));
                    assert(snew.contains(cur.push(names@[order@[a] as int]@) + p.drop_first()));
                    assert(cur.push(names@[order@[a] as int]@) + p.drop_first() =~= cur + p);
                }
            }
        },
        PathType::File => {
            output.push(current_path);
            proof {
                let block = comps_list(output@.skip(base));
                assert(block =~= seq![cur]);
                assert(cur.take(cur.len() as int) =~= cur);
                assert(cur.skip(cur.len() as int) =~= Seq::<Seq<char>>::empty());
                assert forall|p: Seq<Seq<char>>| has_file(*item, p) implies block.contains(#[trigger] (cur + p)) by {
                    assert(cur + p =~= cur);
                    assert(block[0] == cur);
                }
                assert(output@.subrange(0, base) =~= old(output)@);
            }
        },
    }
}


/// Whether inserting `path[i..]` below the directory whose children are `entries` runs into
/// no file.
fn can_insert_at(entries: &Vec<PathEntry>, path: &Vec<String>, i: usize) -> (r: bool)
    requires
        wf_entries(entries@),
        i <= path@.len(),
    ensures
        r == insertable(files_in(entries@), comps(path@).skip(i as int)),
    decreases path@.len() - i,
{
    let ghost rest = comps(path@).skip(i as int);
    if i >= path.len() {
        return true;
    }
    let ghost rest1 = comps(path@).skip(i + 1);
    proof {
        assert(rest1 =~= rest.drop_first());
        assert(rest[0] == path@[i as int]@);
    }
    match find_entry(entries, &path[i]) {
        None => {
            proof {
                assert forall|l: int| 1 <= l <= rest.len() implies !files_in(entries@).contains(
                    #[trigger] rest.take(l),
                ) by {
                    assert(rest.take(l)[0] == rest[0]);
                    lemma_no_file_under_absent(entries@, rest.take(l));
                }
            }
            true
        },
        Some(k) => {
            match &entries[k].kind {
                PathType::File => {
                    proof {
                        let one = rest.take(1);
                        assert(one.drop_first() =~= Seq::<Seq<char>>::empty());
                        lemma_file_under_child(entries@, k as int, one);
                        assert(files_in(entries@).contains(one));
                    }
                    false
                },
                PathType::Directory(sub) => {
                    proof {
                        assert(decreases_to!(entries@[k as int].kind => *sub));
                        assert(wf_node(entries@[k as int].kind));
                    }
                    let r = can_insert_at(sub, path, i + 1);
                    proof {
                        assert forall|l: int| 1 <= l <= rest.len() implies (files_in(entries@).contains(
                            #[trigger] rest.take(l),
                        ) <==> (l >= 2 && files_in(sub@).contains(rest1.take(l - 1)))) by {
                            let q = rest.take(l);
                            assert(q[0] == rest[0]);
                            lemma_file_under_child(entries@, k as int, q);
                            assert(q.drop_first() =~= rest1.take(l - 1));
                        }
                        if r {
                            assert forall|l: int| 1 <= l <= rest.len() implies !files_in(entries@).contains(
                                #[trigger] rest.take(l),
                            ) by {
                                if l >= 2 {
                                    assert(!files_in(sub@).contains(rest1.take(l - 1)));
                                }
                            }
                        } else {
                            let l1 = choose|l1: int| 1 <= l1 <= rest1.len() && files_in(sub@).contains(#[trigger] rest1.take(l1));
                            assert(files_in(entries@).contains(rest.take(l1 + 1)));
                        }
                    }
                    r
                },
            }
        },
    }
}

/// Insertions build up the tree from its file paths: the files after inserting each of
/// `paths` in turn into an empty tree, or nothing where an insertion would run into a file.
pub open spec fn build_files(paths: Seq<Seq<Seq<char>>>) -> Option<Set<Seq<Seq<char>>>>
    decreases paths.len(),
{
    if paths.len() == 0 {
        Some(Set::empty())
    } else {
        match build_files(paths.drop_last()) {
            None => None,
            Some(files) => if insertable(files, paths.last()) {
                Some(after_insert(files, paths.last()))
            } else {
                None
            },
        }
    }
}

/// The components of each of `paths`.
pub open spec fn components_of_all(paths: Seq<String>) -> Seq<Seq<Seq<char>>> {
    paths.map_values(|s: String| path_components(s@))
}

proof fn lemma_build_fails_on(paths: Seq<Seq<Seq<char>>>, m: int)
    requires
        0 <= m <= paths.len(),
        build_files(paths.take(m)) is None,
    ensures
        build_files(paths) is None,
    decreases paths.len() - m,
{
    if m < paths.len() {
        assert(paths.take(m + 1).drop_last() =~= paths.take(m));
        lemma_build_fails_on(paths, m + 1);
    } else {
        assert(paths.take(m) =~= paths);
    }
}

/// indexmap's `IndexSet`, a set that keeps its insertion order; what it holds is named by
/// `dir_set_items` and changed only through the calls below.
#[verifier::external_type_specification]
#[verifier::external_body]
#[verifier::reject_recursive_types(T)]
#[verifier::reject_recursive_types(S)]
pub struct ExIndexSet<T, S>(IndexSet<T, S>);

/// The items of an `IndexSet` of paths, in insertion order, each path by its components.
pub uninterp spec fn dir_set_items(set: IndexSet<Vec<String>>) -> Seq<Seq<Seq<char>>>;

/// Calls `IndexSet::new` (indexmap). Claimed: the set holds nothing.
#[verifier::external_body]
fn new_dir_set() -> (set: IndexSet<Vec<String>>)
    ensures
        dir_set_items(set) == Seq::<Seq<Seq<char>>>::empty(),
{
    IndexSet::new()
}

/// Calls `IndexSet::contains` (indexmap). Claimed: true exactly when an equal path is held;
/// two `Vec<String>` are equal when their components are.
#[verifier::external_body]
fn dir_set_contains(set: &IndexSet<Vec<String>>, dir: &Vec<String>) -> (r: bool)
    ensures
        r == dir_set_items(*set).contains(comps(dir@)),
{
    set.contains(dir)
}

/// Calls `IndexSet::insert` (indexmap). Claimed, as its documentation says: a path not held
/// yet goes at the end and `true` comes back; otherwise the set and its order stay as they
/// were and `false` comes back.
#[verifier::external_body]
fn dir_set_insert(set: &mut IndexSet<Vec<String>>, dir: Vec<String>) -> (added: bool)
    ensures
        added == !dir_set_items(*old(set)).contains(comps(dir@)),
        dir_set_items(*final(set)) == if added {
            dir_set_items(*old(set)).push(comps(dir@))
        } else {
            dir_set_items(*old(set))
        },
{
    set.insert(dir)
}

/// Collects the set (`IntoIterator` of `IndexSet`, indexmap) into a `Vec`. Claimed: the
/// items come out in insertion order.
#[verifier::external_body]
fn dir_set_into_vec(set: IndexSet<Vec<String>>) -> (v: Vec<Vec<String>>)
    ensures
        comps_list(v@) == dir_set_items(set),
{
    set.into_iter().collect()
}

/// Calls `slice::sort_by_key` (std) keyed by the number of components. Claimed, as its
/// documentation says, a stable sort: the same items, fewer components first, and two items
/// with as many components keep their relative order.
#[verifier::external_body]
fn sort_by_depth(v: &mut Vec<Vec<String>>)
    ensures
        final(v)@.len() == old(v)@.len(),
        forall|x: Seq<Seq<char>>|
            #[trigger] comps_list(final(v)@).contains(x) <==> comps_list(old(v)@).contains(x),
        forall|i: int, j: int|
            0 <= i < j < final(v)@.len() ==> (#[trigger] comps_list(final(v)@)[i]).len() <= (
            #[trigger] comps_list(final(v)@)[j]).len(),
        forall|i: int, j: int|
            0 <= i < j < final(v)@.len() && (#[trigger] comps_list(final(v)@)[i]).len() == (
            #[trigger] comps_list(final(v)@)[j]).len() ==> exists|a: int, b: int|
                0 <= a < b < old(v)@.len() && #[trigger] comps_list(old(v)@)[a] == comps_list(
                    final(v)@,
                )[i] && #[trigger] comps_list(old(v)@)[b] == comps_list(final(v)@)[j],
{
    v.sort_by_key(|p| p.len())
}

/// `q` is a non-empty proper prefix of one of the first `a` paths of `out`.
pub open spec fn prefix_of_first(out: Seq<Seq<Seq<char>>>, a: int, q: Seq<Seq<char>>) -> bool {
    exists|a2: int, l: int|
        0 <= a2 < a && 1 <= l < out[a2].len() && #[trigger] out[a2].take(l) == q
}

/// Paths of the same length in `items` come in increasing order.
pub open spec fn same_depth_sorted(items: Seq<Seq<Seq<char>>>) -> bool {
    forall|i: int, j: int|
        0 <= i < j < items.len() && (#[trigger] items[i]).len() == (#[trigger] items[j]).len()
            ==> path_lt(items[i], items[j])
}

/// Where the paths are stored: a tree of directories whose root is always a directory.
pub struct PathTree {
    root: PathType,
}

impl View for PathTree {
    type V = Set<Seq<Seq<char>>>;

    /// The file paths held in the tree.
    closed spec fn view(&self) -> Set<Seq<Seq<char>>> {
        match self.root {
            PathType::Directory(entries) => files_in(entries@),
            PathType::File => Set::empty(),
        }
    }
}

impl PathTree {
    /// The tree is well formed: its root is a directory and `wf_node` holds of it.
    pub closed spec fn wf(&self) -> bool {
        &&& self.root is Directory
        &&& wf_node(self.root)
    }

    /// An empty tree.
    pub fn new() -> (tree: Self)
        ensures
            tree.wf(),
            tree@ == Set::<Seq<Seq<char>>>::empty(),
    {
        let tree = PathTree { root: PathType::Directory(Vec::new()) };
        proof {
            lemma_empty_files(Seq::<PathEntry>::empty());
        }
        tree
    }

    /// Insert the file path given by its components.
    pub fn insert_components(&mut self, file_path: &Vec<String>)
        requires
            old(self).wf(),
            insertable(old(self)@, comps(file_path@)),
        ensures
            final(self).wf(),
            final(self)@ == after_insert(old(self)@, comps(file_path@)),
    {
        proof {
            assert(comps(file_path@).skip(0) =~= comps(file_path@));
        }
        match &mut self.root {
            PathType::Directory(entries) => {
                insert_at(entries, file_path, 0);
            },
            PathType::File => {},
        }
    }

    /// The children of the root directory, as held.
    pub fn structure(&self) -> (r: &Vec<PathEntry>)
        requires
            self.wf(),
        ensures
            files_in(r@) == self@,
            wf_entries(r@),
    {
        match &self.root {
            PathType::Directory(entries) => entries,
            PathType::File => vstd::pervasive::unreached(),
        }
    }

    /// Whether the file path given by its components can be inserted without running into a file.
    pub fn can_insert(&self, file_path: &Vec<String>) -> (r: bool)
        requires
            self.wf(),
        ensures
            r == insertable(self@, comps(file_path@)),
    {
        proof {
            assert(comps(file_path@).skip(0) =~= comps(file_path@));
        }
        match &self.root {
            PathType::Directory(entries) => can_insert_at(entries, file_path, 0),
            PathType::File => false,
        }
    }

    /// Insert the file path `file_path`, creating the directories on its way.
    pub fn insert_file_path(&mut self, file_path: &str)
        requires
            old(self).wf(),
            insertable(old(self)@, path_components(file_path@)),
        ensures
            final(self).wf(),
            final(self)@ == after_insert(old(self)@, path_components(file_path@)),
    {
        let components = split_path(file_path);
        self.insert_components(&components);
    }

    /// Insert the file path `file_path` where that runs into no file; say whether it did.
    pub fn try_insert_file_path(&mut self, file_path: &str) -> (inserted: bool)
        requires
            old(self).wf(),
        ensures
            final(self).wf(),
            inserted == insertable(old(self)@, path_components(file_path@)),
            final(self)@ == if inserted {
                after_insert(old(self)@, path_components(file_path@))
            } else {
                old(self)@
            },
    {
        let components = split_path(file_path);
        if self.can_insert(&components) {
            self.insert_file_path(file_path);
            true
        } else {
            false
        }
    }

    /// The tree holding `paths`, inserted in turn; `None` where an insertion would run into a file.
    pub fn from_paths(paths: &Vec<String>) -> (r: Option<PathTree>)
        ensures
            r is Some <==> build_files(components_of_all(paths@)) is Some,
            r matches Some(tree) ==> tree.wf() && Some(tree@) == build_files(
                components_of_all(paths@),
            ),
    {
        let ghost all = components_of_all(paths@);
        let mut tree = PathTree::new();
        let mut i: usize = 0;
        proof {
            assert(all.take(0) =~= Seq::<Seq<Seq<char>>>::empty());
        }
        while i < paths.len()
            invariant
                i <= paths@.len(),
                all == components_of_all(paths@),
                tree.wf(),
                build_files(all.take(i as int)) == Some(tree@),
            decreases paths@.len() - i,
        {
            let ghost before = tree@;
            proof {
                assert(all.take(i + 1).drop_last() =~= all.take(i as int));
                assert(all.take(i + 1).last() == path_components(paths@[i as int]@));
            }
            if !tree.try_insert_file_path(paths[i].as_str()) {
                proof {
                    lemma_build_fails_on(all, i + 1);
                }
                return None;
            }
            i = i + 1;
        }
        proof {
            assert(all.take(paths@.len() as int) =~= all);
        }
        Some(tree)
    }

    /// All the file paths, in increasing order, each listed once.
    pub fn paths_ordered(&self) -> (r: Vec<Vec<String>>)
        requires
            self.wf(),
        ensures
            strictly_sorted(comps_list(r@)),
            forall|p: Seq<Seq<char>>| #[trigger] comps_list(r@).contains(p) <==> self@.contains(p),
    {
        let mut output: Vec<Vec<String>> = Vec::new();
        traverse_paths_ordered(&self.root, Vec::new(), &mut output);
        proof {
            let s = comps_list(output@);
            let e = Seq::<Seq<char>>::empty();
            assert(output@.skip(0) =~= output@);
            assert(comps(Seq::<String>::empty()) =~= e);
            assert forall|p: Seq<Seq<char>>| #[trigger] s.contains(p) <==> self@.contains(p) by {
                if s.contains(p) {
                    let i = choose|i: int| 0 <= i < s.len() && s[i] == p;
                    assert(p.skip(0) =~= p);
                }
                if self@.contains(p) {
                    assert(e + p =~= p);
                }
            }
        }
        output
    }

    /// Every directory of the tree once: the non-empty proper prefixes of its file paths,
    /// shallower first and, at equal depth, in increasing order.
    pub fn directory_structure(self) -> (r: Vec<Vec<String>>)
        requires
            self.wf(),
        ensures
            dirs_sorted(comps_list(r@)),
            forall|q: Seq<Seq<char>>| #[trigger] comps_list(r@).contains(q) <==> dirs_of(self@, q),
    {
        let output = self.paths_ordered();
        let ghost out = comps_list(output@);
        let mut paths_ordered = new_dir_set();
        let mut a: usize = 0;
        while a < output.len()
            invariant
                a <= output@.len(),
                out == comps_list(output@),
                strictly_sorted(out),
                forall|p: Seq<Seq<char>>| #[trigger] out.contains(p) <==> self@.contains(p),
                forall|q: Seq<Seq<char>>|
                    #[trigger] dir_set_items(paths_ordered).contains(q) <==> prefix_of_first(out, a as int, q),
                same_depth_sorted(dir_set_items(paths_ordered)),
            decreases output@.len() - a,
        {
            let file_path = &output[a];
            let count = file_path.len();
            proof {
                assert(out[a as int] == comps(file_path@));
            }
            proof {
                assert(out.contains(out[a as int]));
                assert(has_file_in(self.root->0@, out[a as int]));
                assert(comps(file_path@).len() == count);
            }
            let directory = take_components(file_path, count - 1);
            proof {
                assert(comps(directory@).len() == directory@.len());
            }
            let mut len: usize = 1;
            while len < directory.len() + 1
                invariant
                    a < output@.len(),
                    out == comps_list(output@),
                    strictly_sorted(out),
                    *file_path == output@[a as int],
                    count == file_path@.len(),
                    count >= 1,
                    comps(directory@) == comps(file_path@).take(count - 1),
                    directory@.len() + 1 == count,
                    out[a as int] == comps(file_path@),
                    1 <= len <= count,
                    forall|q: Seq<Seq<char>>|
                        #[trigger] dir_set_items(paths_ordered).contains(q) <==> (prefix_of_first(out, a as int, q) || exists|l: int| 1 <= l < len && #[trigger] out[a as int].take(l) == q),
                    same_depth_sorted(dir_set_items(paths_ordered)),
                decreases count - len,
            {
                let partial_dir = take_components(&directory, len);
                let ghost q = comps(partial_dir@);
                let ghost items0 = dir_set_items(paths_ordered);
                proof {
                    assert(q =~= out[a as int].take(len as int));
                }
                if !dir_set_contains(&paths_ordered, &partial_dir) {
                    let ghost items = dir_set_items(paths_ordered);
                    dir_set_insert(&mut paths_ordered, partial_dir);
                    proof {
                        let items2 = dir_set_items(paths_ordered);
                        assert(items2 == items.push(q));
                        assert forall|i: int, j: int|
                            0 <= i < j < items2.len() && (#[trigger] items2[i]).len() == (#[trigger] items2[j]).len()
                                implies path_lt(items2[i], items2[j]) by {
                            if j < items.len() {
                                assert(items2[i] == items[i]);
                                assert(items2[j] == items[j]);
                            } else {
                                let x = items[i];
                                assert(items2[i] == x);
                                assert(items2[j] == q);
                                assert(items.contains(x));
                                if prefix_of_first(out, a as int, x) {
                                    let (a2, l) = choose|a2: int, l: int|
                                        0 <= a2 < a && 1 <= l < out[a2].len() && #[trigger] out[a2].take(l) == x;
                                    assert(l == len);
                                    assert(path_lt(out[a2], out[a as int]));
                                    crate::fs::order::lemma_path_lt_take(out[a2], out[a as int], l);
                                } else {
                                    let l = choose|l: int| 1 <= l < len && #[trigger] out[a as int].take(l) == x;
                                    assert(x.len() == l);
                                }
                            }
                        }
                    }
                }
                proof {
                    assert forall|q2: Seq<Seq<char>>|
                        #[trigger] dir_set_items(paths_ordered).contains(q2) <==> (items0.contains(q2) || q2 == q) by {
                        if dir_set_items(paths_ordered) != items0 {
                            assert(dir_set_items(paths_ordered) == items0.push(q));
                            if q2 == q {
                                assert(dir_set_items(paths_ordered)[items0.len() as int] == q);
                            }
                            if items0.contains(q2) {
                                let w = choose|w: int| 0 <= w < items0.len() && items0[w] == q2;
                                assert(dir_set_items(paths_ordered)[w] == q2);
                            }
                            if dir_set_items(paths_ordered).contains(q2) {
                                let w = choose|w: int| 0 <= w < items0.len() + 1 && dir_set_items(paths_ordered)[w] == q2;
                                if w < items0.len() {
                                    assert(items0[w] == q2);
                                }
                            }
                        }
                    }
                }
                len = len + 1;
                proof {
                    assert forall|q2: Seq<Seq<char>>|
                        #[trigger] dir_set_items(paths_ordered).contains(q2) <==> (prefix_of_first(out, a as int, q2) || exists|l: int| 1 <= l < len && #[trigger] out[a as int].take(l) == q2) by {
                        if q2 == q {
                            assert(out[a as int].take(len - 1) == q2);
                        }
                        if exists|l: int| 1 <= l < len && #[trigger] out[a as int].take(l) == q2 {
                            let l = choose|l: int| 1 <= l < len && #[trigger] out[a as int].take(l) == q2;
                            if l < len - 1 {
                                assert(exists|l2: int| 1 <= l2 < len - 1 && #[trigger] out[a as int].take(l2) == q2);
                            }
                        }
                    }
                }
            }
            a = a + 1;
            proof {
                assert forall|q: Seq<Seq<char>>|
                    #[trigger] dir_set_items(paths_ordered).contains(q) <==> prefix_of_first(out, a as int, q) by {
                    if prefix_of_first(out, a as int, q) {
                        let (a2, l) = choose|a2: int, l: int|
                            0 <= a2 < a && 1 <= l < out[a2].len() && #[trigger] out[a2].take(l) == q;
                        if a2 < a - 1 {
                            assert(prefix_of_first(out, a - 1, q));
                        }
                    }
                    if exists|l: int| 1 <= l < count && #[trigger] out[a - 1].take(l) == q {
                        let l = choose|l: int| 1 <= l < count && #[trigger] out[a - 1].take(l) == q;
                        assert(out[a - 1].take(l) == q);
                    }
                    if prefix_of_first(out, a - 1, q) {
                        let (a2, l) = choose|a2: int, l: int|
                            0 <= a2 < a - 1 && 1 <= l < out[a2].len() && #[trigger] out[a2].take(l) == q;
                        assert(out[a2].take(l) == q);
                    }
                }
            }
        }
        let ghost items = dir_set_items(paths_ordered);
        let mut paths_ordered = dir_set_into_vec(paths_ordered);
        sort_by_depth(&mut paths_ordered);
        proof {
            let w = comps_list(paths_ordered@);
            assert forall|i: int, j: int| 0 <= i < j < w.len() implies dir_lt(#[trigger] w[i], #[trigger] w[j]) by {
                if w[i].len() == w[j].len() {
                    let (x, y) = choose|x: int, y: int|
                        0 <= x < y < items.len() && #[trigger] items[x] == w[i] && #[trigger] items[y] == w[j];
                }
            }
            assert forall|q: Seq<Seq<char>>| #[trigger] w.contains(q) <==> dirs_of(self@, q) by {
                if w.contains(q) {
                    assert(items.contains(q));
                    let (a2, l) = choose|a2: int, l: int|
                        0 <= a2 < output@.len() && 1 <= l < out[a2].len() && #[trigger] out[a2].take(l) == q;
                    assert(out.contains(out[a2]));
                    assert(self@.contains(out[a2]));
                }
                if dirs_of(self@, q) {
                    let f = choose|f: Seq<Seq<char>>|
                        #[trigger] self@.contains(f) && q.len() < f.len() && f.take(q.len() as int) == q;
                    assert(out.contains(f));
                    let a2 = choose|a2: int| 0 <= a2 < out.len() && out[a2] == f;
                    assert(out[a2].take(q.len() as int) == q);
                    assert(prefix_of_first(out, output@.len() as int, q));
                    assert(items.contains(q));
                }
            }
        }
        paths_ordered
    }
}


/// The file paths of a well-formed tree are non-empty, and none lies below another.
pub proof fn lemma_files_prefix_free(tree: PathTree)
    requires
        tree.wf(),
    ensures
        forall|p: Seq<Seq<char>>| #[trigger] tree@.contains(p) ==> p.len() > 0,
        forall|f: Seq<Seq<char>>, g: Seq<Seq<char>>|
            #[trigger] tree@.contains(f) && #[trigger] tree@.contains(g) && f.len() < g.len()
                ==> g.take(f.len() as int) != f,
{
    assert forall|f: Seq<Seq<char>>, g: Seq<Seq<char>>|
        #[trigger] tree@.contains(f) && #[trigger] tree@.contains(g) && f.len() < g.len()
            implies g.take(f.len() as int) != f by {
        if g.take(f.len() as int) == f {
            assert(wf_node(tree.root));
            lemma_no_file_below_file(tree.root->0@, f, g);
        }
    }
}

/// A file has nothing below it.
proof fn lemma_no_file_below_file(entries: Seq<PathEntry>, f: Seq<Seq<char>>, g: Seq<Seq<char>>)
    requires
        wf_entries(entries),
        has_file_in(entries, f),
        has_file_in(entries, g),
        f.len() < g.len(),
    ensures
        g.take(f.len() as int) != f,
    decreases f.len(),
{
    if g.take(f.len() as int) == f {
        let i = choose|i: int|
            0 <= i < entries.len() && (#[trigger] entries[i]).name@ == f[0] && has_file(
                entries[i].kind,
                f.drop_first(),
            );
        let j = choose|j: int|
            0 <= j < entries.len() && (#[trigger] entries[j]).name@ == g[0] && has_file(
                entries[j].kind,
                g.drop_first(),
            );
        assert(g[0] == g.take(f.len() as int)[0]);
        if i != j {
            if i < j {
                assert(entries[i].name@ != entries[j].name@);
            } else {
                assert(entries[j].name@ != entries[i].name@);
            }
        }
        assert(wf_node(entries[i].kind));
        match entries[i].kind {
            PathType::File => {
                assert(g.drop_first().len() > 0);
            },
            PathType::Directory(sub) => {
                assert(g.drop_first().take(f.drop_first().len() as int) =~= g.take(
                    f.len() as int,
                ).drop_first());
                lemma_no_file_below_file(sub@, f.drop_first(), g.drop_first());
            },
        }
    }
}

/// Inserting two file paths, each order of insertion running into no file, gives the same files
/// whichever comes first.
pub proof fn lemma_insert_order_irrelevant(
    files: Set<Seq<Seq<char>>>,
    p: Seq<Seq<char>>,
    q: Seq<Seq<char>>,
)
    requires
        insertable(files, p),
        insertable(after_insert(files, p), q),
        insertable(files, q),
        insertable(after_insert(files, q), p),
    ensures
        after_insert(after_insert(files, p), q) == after_insert(after_insert(files, q), p),
{
    let a = after_insert(files, p);
    let b = after_insert(files, q);
    if adds_file(files, p) && adds_file(files, q) && p != q {
        if is_prefix(q, p) {
            assert(p.take(q.len() as int) == q);
            assert(b.contains(q));
            if q.len() < p.len() {
                assert(b.contains(p.take(q.len() as int)));
            } else {
                assert(p =~= q);
            }
        }
        if is_prefix(p, q) {
            assert(q.take(p.len() as int) == p);
            if p.len() < q.len() {
                assert(a.contains(q.take(p.len() as int)));
            } else {
                assert(p =~= q);
            }
        }
        assert(adds_file(a, q));
        assert(adds_file(b, p));
        assert(after_insert(a, q) =~= after_insert(b, p));
    } else if adds_file(files, p) && !adds_file(files, q) {
        if q.len() > 0 {
            let f = choose|f: Seq<Seq<char>>| #[trigger] files.contains(f) && is_prefix(q, f);
            assert(a.contains(f));
        }
        assert(!adds_file(a, q));
        assert(b == files);
        assert(after_insert(a, q) =~= after_insert(b, p));
    } else if !adds_file(files, p) && adds_file(files, q) {
        if p.len() > 0 {
            let f = choose|f: Seq<Seq<char>>| #[trigger] files.contains(f) && is_prefix(p, f);
            assert(b.contains(f));
        }
        assert(!adds_file(b, p));
        assert(a == files);
        assert(after_insert(a, q) =~= after_insert(b, p));
    } else {
        assert(after_insert(a, q) =~= after_insert(b, p));
    }
}

} // verus!
