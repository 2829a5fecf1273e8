use vstd::prelude::*;

verus! {

/// A path held as its components, each component by its characters.
pub open spec fn comps(v: Seq<String>) -> Seq<Seq<char>> {
    v.map_values(|s: String| s@)
}

/// A list of paths, each held as its components.
pub open spec fn comps_list(v: Seq<Vec<String>>) -> Seq<Seq<Seq<char>>> {
    v.map_values(|p: Vec<String>| comps(p@))
}

/// Strict lexicographic order on names, characters compared by code point.
/// For valid UTF-8 text this is the byte order by which `String` and `OsString` compare.
pub open spec fn name_lt(a: Seq<char>, b: Seq<char>) -> bool
    decreases a.len(),
{
    if a.len() == 0 {
        b.len() > 0
    } else if b.len() == 0 {
        false
    } else if a[0] != b[0] {
        (a[0] as u32) < (b[0] as u32)
    } else {
        name_lt(a.drop_first(), b.drop_first())
    }
}

/// Strict lexicographic order on paths, components compared by `name_lt`.
pub open spec fn path_lt(a: Seq<Seq<char>>, b: Seq<Seq<char>>) -> bool
    decreases a.len(),
{
    if a.len() == 0 {
        b.len() > 0
    } else if b.len() == 0 {
        false
    } else if a[0] != b[0] {
        name_lt(a[0], b[0])
    } else {
        path_lt(a.drop_first(), b.drop_first())
    }
}

/// Order of directories in a directory listing: shallower first, then by path.
pub open spec fn dir_lt(a: Seq<Seq<char>>, b: Seq<Seq<char>>) -> bool {
    a.len() < b.len() || (a.len() == b.len() && path_lt(a, b))
}

/// A list of paths in strictly increasing path order.
pub open spec fn strictly_sorted(s: Seq<Seq<Seq<char>>>) -> bool {
    forall|i: int, j: int| 0 <= i < j < s.len() ==> path_lt(#[trigger] s[i], #[trigger] s[j])
}

/// A list of directories in strictly increasing directory order.
pub open spec fn dirs_sorted(s: Seq<Seq<Seq<char>>>) -> bool {
    forall|i: int, j: int| 0 <= i < j < s.len() ==> dir_lt(#[trigger] s[i], #[trigger] s[j])
}

pub proof fn lemma_name_lt_irreflexive(a: Seq<char>)
    ensures
        !name_lt(a, a),
    decreases a.len(),
{
    if a.len() > 0 {
        lemma_name_lt_irreflexive(a.drop_first());
    }
}

pub proof fn lemma_name_lt_total(a: Seq<char>, b: Seq<char>)
    requires
        a != b,
    ensures
        name_lt(a, b) || name_lt(b, a),
    decreases a.len(),
{
    if a.len() > 0 && b.len() > 0 && a[0] == b[0] {
        if a.drop_first() == b.drop_first() {
            assert(a =~= seq![a[0]] + a.drop_first());
            assert(b =~= seq![b[0]] + b.drop_first());
        }
        lemma_name_lt_total(a.drop_first(), b.drop_first());
    } else if a.len() == 0 && b.len() == 0 {
        assert(a =~= b);
    } else if a.len() > 0 && b.len() > 0 {
        vstd::utf8::char_u32_cast(a[0], a[0] as u32);
        vstd::utf8::char_u32_cast(b[0], b[0] as u32);
    }
}

pub proof fn lemma_path_lt_irreflexive(a: Seq<Seq<char>>)
    ensures
        !path_lt(a, a),
    decreases a.len(),
{
    if a.len() > 0 {
        lemma_path_lt_irreflexive(a.drop_first());
    }
}

/// Two paths that agree on their first `k` components and differ at
/// component `k` are ordered by that component.
pub proof fn lemma_path_lt_at(a: Seq<Seq<char>>, b: Seq<Seq<char>>, k: int)
    requires
        0 <= k < a.len(),
        k < b.len(),
        a.take(k) == b.take(k),
        name_lt(a[k], b[k]),
    ensures
        path_lt(a, b),
    decreases k,
{
    if k == 0 {
        lemma_name_lt_irreflexive(a[0]);
    } else {
        assert(a[0] == a.take(k)[0]);
        assert(b[0] == b.take(k)[0]);
        assert(a.drop_first().take(k - 1) =~= a.take(k).drop_first());
        assert(b.drop_first().take(k - 1) =~= b.take(k).drop_first());
        lemma_path_lt_at(a.drop_first(), b.drop_first(), k - 1);
    }
}

/// Cutting two ordered paths to the same length keeps them ordered, or makes them equal.
pub proof fn lemma_path_lt_take(a: Seq<Seq<char>>, b: Seq<Seq<char>>, l: int)
    requires
        path_lt(a, b),
        0 <= l <= a.len(),
        l <= b.len(),
    ensures
        a.take(l) == b.take(l) || path_lt(a.take(l), b.take(l)),
    decreases l,
{
    if l == 0 {
        assert(a.take(0) =~= b.take(0));
    } else if a[0] != b[0] {
        assert(a.take(l)[0] == a[0]);
        assert(b.take(l)[0] == b[0]);
    } else {
        lemma_path_lt_take(a.drop_first(), b.drop_first(), l - 1);
        assert(a.drop_first().take(l - 1) =~= a.take(l).drop_first());
        assert(b.drop_first().take(l - 1) =~= b.take(l).drop_first());
        assert(a.take(l)[0] == b.take(l)[0]);
        if a.drop_first().take(l - 1) == b.drop_first().take(l - 1) {
            assert(a.take(l) =~= seq![a[0]] + a.drop_first().take(l - 1));
            assert(b.take(l) =~= seq![b[0]] + b.drop_first().take(l - 1));
        }
    }
}

} // verus!
