use vstd::prelude::*;

use crate::fs::order::comps;

verus! {

/// The pieces of `s` between its `/` separators, in order; a text without `/` is one piece.
pub open spec fn slash_pieces(s: Seq<char>) -> Seq<Seq<char>>
    decreases s.len(),
{
    if s.len() == 0 {
        seq![Seq::<char>::empty()]
    } else {
        let rest = slash_pieces(s.drop_first());
        if s[0] == '/' {
            seq![Seq::<char>::empty()] + rest
        } else {
            rest.update(0, seq![s[0]] + rest[0])
        }
    }
}

/// A piece that names a component: neither empty nor `.`.
pub open spec fn names_component(p: Seq<char>) -> bool {
    p.len() > 0 && p != seq!['.']
}

/// The pieces of `ps` that name components, in order.
pub open spec fn named(ps: Seq<Seq<char>>) -> Seq<Seq<char>>
    decreases ps.len(),
{
    if ps.len() == 0 {
        Seq::empty()
    } else if names_component(ps.last()) {
        named(ps.drop_last()).push(ps.last())
    } else {
        named(ps.drop_last())
    }
}

/// The components `std::path::Path::iter` gives of `path` on Unix, as the documentation of
/// `Path::components` describes them: a leading `/` is the root component `/`; the rest
/// splits at `/`, where repeated and trailing separators give nothing and `.` is left out,
/// except that a relative path whose first piece is `.` keeps it as its first component.
#[verifier::opaque]
pub open spec fn path_components(path: Seq<char>) -> Seq<Seq<char>> {
    if path.len() > 0 && path[0] == '/' {
        seq![seq!['/']] + named(slash_pieces(path.drop_first()))
    } else if slash_pieces(path)[0] == seq!['.'] {
        seq![seq!['.']] + named(slash_pieces(path).drop_first())
    } else {
        named(slash_pieces(path))
    }
}

/// Calls `std::path::Path::iter` on `path` and turns each component into a `String`
/// (`OsStr::to_string_lossy`, lossless here as the path is UTF-8). Claimed, as the
/// documentation of `Path::components` and `Component::as_os_str` says for Unix: the
/// components are `path_components(path)`.
#[verifier::external_body]
pub(crate) fn split_path(path: &str) -> (r: Vec<String>)
    ensures
        comps(r@) == path_components(path@),
{
    std::path::Path::new(path).iter().map(|c| c.to_string_lossy().into_owned()).collect()
}

/// The components of `path` from index `n` on (`Iterator::skip` on the components).
pub fn skip_components(path: &Vec<String>, n: usize) -> (r: Vec<String>)
    ensures
        comps(r@) == if n <= path@.len() {
            comps(path@).skip(n as int)
        } else {
            Seq::<Seq<char>>::empty()
        },
{
    let mut r: Vec<String> = Vec::new();
    let mut i: usize = n;
    while i < path.len()
        invariant
            n <= i || path@.len() <= i,
            i <= path@.len() || (n > path@.len() && i == n),
            n <= path@.len() ==> comps(r@) == comps(path@).subrange(n as int, i as int),
            n > path@.len() ==> r@.len() == 0,
        decreases path@.len() - i,
    {
        r.push(path[i].clone());
        proof {
            assert(comps(r@) =~= comps(path@).subrange(n as int, i + 1));
        }
        i = i + 1;
    }
    proof {
        if n <= path@.len() {
            assert(comps(path@).subrange(n as int, path@.len() as int) =~= comps(path@).skip(n as int));
        } else {
            assert(comps(r@) =~= Seq::<Seq<char>>::empty());
        }
    }
    r
}

/// The first `n` components of `path` (`Iterator::take` on the components).
pub fn take_components(path: &Vec<String>, n: usize) -> (r: Vec<String>)
    requires
        n <= path@.len(),
    ensures
        comps(r@) == comps(path@).take(n as int),
{
    let mut r: Vec<String> = Vec::new();
    let mut i: usize = 0;
    while i < n
        invariant
            i <= n <= path@.len(),
            comps(r@) == comps(path@).take(i as int),
        decreases n - i,
    {
        let ghost prev = r@;
        r.push(path[i].clone());
        proof {
            assert(r@ == prev.push(path@[i as int]));
            assert(comps(path@).take(i + 1) =~= comps(path@).take(i as int).push(path@[i as int]@));
            assert(comps(r@) =~= comps(prev).push(path@[i as int]@));
        }
        i = i + 1;
    }
    r
}

/// `root` followed by the components of `relative` (`PathBuf::push` of a relative path).
pub fn join_components(root: &Vec<String>, relative: &Vec<String>) -> (r: Vec<String>)
    ensures
        comps(r@) == comps(root@) + comps(relative@),
{
    let mut r: Vec<String> = root.clone();
    proof {
        assert(r@ =~= root@);
    }
    let mut i: usize = 0;
    while i < relative.len()
        invariant
            i <= relative@.len(),
            comps(r@) == comps(root@) + comps(relative@).take(i as int),
        decreases relative@.len() - i,
    {
        let ghost prev = r@;
        r.push(relative[i].clone());
        proof {
            assert(r@ == prev.push(relative@[i as int]));
            assert(comps(relative@).take(i + 1) =~= comps(relative@).take(i as int).push(relative@[i as int]@));
            assert(comps(r@) =~= comps(prev).push(relative@[i as int]@));
            assert(comps(r@) =~= comps(root@) + comps(relative@).take(i + 1));
        }
        i = i + 1;
    }
    proof {
        assert(comps(relative@).take(relative@.len() as int) =~= comps(relative@));
    }
    r
}

/// `name` pushed onto the path `base` as a relative path: a `/` goes between them unless
/// `base` is empty or already ends with one.
pub open spec fn pushed(base: Seq<char>, name: Seq<char>) -> Seq<char> {
    if base.len() == 0 || base.last() == '/' {
        base + name
    } else {
        base + seq!['/'] + name
    }
}

/// A relative path whose first piece is not `.`: its components stay whole when it is
/// pushed onto another path.
pub open spec fn plain_relative(r: Seq<char>) -> bool {
    !(r.len() > 0 && r[0] == '/') && slash_pieces(r)[0] != seq!['.']
}

proof fn lemma_pieces_nonempty(s: Seq<char>)
    ensures
        slash_pieces(s).len() >= 1,
    decreases s.len(),
{
    if s.len() > 0 {
        lemma_pieces_nonempty(s.drop_first());
    }
}

/// A text without `/` is a single piece.
proof fn lemma_pieces_no_slash(s: Seq<char>)
    requires
        forall|i: int| 0 <= i < s.len() ==> s[i] != '/',
    ensures
        slash_pieces(s) == seq![s],
    decreases s.len(),
{
    if s.len() > 0 {
        lemma_pieces_no_slash(s.drop_first());
        assert(s[0] != '/');
        let rest = slash_pieces(s.drop_first());
        assert(rest == seq![s.drop_first()]);
        assert(slash_pieces(s) == rest.update(0, seq![s[0]] + rest[0]));
        assert(seq![s[0]] + s.drop_first() =~= s);
        assert(slash_pieces(s) =~= seq![s]);
    } else {
        assert(s =~= Seq::<char>::empty());
    }
}

/// Splitting at a `/` splits the pieces there.
proof fn lemma_pieces_join(a: Seq<char>, b: Seq<char>)
    ensures
        slash_pieces(a + seq!['/'] + b) == slash_pieces(a) + slash_pieces(b),
    decreases a.len(),
{
    let s = a + seq!['/'] + b;
    if a.len() == 0 {
        assert(s.drop_first() =~= b);
    } else {
        assert(s.drop_first() =~= a.drop_first() + seq!['/'] + b);
        lemma_pieces_join(a.drop_first(), b);
        lemma_pieces_nonempty(a.drop_first());
        lemma_pieces_nonempty(b);
        if a[0] == '/' {
            assert(slash_pieces(s) =~= slash_pieces(a) + slash_pieces(b));
        } else {
            let ra = slash_pieces(a.drop_first());
            let rest = ra + slash_pieces(b);
            assert(rest.update(0, seq![a[0]] + rest[0]) =~= ra.update(0, seq![a[0]] + ra[0]) + slash_pieces(b));
        }
    }
}

/// One piece is named exactly when it names a component.
proof fn lemma_named_single(x: Seq<char>)
    ensures
        named(seq![x]) == if names_component(x) {
            seq![x]
        } else {
            Seq::<Seq<char>>::empty()
        },
{
    reveal_with_fuel(named, 2);
    assert(seq![x].drop_last() =~= Seq::<Seq<char>>::empty());
    assert(Seq::<Seq<char>>::empty().push(x) =~= seq![x]);
}

/// The named pieces of two lists of pieces, one after the other.
proof fn lemma_named_add(a: Seq<Seq<char>>, b: Seq<Seq<char>>)
    ensures
        named(a + b) == named(a) + named(b),
    decreases b.len(),
{
    if b.len() == 0 {
        assert(a + b =~= a);
        assert(named(a) + named(b) =~= named(a));
    } else {
        assert((a + b).drop_last() =~= a + b.drop_last());
        lemma_named_add(a, b.drop_last());
        if names_component(b.last()) {
            assert(named(a) + named(b) =~= (named(a) + named(b.drop_last())).push(b.last()));
        }
    }
}

/// The pieces of a path that ends with `/` are those of the path without it, and an empty one.
proof fn lemma_pieces_trailing(base: Seq<char>)
    requires
        base.len() > 0,
        base.last() == '/',
    ensures
        slash_pieces(base) == slash_pieces(base.drop_last()) + seq![Seq::<char>::empty()],
        named(slash_pieces(base)) == named(slash_pieces(base.drop_last())),
{
    assert(base =~= base.drop_last() + seq!['/'] + Seq::<char>::empty());
    lemma_pieces_join(base.drop_last(), Seq::<char>::empty());
    lemma_named_add(slash_pieces(base.drop_last()), seq![Seq::<char>::empty()]);
    lemma_named_single(Seq::<char>::empty());
    assert(named(slash_pieces(base.drop_last())) + Seq::<Seq<char>>::empty() =~= named(slash_pieces(base.drop_last())));
}

/// Pushing a plain relative path onto any path gives the path's components followed by its
/// own: so making it relative again, by leaving out as many components as the path has,
/// gives back exactly its components.
pub proof fn lemma_components_of_pushed(base: Seq<char>, r: Seq<char>)
    requires
        plain_relative(r),
    ensures
        path_components(pushed(base, r)) == path_components(base) + path_components(r),
        path_components(pushed(base, r)).skip(path_components(base).len() as int) == path_components(r),
{
    reveal(path_components);
    let pr = slash_pieces(r);
    lemma_pieces_nonempty(r);
    assert(path_components(r) == named(pr));
    if base.len() == 0 {
        assert(pushed(base, r) =~= r);
        lemma_named_single(Seq::<char>::empty());
        assert(path_components(base) =~= Seq::<Seq<char>>::empty());
    } else {
        let trailing = base.last() == '/';
        let q = if trailing { base.drop_last() } else { base };
        assert(pushed(base, r) =~= q + seq!['/'] + r);
        if trailing {
            lemma_pieces_trailing(base);
        }
        if base[0] == '/' {
            if q.len() == 0 {
                assert(pushed(base, r).drop_first() =~= r);
                assert(base =~= seq!['/']);
                assert(base.drop_first() =~= Seq::<char>::empty());
                lemma_named_single(Seq::<char>::empty());
                assert(path_components(base) =~= seq![seq!['/']]);
            } else {
                let q1 = q.drop_first();
                assert(pushed(base, r).drop_first() =~= q1 + seq!['/'] + r);
                lemma_pieces_join(q1, r);
                lemma_named_add(slash_pieces(q1), pr);
                if trailing {
                    assert(base.drop_first() =~= q1 + seq!['/'] + Seq::<char>::empty());
                    lemma_pieces_join(q1, Seq::<char>::empty());
                    lemma_named_add(slash_pieces(q1), seq![Seq::<char>::empty()]);
                    lemma_named_single(Seq::<char>::empty());
                    assert(named(slash_pieces(q1)) + Seq::<Seq<char>>::empty() =~= named(slash_pieces(q1)));
                } else {
                    assert(base.drop_first() =~= q1);
                }
                assert(path_components(pushed(base, r)) =~= path_components(base) + path_components(r));
            }
        } else {
            let pq = slash_pieces(q);
            lemma_pieces_nonempty(q);
            lemma_pieces_join(q, r);
            assert((q + seq!['/'] + r)[0] == q[0]);
            if pq[0] == seq!['.'] {
                assert((pq + pr).drop_first() =~= pq.drop_first() + pr);
                lemma_named_add(pq.drop_first(), pr);
                if trailing {
                    assert(slash_pieces(base).drop_first() =~= pq.drop_first() + seq![Seq::<char>::empty()]);
                    lemma_named_add(pq.drop_first(), seq![Seq::<char>::empty()]);
                    lemma_named_single(Seq::<char>::empty());
                    assert(named(pq.drop_first()) + Seq::<Seq<char>>::empty() =~= named(pq.drop_first()));
                }
                assert(path_components(pushed(base, r)) =~= path_components(base) + path_components(r));
            } else {
                lemma_named_add(pq, pr);
                assert(path_components(pushed(base, r)) =~= path_components(base) + path_components(r));
            }
        }
    }
    assert((path_components(base) + path_components(r)).skip(path_components(base).len() as int) =~= path_components(r));
}

/// A plain name without `/` that is neither empty nor `.` is one component.
pub proof fn lemma_name_components(name: Seq<char>)
    requires
        forall|i: int| 0 <= i < name.len() ==> name[i] != '/',
        names_component(name),
    ensures
        plain_relative(name),
        path_components(name) == seq![name],
{
    reveal(path_components);
    lemma_pieces_no_slash(name);
    lemma_named_single(name);
}

/// The default scratch prefix `/tmp/` has two components: the root and `tmp`.
pub proof fn lemma_tmp_prefix_components()
    ensures
        path_components("/tmp/"@) == seq![seq!['/'], seq!['t', 'm', 'p']],
{
    reveal(path_components);
    reveal_strlit("/tmp/");
    let tail = "/tmp/"@.drop_first();
    assert(tail =~= seq!['t', 'm', 'p'] + seq!['/'] + Seq::<char>::empty());
    lemma_pieces_join(seq!['t', 'm', 'p'], Seq::<char>::empty());
    lemma_pieces_no_slash(seq!['t', 'm', 'p']);
    let ps = seq![seq!['t', 'm', 'p'], Seq::<char>::empty()];
    assert(slash_pieces(tail) =~= ps);
    assert(ps =~= seq![seq!['t', 'm', 'p']] + seq![Seq::<char>::empty()]);
    lemma_named_add(seq![seq!['t', 'm', 'p']], seq![Seq::<char>::empty()]);
    lemma_named_single(seq!['t', 'm', 'p']);
    lemma_named_single(Seq::<char>::empty());
    assert(seq!['t', 'm', 'p'].len() != seq!['.'].len());
    assert(named(ps) =~= seq![seq!['t', 'm', 'p']]);
}

} // verus!
