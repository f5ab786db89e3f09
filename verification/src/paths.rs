//! `/`-separated paths as text: their components, prefixes and joins,
//! following `std::path` on Unix.

use vstd::prelude::*;
use crate::text::{from_chars, join, lit, push_str, split_chars, split_on, views};

verus! {

/// A path that starts at the root directory.
pub open spec fn is_absolute(p: Seq<char>) -> bool {
    p.len() > 0 && p[0] == '/'
}

/// The segments that name directories or files: empty and `.` segments are
/// dropped.
pub open spec fn keep_parts(segs: Seq<Seq<char>>) -> Seq<Seq<char>>
    decreases segs.len(),
{
    if segs.len() == 0 {
        seq![]
    } else {
        let prev = keep_parts(segs.drop_last());
        let s = segs.last();
        if s.len() == 0 || s == seq!['.'] {
            prev
        } else {
            prev.push(s)
        }
    }
}

/// The components of a `/`-separated path, without the root.
pub open spec fn path_parts(p: Seq<char>) -> Seq<Seq<char>> {
    keep_parts(split_on(p, '/'))
}

/// `p` lies at or under `base`, component by component.
pub open spec fn path_starts_with(p: Seq<char>, base: Seq<char>) -> bool {
    &&& is_absolute(p) == is_absolute(base)
    &&& path_parts(base).len() <= path_parts(p).len()
    &&& path_parts(p).take(path_parts(base).len() as int) == path_parts(base)
}

/// The components of a path (see [`path_parts`]).
pub fn path_parts_exec(p: &Vec<char>) -> (r: Vec<Vec<char>>)
    ensures
        views(r@) == path_parts(p@),
{
    let segs = split_chars(p, '/');
    let ghost sv = views(segs@);
    let mut r: Vec<Vec<char>> = Vec::new();
    let mut i: usize = 0;
    while i < segs.len()
        invariant
            i <= segs.len(),
            sv == views(segs@),
            sv == split_on(p@, '/'),
            views(r@) == keep_parts(sv.take(i as int)),
        decreases segs.len() - i,
    {
        let ghost old_r = r@;
        assert(sv.take(i + 1).drop_last() =~= sv.take(i as int));
        assert(sv.take(i + 1).last() == segs@[i as int]@);
        let seg = &segs[i];
        let dot = seg.len() == 1 && seg[0] == '.';
        proof {
            if seg@ == seq!['.'] {
                assert(seg@[0] == '.');
            }
            if dot {
                assert(seg@ =~= seq!['.']);
            }
        }
        if seg.len() != 0 && !dot {
            r.push(segs[i].clone());
            assert(views(r@) =~= views(old_r).push(seg@));
        }
        i = i + 1;
    }
    assert(sv.take(segs.len() as int) =~= sv);
    r
}

/// Whether two character vectors are equal.
pub fn chars_eq(a: &Vec<char>, b: &Vec<char>) -> (r: bool)
    ensures
        r == (a@ == b@),
{
    if a.len() != b.len() {
        return false;
    }
    let mut i: usize = 0;
    while i < a.len()
        invariant
            a.len() == b.len(),
            i <= a.len(),
            a@.take(i as int) == b@.take(i as int),
        decreases a.len() - i,
    {
        if a[i] != b[i] {
            assert(a@[i as int] != b@[i as int]);
            return false;
        }
        assert(a@.take(i + 1) =~= a@.take(i as int).push(a@[i as int]));
        assert(b@.take(i + 1) =~= b@.take(i as int).push(b@[i as int]));
        i = i + 1;
    }
    assert(a@ =~= a@.take(a.len() as int));
    assert(b@ =~= b@.take(b.len() as int));
    true
}

/// Whether `base` is a prefix of `p`, component by component.
pub fn parts_prefix(p: &Vec<Vec<char>>, base: &Vec<Vec<char>>) -> (r: bool)
    ensures
        r == (base@.len() <= p@.len() && views(p@).take(base@.len() as int) == views(base@)),
{
    if base.len() > p.len() {
        return false;
    }
    let mut i: usize = 0;
    while i < base.len()
        invariant
            base.len() <= p.len(),
            i <= base.len(),
            views(p@).take(i as int) == views(base@).take(i as int),
        decreases base.len() - i,
    {
        if !chars_eq(&p[i], &base[i]) {
            assert(views(p@).take(base@.len() as int)[i as int] == p@[i as int]@);
            return false;
        }
        assert(views(p@).take(i + 1) =~= views(p@).take(i as int).push(p@[i as int]@));
        assert(views(base@).take(i + 1) =~= views(base@).take(i as int).push(base@[i as int]@));
        i = i + 1;
    }
    assert(views(base@).take(base.len() as int) =~= views(base@));
    true
}

/// `base.join(p)`: `p` itself when absolute; otherwise `p` appended to
/// `base`, with a `/` between unless `base` is empty or already ends in one.
pub open spec fn path_join(base: Seq<char>, p: Seq<char>) -> Seq<char> {
    if is_absolute(p) {
        p
    } else if base.len() > 0 && base.last() != '/' {
        base + "/"@ + p
    } else {
        base + p
    }
}

/// `base.join(p)` (see [`path_join`]).
pub fn join_path(base: &str, p: &str) -> (r: String)
    ensures
        r@ == path_join(base@, p@),
{
    let b = lit(base);
    let q = lit(p);
    if q.len() > 0 && q[0] == '/' {
        return from_chars(&q);
    }
    let mut v = b;
    if v.len() > 0 && v[v.len() - 1] != '/' {
        push_str(&mut v, "/");
    }
    crate::text::append_chars(&mut v, &q);
    from_chars(&v)
}

} // verus!
