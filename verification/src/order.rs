//! Lexicographic order on character sequences and a stable insertion sort of
//! indices by such keys.

use vstd::prelude::*;
use crate::text::views;

verus! {

/// `a` sorts strictly before `b`, comparing characters by code point
/// (the order of `String`'s `Ord`, since UTF-8 preserves code-point order).
pub open spec fn lex_lt(a: Seq<char>, b: Seq<char>) -> bool
    decreases a.len(),
{
    if b.len() == 0 {
        false
    } else if a.len() == 0 {
        true
    } else if a[0] != b[0] {
        (a[0] as u32) < (b[0] as u32)
    } else {
        lex_lt(a.drop_first(), b.drop_first())
    }
}

/// No sequence sorts strictly before itself.
pub proof fn lemma_lex_lt_irreflexive(a: Seq<char>)
    ensures
        !lex_lt(a, a),
    decreases a.len(),
{
    if a.len() > 0 {
        lemma_lex_lt_irreflexive(a.drop_first());
    }
}

/// Two sequences never each sort before the other.
pub proof fn lemma_lex_lt_asymmetric(a: Seq<char>, b: Seq<char>)
    ensures
        lex_lt(a, b) ==> !lex_lt(b, a),
    decreases a.len(),
{
    if a.len() > 0 && b.len() > 0 && a[0] == b[0] {
        lemma_lex_lt_asymmetric(a.drop_first(), b.drop_first());
    }
}

/// Sorting before is transitive.
pub proof fn lemma_lex_lt_transitive(a: Seq<char>, b: Seq<char>, c: Seq<char>)
    ensures
        lex_lt(a, b) && lex_lt(b, c) ==> lex_lt(a, c),
    decreases a.len(),
{
    if a.len() > 0 && b.len() > 0 && c.len() > 0 && a[0] == b[0] && b[0] == c[0] {
        lemma_lex_lt_transitive(a.drop_first(), b.drop_first(), c.drop_first());
    }
}

proof fn lemma_lex_lt_skip(a: Seq<char>, b: Seq<char>, i: int)
    requires
        0 <= i < a.len(),
        i < b.len(),
        a[i] == b[i],
    ensures
        lex_lt(a.skip(i), b.skip(i)) == lex_lt(a.skip(i + 1), b.skip(i + 1)),
{
    assert(a.skip(i).drop_first() =~= a.skip(i + 1));
    assert(b.skip(i).drop_first() =~= b.skip(i + 1));
}

/// Whether `a` sorts strictly before `b`.
pub fn lex_less(a: &Vec<char>, b: &Vec<char>) -> (r: bool)
    ensures
        r == lex_lt(a@, b@),
{
    let mut i: usize = 0;
    assert(a@.skip(0) =~= a@);
    assert(b@.skip(0) =~= b@);
    while i < a.len() && i < b.len() && a[i] == b[i]
        invariant
            i <= a.len(),
            i <= b.len(),
            lex_lt(a@, b@) == lex_lt(a@.skip(i as int), b@.skip(i as int)),
        decreases a.len() - i,
    {
        proof {
            lemma_lex_lt_skip(a@, b@, i as int);
        }
        i = i + 1;
    }
    if i == b.len() {
        false
    } else if i == a.len() {
        true
    } else {
        assert(a@.skip(i as int)[0] == a@[i as int]);
        assert(b@.skip(i as int)[0] == b@[i as int]);
        (a[i] as u32) < (b[i] as u32)
    }
}

/// Stable insertion of index `i` into index list `s` already ordered by `keys`:
/// `i` goes after every entry whose key does not sort after its own.
pub open spec fn ins_idx(keys: Seq<Seq<char>>, s: Seq<usize>, i: usize) -> Seq<usize>
    decreases s.len(),
{
    if s.len() == 0 {
        seq![i]
    } else if lex_lt(keys[i as int], keys[s[0] as int]) {
        seq![i] + s
    } else {
        seq![s[0]] + ins_idx(keys, s.drop_first(), i)
    }
}

/// The indices `0..n` in stable ascending order of their keys.
pub open spec fn sort_idx(keys: Seq<Seq<char>>, n: nat) -> Seq<usize>
    decreases n,
{
    if n == 0 {
        seq![]
    } else {
        ins_idx(keys, sort_idx(keys, (n - 1) as nat), (n - 1) as usize)
    }
}

/// All indices of `keys`, in stable ascending order of their keys.
pub open spec fn sorted_order(keys: Seq<Seq<char>>) -> Seq<usize> {
    sort_idx(keys, keys.len())
}

/// First position in `s` whose key sorts after `keys[i]`.
pub open spec fn ins_pos(keys: Seq<Seq<char>>, s: Seq<usize>, i: usize) -> int
    decreases s.len(),
{
    if s.len() == 0 {
        0
    } else if lex_lt(keys[i as int], keys[s[0] as int]) {
        0
    } else {
        1 + ins_pos(keys, s.drop_first(), i)
    }
}

proof fn lemma_ins_pos(keys: Seq<Seq<char>>, s: Seq<usize>, i: usize)
    ensures
        0 <= ins_pos(keys, s, i) <= s.len(),
        ins_idx(keys, s, i) == s.take(ins_pos(keys, s, i)) + seq![i] + s.skip(ins_pos(keys, s, i)),
        forall|k: int| 0 <= k < ins_pos(keys, s, i) ==> !lex_lt(keys[i as int], keys[s[k] as int]),
        ins_pos(keys, s, i) < s.len() ==> lex_lt(keys[i as int], keys[s[ins_pos(keys, s, i)] as int]),
    decreases s.len(),
{
    if s.len() == 0 {
        assert(s.take(0) + seq![i] + s.skip(0) =~= seq![i]);
    } else if lex_lt(keys[i as int], keys[s[0] as int]) {
        assert(s.take(0) + seq![i] + s.skip(0) =~= seq![i] + s);
    } else {
        let t = s.drop_first();
        lemma_ins_pos(keys, t, i);
        let p = ins_pos(keys, t, i);
        assert(s.take(p + 1) + seq![i] + s.skip(p + 1) =~= seq![s[0]] + (t.take(p) + seq![i]
            + t.skip(p)));
        assert forall|k: int| 0 <= k < p + 1 implies !lex_lt(keys[i as int], keys[s[k] as int]) by {
            if k > 0 {
                assert(s[k] == t[k - 1]);
            }
        }
    }
}

/// Indices of `keys` in stable ascending order of their keys.
pub fn sort_indices(keys: &Vec<Vec<char>>) -> (r: Vec<usize>)
    ensures
        r@ == sorted_order(views(keys@)),
{
    let ghost ks = views(keys@);
    let mut r: Vec<usize> = Vec::new();
    let mut i: usize = 0;
    while i < keys.len()
        invariant
            i <= keys.len(),
            ks == views(keys@),
            ks.len() == keys.len(),
            r@ == sort_idx(ks, i as nat),
            forall|k: int| 0 <= k < r.len() ==> #[trigger] r@[k] < i,
        decreases keys.len() - i,
    {
        proof {
            lemma_ins_pos(ks, r@, i);
        }
        let ghost p = ins_pos(ks, r@, i);
        let mut pos: usize = 0;
        while pos < r.len() && !lex_less(&keys[i], &keys[r[pos]])
            invariant
                i < keys.len(),
                ks == views(keys@),
                ks.len() == keys.len(),
                pos <= r.len(),
                pos <= p,
                0 <= p <= r.len(),
                forall|k: int| 0 <= k < r.len() ==> #[trigger] r@[k] < i,
                forall|k: int| 0 <= k < p ==> !lex_lt(ks[i as int], ks[r@[k] as int]),
                p < r.len() ==> lex_lt(ks[i as int], ks[r@[p] as int]),
            decreases r.len() - pos,
        {
            assert(keys@[r@[pos as int] as int]@ == ks[r@[pos as int] as int]);
            pos = pos + 1;
        }
        assert(pos == p) by {
            if pos < p {
                assert(keys@[r@[pos as int] as int]@ == ks[r@[pos as int] as int]);
            }
        }
        let ghost old_r = r@;
        r.insert(pos, i);
        assert(r@ =~= old_r.take(p) + seq![i] + old_r.skip(p));
        assert(r@ == sort_idx(ks, (i + 1) as nat));
        i = i + 1;
    }
    r
}

proof fn lemma_ins_idx_facts(keys: Seq<Seq<char>>, s: Seq<usize>, i: usize)
    ensures
        ins_idx(keys, s, i).len() == s.len() + 1,
        forall|k: int|
            0 <= k < ins_idx(keys, s, i).len() ==> (#[trigger] ins_idx(keys, s, i)[k] == i
                || s.contains(ins_idx(keys, s, i)[k])),
{
    lemma_ins_pos(keys, s, i);
    let p = ins_pos(keys, s, i);
    let r = ins_idx(keys, s, i);
    assert forall|k: int| 0 <= k < r.len() implies (#[trigger] r[k] == i || s.contains(r[k])) by {
        if k < p {
            assert(r[k] == s[k]);
        } else if k > p {
            assert(r[k] == s[k - 1]);
        }
    }
}

/// The sorted order has one entry per key, each a valid index.
pub proof fn lemma_sort_idx_perm_len(keys: Seq<Seq<char>>, n: nat)
    ensures
        sort_idx(keys, n).len() == n,
        forall|k: int| 0 <= k < n ==> (#[trigger] sort_idx(keys, n)[k]) < n,
    decreases n,
{
    if n > 0 {
        let prev = sort_idx(keys, (n - 1) as nat);
        lemma_sort_idx_perm_len(keys, (n - 1) as nat);
        lemma_ins_idx_facts(keys, prev, (n - 1) as usize);
        assert forall|k: int| 0 <= k < n implies (#[trigger] sort_idx(keys, n)[k]) < n by {
            let r = sort_idx(keys, n);
            if r[k] != (n - 1) as usize {
                let j = choose|j: int| 0 <= j < prev.len() && prev[j] == r[k];
                assert(prev[j] < n - 1);
            }
        }
    }
}

/// The sorted order lists every index `0..n`.
pub proof fn lemma_sort_idx_complete(keys: Seq<Seq<char>>, n: nat)
    ensures
        forall|j: usize| j < n ==> #[trigger] sort_idx(keys, n).contains(j),
    decreases n,
{
    if n > 0 {
        let prev = sort_idx(keys, (n - 1) as nat);
        lemma_sort_idx_complete(keys, (n - 1) as nat);
        lemma_ins_pos(keys, prev, (n - 1) as usize);
        let p = ins_pos(keys, prev, (n - 1) as usize);
        let r = sort_idx(keys, n);
        assert forall|j: usize| j < n implies #[trigger] r.contains(j) by {
            if j == n - 1 {
                assert(r[p] == (n - 1) as usize);
            } else {
                assert(prev.contains(j));
                let k = choose|k: int| 0 <= k < prev.len() && prev[k] == j;
                if k < p {
                    assert(r[k] == prev[k]);
                } else {
                    assert(r[k + 1] == prev[k]);
                }
            }
        }
    }
}

} // verus!
