//! Sorting numbers and taking the one in the middle.

use crate::number::Real;
use vstd::prelude::*;

verus! {

/// Whether every value is a number.
pub open spec fn all_numbers(s: Seq<Real>) -> bool {
    forall|i: int| 0 <= i < s.len() ==> !(#[trigger] s[i]).is_nan()
}

/// Whether numbers stand in ascending order.
pub open spec fn ascending(s: Seq<Real>) -> bool {
    forall|i: int, j: int| 0 <= i <= j < s.len() ==> (#[trigger] s[i]).spec_le(#[trigger] s[j])
}

/// Whether `t` holds the numbers of `s` in ascending order.
pub open spec fn sorted_as(s: Seq<Real>, t: Seq<Real>) -> bool {
    ascending(t) && t.to_multiset() == s.to_multiset()
}

/// Whether `m` stands in the middle of the numbers of `s` once they are sorted.
pub open spec fn in_the_middle(s: Seq<Real>, m: Real) -> bool {
    exists|t: Seq<Real>| #[trigger] sorted_as(s, t) && t.len() == s.len() && m == t[(s.len() / 2) as int]
}

/// Whether no value is below another: they are equal, or are no numbers.
pub open spec fn unordered(s: Seq<Real>) -> bool {
    forall|i: int, j: int|
        0 <= i < s.len() && 0 <= j < s.len() ==> !(#[trigger] s[i]).spec_lt(#[trigger] s[j])
}

/// Whether `m` is the value in the middle of `s`, the upper one of two. It is one of the
/// values: of numbers, the one in the middle once they are sorted; where no value is below
/// another, the one in the middle as they stand. Values that are no numbers have no place among
/// numbers that differ, so there no more is said.
pub open spec fn is_middle(s: Seq<Real>, m: Real) -> bool {
    &&& s.contains(m)
    &&& all_numbers(s) ==> in_the_middle(s, m)
    &&& unordered(s) ==> m == s[(s.len() / 2) as int]
}

/// Sorts values: numbers in ascending order, and nothing is moved where no value is below
/// another.
pub fn sort_numbers(v: Vec<Real>) -> (r: Vec<Real>)
    ensures
        r@.to_multiset() == v@.to_multiset(),
        r@.len() == v@.len(),
        all_numbers(v@) ==> ascending(r@) && all_numbers(r@),
        unordered(v@) ==> r@ == v@,
{
    broadcast use vstd::seq_lib::group_to_multiset_ensures;

    let mut out: Vec<Real> = Vec::new();
    assert(v@.take(0) =~= Seq::empty());
    for i in 0..v.len()
        invariant
            out@.len() == i,
            all_numbers(v@) ==> ascending(out@) && all_numbers(out@),
            unordered(v@) ==> out@ == v@.take(i as int),
            out@.to_multiset() == v@.take(i as int).to_multiset(),
    {
        let x = v[i];
        let mut k: usize = out.len();
        while k > 0 && x.lt(out[k - 1])
            invariant
                k <= out@.len(),
                forall|j: int| k <= j < out@.len() ==> x.spec_lt(#[trigger] out@[j]),
            decreases k,
        {
            k = k - 1;
        }
        let ghost before = out@;
        proof {
            if all_numbers(v@) {
                assert(!v@[i as int].is_nan());
                assert forall|j: int| 0 <= j < k implies (#[trigger] before[j]).spec_le(x) by {
                    assert(before[j].spec_le(before[k - 1]));
                }
            }
            if unordered(v@) && k < before.len() {
                assert(before[k as int] == v@[k as int]);
                assert(x.spec_lt(before[k as int]));
                assert(!v@[i as int].spec_lt(v@[k as int]));
            }
        }
        out.insert(k, x);
        assert(v@.take(i + 1) =~= v@.take(i as int).push(x));
        proof {
            if unordered(v@) {
                assert(out@ =~= v@.take(i + 1));
            }
            assert(out@.remove(k as int) =~= before);
            vstd::seq_lib::to_multiset_remove(out@, k as int);
            out@.to_multiset_ensures();
            assert(out@[k as int] == x);
            assert(out@.contains(x));
            assert(out@.to_multiset() =~= before.to_multiset().insert(x));
            vstd::seq_lib::to_multiset_build(v@.take(i as int), x);
        }
    }
    assert(v@.take(v@.len() as int) =~= v@);
    proof {
        out@.to_multiset_ensures();
    }
    out
}

/// The value in the middle of a list, the upper one of two: none where the list is empty.
pub fn middle(v: Vec<Real>) -> (r: Option<Real>)
    ensures
        match r {
            Some(m) => v@.len() > 0 && is_middle(v@, m),
            None => v@.len() == 0,
        },
{
    if v.len() == 0 {
        return None;
    }
    let ghost all = v@;
    let s = sort_numbers(v);
    let m = s[s.len() / 2];
    proof {
        all.to_multiset_ensures();
        s@.to_multiset_ensures();
        assert(s@.contains(m));
        assert(s@.to_multiset().count(m) > 0);
        if all_numbers(all) {
            assert(sorted_as(all, s@));
        }
    }
    Some(m)
}

/// The number in the middle is one of the list. Sorted, more than half of the list, and it with
/// them, come at or below it, and all from it on are at or above it: of two in the middle it is
/// the upper one.
pub proof fn law_middle(s: Seq<Real>, m: Real)
    requires
        s.len() > 0,
        in_the_middle(s, m),
    ensures
        s.contains(m),
        exists|t: Seq<Real>|
            #![trigger sorted_as(s, t)]
            sorted_as(s, t) && t.len() == s.len() && (forall|i: int|
                0 <= i <= s.len() / 2 ==> (#[trigger] t[i]).spec_le(m)) && (forall|i: int|
                s.len() / 2 <= i < s.len() ==> m.spec_le(#[trigger] t[i])),
{
    broadcast use vstd::seq_lib::group_to_multiset_ensures;

    let t = choose|t: Seq<Real>|
        #[trigger] sorted_as(s, t) && t.len() == s.len() && m == t[(s.len() / 2) as int];
    assert(t.contains(m));
    assert(t.to_multiset().contains(m));
    assert(sorted_as(s, t));
}

/// How many of the numbers are at or below the rank `c`.
spec fn at_most(s: Seq<Real>, c: int) -> int
    decreases s.len(),
{
    if s.len() == 0 {
        0
    } else {
        at_most(s.drop_last(), c) + one_if(s.last().rank() <= c)
    }
}

/// One where it holds, else zero.
spec fn one_if(b: bool) -> int {
    if b {
        1
    } else {
        0
    }
}

/// Without one of the numbers there is one less to count.
proof fn lemma_at_most_remove(s: Seq<Real>, p: int, c: int)
    requires
        0 <= p < s.len(),
    ensures
        at_most(s, c) == at_most(s.remove(p), c) + one_if(s[p].rank() <= c),
    decreases s.len(),
{
    if p == s.len() - 1 {
        assert(s.remove(p) =~= s.drop_last());
    } else {
        lemma_at_most_remove(s.drop_last(), p, c);
        assert(s.remove(p).drop_last() =~= s.drop_last().remove(p));
        assert(s.remove(p).last() == s.last());
    }
}

/// The count does not depend on the order.
proof fn lemma_at_most_same(s: Seq<Real>, t: Seq<Real>, c: int)
    requires
        s.to_multiset() == t.to_multiset(),
    ensures
        at_most(s, c) == at_most(t, c),
    decreases s.len(),
{
    s.to_multiset_ensures();
    t.to_multiset_ensures();
    if s.len() > 0 {
        let x = s.last();
        assert(s.to_multiset().count(x) > 0);
        assert(t.contains(x));
        let p = choose|p: int| 0 <= p < t.len() && t[p] == x;
        assert(s.remove(s.len() - 1) =~= s.drop_last());
        assert(s.drop_last().to_multiset() == t.remove(p).to_multiset());
        lemma_at_most_same(s.drop_last(), t.remove(p), c);
        lemma_at_most_remove(t, p, c);
    }
}

/// Where all from `k` on are above the rank, no more than `k` are not.
proof fn lemma_few(s: Seq<Real>, k: int, c: int)
    requires
        0 <= k <= s.len(),
        forall|i: int| k <= i < s.len() ==> (#[trigger] s[i]).rank() > c,
    ensures
        at_most(s, c) <= k,
    decreases s.len(),
{
    if s.len() > 0 {
        if k < s.len() {
            assert(s[s.len() - 1].rank() > c);
            lemma_few(s.drop_last(), k, c);
        } else {
            lemma_few(s.drop_last(), k - 1, c);
        }
    }
}

/// Where the first `k` are not above the rank, at least `k` are not.
proof fn lemma_many(s: Seq<Real>, k: int, c: int)
    requires
        0 <= k <= s.len(),
        forall|i: int| 0 <= i < k ==> (#[trigger] s[i]).rank() <= c,
    ensures
        at_most(s, c) >= k,
    decreases s.len(),
{
    if s.len() > 0 {
        if k < s.len() {
            lemma_many(s.drop_last(), k, c);
        } else {
            assert(s[s.len() - 1].rank() <= c);
            lemma_many(s.drop_last(), k - 1, c);
        }
    }
}

/// A number in the middle is not above another.
proof fn lemma_middle_not_above(s: Seq<Real>, m: Real, n: Real)
    requires
        s.len() > 0,
        in_the_middle(s, m),
        in_the_middle(s, n),
    ensures
        m.rank() <= n.rank(),
{
    let h = (s.len() / 2) as int;
    let t = choose|t: Seq<Real>| #[trigger] sorted_as(s, t) && t.len() == s.len() && m == t[h];
    let u = choose|u: Seq<Real>| #[trigger] sorted_as(s, u) && u.len() == s.len() && n == u[h];
    let c = n.rank();
    if m.rank() > c {
        assert forall|i: int| h <= i < t.len() implies (#[trigger] t[i]).rank() > c by {
            assert(t[h].spec_le(t[i]));
        }
        assert forall|i: int| 0 <= i < h + 1 implies (#[trigger] u[i]).rank() <= c by {
            assert(u[i].spec_le(u[h]));
        }
        lemma_few(t, h, c);
        lemma_many(u, h + 1, c);
        lemma_at_most_same(t, u, c);
    }
}

/// There is one number in the middle: two that stand there are equal.
pub proof fn law_one_middle(s: Seq<Real>, m: Real, n: Real)
    requires
        s.len() > 0,
        in_the_middle(s, m),
        in_the_middle(s, n),
    ensures
        m.rank() == n.rank(),
{
    lemma_middle_not_above(s, m, n);
    lemma_middle_not_above(s, n, m);
}

/// Where a number has its place among ascending ones.
proof fn lemma_place(s: Seq<Real>, y: Real) -> (k: int)
    requires
        ascending(s),
        all_numbers(s),
        !y.is_nan(),
    ensures
        0 <= k <= s.len(),
        forall|i: int| k <= i < s.len() ==> y.spec_lt(#[trigger] s[i]),
        ascending(s.insert(k, y)),
    decreases s.len(),
{
    if s.len() == 0 || s.last().spec_le(y) {
        let k = s.len() as int;
        let t = s.insert(k, y);
        assert forall|i: int, j: int| 0 <= i <= j < t.len() implies (#[trigger] t[i]).spec_le(
            #[trigger] t[j],
        ) by {
            if j == k && i < k {
                assert(t[i] == s[i]);
                assert(s[i].spec_le(s[s.len() - 1]));
            } else if j < k {
                assert(t[i] == s[i] && t[j] == s[j]);
            }
        }
        k
    } else {
        let r = s.drop_last();
        assert forall|i: int, j: int| 0 <= i <= j < r.len() implies (#[trigger] r[i]).spec_le(
            #[trigger] r[j],
        ) by {
            assert(s[i].spec_le(s[j]));
        }
        let k = lemma_place(r, y);
        let (t, u) = (s.insert(k, y), r.insert(k, y));
        assert(t.drop_last() =~= u);
        let l = s.len() as int;
        assert(t[l] == s[l - 1]);
        assert forall|i: int, j: int| 0 <= i <= j < t.len() implies (#[trigger] t[i]).spec_le(
            #[trigger] t[j],
        ) by {
            if j < l {
                assert(t[i] == u[i] && t[j] == u[j]);
            } else if i < k {
                assert(t[i] == s[i]);
                assert(s[i].spec_le(s[l - 1]));
            } else if i == k {
                assert(t[i] == y);
            } else {
                assert(t[i] == s[i - 1]);
                assert(s[i - 1].spec_le(s[l - 1]));
            }
        }
        assert forall|i: int| k <= i < s.len() implies y.spec_lt(#[trigger] s[i]) by {
            if i < r.len() {
                assert(s[i] == r[i]);
            }
        }
        k
    }
}

/// A number above the middle can grow without moving the middle.
pub proof fn law_middle_ignores_growth(s: Seq<Real>, j: int, y: Real, m: Real)
    requires
        all_numbers(s),
        0 <= j < s.len(),
        in_the_middle(s, m),
        m.spec_lt(s[j]),
        s[j].spec_le(y),
    ensures
        in_the_middle(s.update(j, y), m),
{
    let h = (s.len() / 2) as int;
    let x = s[j];
    let t = choose|t: Seq<Real>| #[trigger] sorted_as(s, t) && t.len() == s.len() && m == t[h];
    s.to_multiset_ensures();
    t.to_multiset_ensures();
    assert(s.to_multiset().count(x) > 0);
    assert(t.contains(x));
    let p = choose|p: int| 0 <= p < t.len() && t[p] == x;
    if p <= h {
        assert(t[p].spec_le(t[h]));
    }
    let r = t.remove(p);
    assert forall|a: int, b: int| 0 <= a <= b < r.len() implies (#[trigger] r[a]).spec_le(
        #[trigger] r[b],
    ) by {
        let (c, d) = (
            if a < p {
                a
            } else {
                a + 1
            },
            if b < p {
                b
            } else {
                b + 1
            },
        );
        assert(r[a] == t[c] && r[b] == t[d]);
    }
    assert forall|a: int| 0 <= a < r.len() implies !(#[trigger] r[a]).is_nan() by {
        assert(r[a].spec_le(r[a]));
    }
    let k = lemma_place(r, y);
    assert(r[h] == t[h]);
    if k <= h {
        assert(y.spec_lt(r[h]));
    }
    let u = r.insert(k, y);
    assert(u[h] == m);
    let v = s.update(j, y);
    assert(v.remove(j) =~= s.remove(j));
    v.to_multiset_ensures();
    r.to_multiset_ensures();
    vstd::seq_lib::to_multiset_insert(r, k, y);
    assert(v =~= s.remove(j).insert(j, y));
    vstd::seq_lib::to_multiset_insert(s.remove(j), j, y);
    assert(s.remove(j).to_multiset() == r.to_multiset());
    assert(sorted_as(v, u));
}

/// The value in the middle is one of the list, whatever it holds: among numbers the one that
/// sorting brings there, and where no value is below another the one that stands there.
pub proof fn law_value_in_the_middle(s: Seq<Real>, m: Real)
    requires
        s.len() > 0,
        is_middle(s, m),
    ensures
        exists|i: int| 0 <= i < s.len() && #[trigger] s[i] == m,
        (forall|i: int| 0 <= i < s.len() ==> !(#[trigger] s[i]).is_nan()) ==> in_the_middle(s, m),
        (forall|i: int, j: int|
            0 <= i < s.len() && 0 <= j < s.len() ==> !(#[trigger] s[i]).spec_lt(#[trigger] s[j])) ==> m
            == s[(s.len() / 2) as int],
{
}

/// A list that is sorted already has in its middle what stands there.
pub proof fn law_middle_of_sorted(s: Seq<Real>)
    requires
        s.len() > 0,
        forall|i: int, j: int| 0 <= i <= j < s.len() ==> (#[trigger] s[i]).spec_le(#[trigger] s[j]),
    ensures
        in_the_middle(s, s[(s.len() / 2) as int]),
{
    assert(sorted_as(s, s));
}

} // verus!
