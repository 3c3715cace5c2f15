//! Sorting.

use crate::scan::{before, comes_before, lemma_before_orders};
use vstd::prelude::*;

verus! {

/// Values that come in an order of their own.
pub trait Ordered: Sized {
    spec fn precedes(&self, other: &Self) -> bool;

    /// Nothing precedes itself, no two values precede each other, and "does not
    /// come later" carries over from one value to the next.
    proof fn lemma_order(a: &Self, b: &Self, c: &Self)
        ensures
            !a.precedes(a),
            a.precedes(b) ==> !b.precedes(a),
            !b.precedes(a) && !c.precedes(b) ==> !c.precedes(a),
    ;

    fn goes_before(&self, other: &Self) -> (r: bool)
        ensures
            r == self.precedes(other),
    ;
}

impl Ordered for u64 {
    open spec fn precedes(&self, other: &u64) -> bool {
        *self < *other
    }

    proof fn lemma_order(a: &u64, b: &u64, c: &u64) {
    }

    fn goes_before(&self, other: &u64) -> (r: bool) {
        *self < *other
    }
}

impl Ordered for String {
    open spec fn precedes(&self, other: &String) -> bool {
        before(self@, other@)
    }

    proof fn lemma_order(a: &String, b: &String, c: &String) {
        lemma_before_orders(a@, b@, c@);
        lemma_before_orders(b@, a@, c@);
        lemma_before_orders(c@, a@, b@);
        lemma_before_orders(a@, c@, b@);
        lemma_before_orders(c@, b@, a@);
        lemma_before_orders(a@, b@, a@);
    }

    fn goes_before(&self, other: &String) -> (r: bool) {
        comes_before(self.as_str(), other.as_str())
    }
}

/// `out` holds the values of `from` in order, those that are alike as they came:
/// the value at `i` is the one that stood at `p[i]`.
pub open spec fn arranged<T: Ordered>(out: Seq<T>, from: Seq<T>, p: Seq<int>) -> bool {
    &&& out.len() == from.len()
    &&& p.len() == from.len()
    &&& forall|i: int|
        #![trigger p[i]]
        0 <= i < p.len() ==> 0 <= p[i] < from.len() && out[i] == from[p[i]]
    &&& forall|i: int, j: int| 0 <= i < j < p.len() ==> #[trigger] in_order(out, p, i, j)
}

pub open spec fn in_order<T: Ordered>(out: Seq<T>, p: Seq<int>, i: int, j: int) -> bool {
    out[i].precedes(&out[j]) || (!out[j].precedes(&out[i]) && p[i] < p[j])
}

/// Sort, keeping the order of values that are alike.
pub fn sort_stable<T: Ordered>(v: Vec<T>) -> (r: Vec<T>)
    ensures
        exists|p: Seq<int>| arranged(r@, v@, p),
{
    let mut rest = v;
    let mut out: Vec<T> = Vec::new();
    let ghost mut p: Seq<int> = Seq::empty();
    let n = rest.len();
    let mut k: usize = 0;
    while k < n
        invariant
            k <= n,
            n == v@.len(),
            rest@ == v@.skip(k as int),
            arranged(out@, v@.take(k as int), p),
        decreases n - k,
    {
        let x = rest.remove(0);
        let ghost placed = out@;
        let mut at: usize = out.len();
        while at > 0 && x.goes_before(&out[at - 1])
            invariant
                at <= out@.len(),
                out@ == placed,
                forall|i: int| #![trigger placed[i]] at <= i < placed.len() ==> x.precedes(&placed[i]),
            decreases at,
        {
            at -= 1;
        }
        out.insert(at, x);
        proof {
            lemma_inserted(placed, v@, p, k as int, at as int);
            p = p.insert(at as int, k as int);
        }
        k += 1;
    }
    proof {
        assert(v@.take(n as int) =~= v@);
        assert(arranged(out@, v@, p));
    }
    out
}

proof fn lemma_inserted<T: Ordered>(placed: Seq<T>, v: Seq<T>, p: Seq<int>, k: int, at: int)
    requires
        0 <= k < v.len(),
        arranged(placed, v.take(k), p),
        0 <= at <= placed.len(),
        forall|i: int| #![trigger placed[i]] at <= i < placed.len() ==> v[k].precedes(&placed[i]),
        at > 0 ==> !v[k].precedes(&placed[at - 1]),
    ensures
        arranged(placed.insert(at, v[k]), v.take(k + 1), p.insert(at, k)),
{
    let out = placed.insert(at, v[k]);
    let q = p.insert(at, k);
    let from = v.take(k + 1);
    assert(out.len() == k + 1 && q.len() == k + 1 && from.len() == k + 1);
    assert forall|i: int| #![trigger q[i]] 0 <= i < q.len() implies 0 <= q[i] < from.len() && out[i]
        == from[q[i]] by {
        if i < at {
            assert(p[i] == q[i]);
        } else if i > at {
            assert(p[i - 1] == q[i]);
        }
    }
    assert forall|i: int, j: int| 0 <= i < j < q.len() implies #[trigger] in_order(out, q, i, j) by {
        let pi = if i < at {
            i
        } else {
            i - 1
        };
        let pj = if j < at {
            j
        } else {
            j - 1
        };
        if i != at && j != at {
            assert(in_order(placed, p, pi, pj));
        } else if j == at {
            assert(p[i] == q[i]);
            let last = placed[at - 1];
            if i < at - 1 {
                assert(in_order(placed, p, i, at - 1));
                T::lemma_order(&placed[i], &last, &v[k]);
                T::lemma_order(&last, &placed[i], &v[k]);
            }
            T::lemma_order(&v[k], &placed[i], &last);
            assert(!v[k].precedes(&placed[i]));
            assert(p[i] < k);
        } else {
            assert(out[j] == placed[j - 1]);
            assert(v[k].precedes(&placed[j - 1]));
        }
    }
}

/// Sorting loses nothing: whatever stood at `k` still stands somewhere.
pub proof fn lemma_arranged_keeps<T: Ordered>(out: Seq<T>, from: Seq<T>, p: Seq<int>, k: int)
    requires
        arranged(out, from, p),
        0 <= k < from.len(),
    ensures
        exists|j: int| 0 <= j < p.len() && #[trigger] p[j] == k,
{
    let n = from.len() as int;
    assert forall|i: int, j: int| 0 <= i < j < p.len() implies #[trigger] p[i] != #[trigger] p[j] by {
        assert(in_order(out, p, i, j));
        T::lemma_order(&out[i], &out[j], &out[j]);
    }
    lemma_pigeonhole(p, n, k);
}

/// Sorting keeps the values: each occurs as often as before.
pub proof fn lemma_arranged_same_values<T: Ordered>(out: Seq<T>, from: Seq<T>, p: Seq<int>)
    requires
        arranged(out, from, p),
    ensures
        out.to_multiset() == from.to_multiset(),
{
    assert forall|i: int, j: int| 0 <= i < j < p.len() implies #[trigger] p[i] != #[trigger] p[j] by {
        assert(in_order(out, p, i, j));
        T::lemma_order(&out[i], &out[j], &out[j]);
    }
    lemma_permuted(out, from, p);
}

/// A list that picks every position of another one once holds the same values.
proof fn lemma_permuted<T>(out: Seq<T>, from: Seq<T>, p: Seq<int>)
    requires
        out.len() == from.len(),
        p.len() == from.len(),
        forall|i: int|
            #![trigger p[i]]
            0 <= i < p.len() ==> 0 <= p[i] < from.len() && out[i] == from[p[i]],
        forall|i: int, j: int| 0 <= i < j < p.len() ==> #[trigger] p[i] != #[trigger] p[j],
    ensures
        out.to_multiset() == from.to_multiset(),
    decreases out.len(),
{
    if out.len() == 0 {
        assert(out =~= from);
    } else {
        let n = out.len() - 1;
        let k = p[n];
        let rest = from.remove(k);
        let q = Seq::new(
            n as nat,
            |i: int|
                if p[i] > k {
                    p[i] - 1
                } else {
                    p[i]
                },
        );
        let front = out.drop_last();
        assert forall|i: int| #![trigger q[i]] 0 <= i < q.len() implies 0 <= q[i] < rest.len()
            && front[i] == rest[q[i]] by {
            assert(p[i] != p[n]);
            assert(front[i] == out[i]);
        }
        assert forall|i: int, j: int| 0 <= i < j < q.len() implies #[trigger] q[i]
            != #[trigger] q[j] by {
            assert(p[i] != p[j]);
            assert(p[i] != p[n]);
            assert(p[j] != p[n]);
        }
        lemma_permuted(front, rest, q);
        lemma_taken_out(from, k);
        lemma_taken_out(out, n);
        assert(out.remove(n) =~= front);
        assert(out[n] == from[k]);
    }
}

/// Taking a value out and putting it in again changes nothing.
pub proof fn lemma_taken_out<T>(s: Seq<T>, k: int)
    requires
        0 <= k < s.len(),
    ensures
        s.to_multiset() == s.remove(k).to_multiset().insert(s[k]),
        s.remove(k).to_multiset() == s.to_multiset().remove(s[k]),
{
    broadcast use vstd::multiset::group_multiset_axioms;

    s.to_multiset_ensures();
    assert(s.contains(s[k]));
    assert(s.to_multiset().remove(s[k]).insert(s[k]) =~= s.to_multiset());
}

/// A value of one list is one of any list with the same values.
pub proof fn lemma_also_held<T>(s: Seq<T>, t: Seq<T>, x: T)
    requires
        s.to_multiset() == t.to_multiset(),
        s.contains(x),
    ensures
        t.contains(x),
        s.len() == t.len(),
{
    s.to_multiset_ensures();
    t.to_multiset_ensures();
    assert(s.to_multiset().count(x) > 0);
    assert(t.to_multiset().count(x) > 0);
}

/// What holds the same values still does so when each value is seen through `f`.
pub proof fn lemma_same_values_seen<T, U>(s: Seq<T>, t: Seq<T>, f: spec_fn(T) -> U)
    requires
        s.to_multiset() == t.to_multiset(),
    ensures
        s.map_values(f).to_multiset() == t.map_values(f).to_multiset(),
    decreases s.len(),
{
    s.to_multiset_ensures();
    t.to_multiset_ensures();
    if s.len() == 0 {
        assert(s =~= t);
    } else {
        let n = s.len() - 1;
        let x = s[n];
        lemma_also_held(s, t, x);
        let k = choose|k: int| 0 <= k < t.len() && t[k] == x;
        lemma_taken_out(s, n);
        lemma_taken_out(t, k);
        lemma_same_values_seen(s.remove(n), t.remove(k), f);
        let (u, v) = (s.map_values(f), t.map_values(f));
        lemma_taken_out(u, n);
        lemma_taken_out(v, k);
        assert(u.remove(n) =~= s.remove(n).map_values(f));
        assert(v.remove(k) =~= t.remove(k).map_values(f));
    }
}

/// `n` different numbers below `n` are all of them.
proof fn lemma_pigeonhole(p: Seq<int>, n: int, k: int)
    requires
        p.len() == n,
        forall|i: int| 0 <= i < n ==> 0 <= #[trigger] p[i] < n,
        forall|i: int, j: int| 0 <= i < j < n ==> #[trigger] p[i] != #[trigger] p[j],
        0 <= k < n,
    ensures
        exists|j: int| 0 <= j < n && #[trigger] p[j] == k,
{
    p.unique_seq_to_set();
    let all = vstd::set_lib::set_int_range(0, n);
    vstd::set_lib::lemma_int_range(0, n);
    assert(p.to_set().subset_of(all)) by {
        assert forall|x: int| p.to_set().contains(x) implies all.contains(x) by {
            let i = choose|i: int| 0 <= i < p.len() && p[i] == x;
            assert(0 <= p[i] < n);
        }
    }
    vstd::set_lib::lemma_subset_equality(p.to_set(), all);
    assert(p.to_set().contains(k));
}

/// Of the values that are asked for, one goes with the place that is taken out.
pub proof fn lemma_filter_without<T>(s: Seq<T>, k: int, f: spec_fn(T) -> bool)
    requires
        0 <= k < s.len(),
    ensures
        s.filter(f).len() == s.remove(k).filter(f).len() + if f(s[k]) {
            1int
        } else {
            0
        },
    decreases s.len(),
{
    reveal(Seq::filter);
    if k == s.len() - 1 {
        assert(s.remove(k) =~= s.drop_last());
    } else {
        lemma_filter_without(s.drop_last(), k, f);
        assert(s.remove(k).drop_last() =~= s.drop_last().remove(k));
        assert(s.remove(k).last() == s.last());
    }
}

/// How many values are as asked for does not depend on their order.
pub proof fn lemma_filter_ignores_order<T>(x: Seq<T>, y: Seq<T>, f: spec_fn(T) -> bool)
    requires
        x.to_multiset() == y.to_multiset(),
    ensures
        x.filter(f).len() == y.filter(f).len(),
    decreases x.len(),
{
    x.to_multiset_ensures();
    y.to_multiset_ensures();
    reveal(Seq::filter);
    if x.len() > 0 {
        let n = x.len() - 1;
        lemma_also_held(x, y, x[n]);
        let k = choose|k: int| 0 <= k < y.len() && y[k] == x[n];
        lemma_taken_out(x, n);
        lemma_taken_out(y, k);
        lemma_filter_ignores_order(x.remove(n), y.remove(k), f);
        lemma_filter_without(x, n, f);
        lemma_filter_without(y, k, f);
    }
}

/// Where only the first `k` values can be as asked for, there are no more than `k`
/// of them; where all of those are, there are no fewer.
pub proof fn lemma_filter_front<T>(s: Seq<T>, k: int, f: spec_fn(T) -> bool)
    requires
        0 <= k <= s.len(),
    ensures
        (forall|i: int| k <= i < s.len() ==> !f(#[trigger] s[i])) ==> s.filter(f).len() <= k,
        (forall|i: int| 0 <= i < k ==> f(#[trigger] s[i])) ==> s.filter(f).len() >= k,
    decreases s.len(),
{
    reveal(Seq::filter);
    if s.len() > 0 {
        if k < s.len() {
            lemma_filter_front(s.drop_last(), k, f);
            assert(s.last() == s[s.len() - 1]);
            if forall|i: int| k <= i < s.len() ==> !f(#[trigger] s[i]) {
                assert forall|i: int| k <= i < s.len() - 1 implies !f(#[trigger] s.drop_last()[i]) by {
                    assert(!f(s[i]));
                }
            }
            if forall|i: int| 0 <= i < k ==> f(#[trigger] s[i]) {
                assert forall|i: int| 0 <= i < k implies f(#[trigger] s.drop_last()[i]) by {
                    assert(f(s[i]));
                }
            }
        } else {
            lemma_filter_front(s.drop_last(), k - 1, f);
            if forall|i: int| 0 <= i < k ==> f(#[trigger] s[i]) {
                assert(f(s[k - 1]));
                assert forall|i: int| 0 <= i < k - 1 implies f(#[trigger] s.drop_last()[i]) by {
                    assert(f(s[i]));
                }
            }
        }
    }
}

/// Where only values from `k` on can be as asked for, there are no more of them
/// than those.
pub proof fn lemma_filter_back<T>(s: Seq<T>, k: int, f: spec_fn(T) -> bool)
    requires
        0 <= k <= s.len(),
        forall|i: int| 0 <= i < k ==> !f(#[trigger] s[i]),
    ensures
        s.filter(f).len() <= s.len() - k,
    decreases s.len(),
{
    reveal(Seq::filter);
    if s.len() > 0 {
        if k < s.len() {
            assert forall|i: int| 0 <= i < k implies !f(#[trigger] s.drop_last()[i]) by {
                assert(!f(s[i]));
            }
            lemma_filter_back(s.drop_last(), k, f);
        } else {
            assert(!f(s[k - 1]));
            assert forall|i: int| 0 <= i < k - 1 implies !f(#[trigger] s.drop_last()[i]) by {
                assert(!f(s[i]));
            }
            lemma_filter_back(s.drop_last(), k - 1, f);
        }
    }
}

/// What is asked for in the same words is there equally often.
pub proof fn lemma_filter_alike<T>(s: Seq<T>, f: spec_fn(T) -> bool, g: spec_fn(T) -> bool)
    requires
        forall|i: int| 0 <= i < s.len() ==> f(#[trigger] s[i]) == g(s[i]),
    ensures
        s.filter(f) == s.filter(g),
    decreases s.len(),
{
    reveal(Seq::filter);
    if s.len() > 0 {
        assert forall|i: int| 0 <= i < s.len() - 1 implies f(#[trigger] s.drop_last()[i]) == g(
            s.drop_last()[i],
        ) by {
            assert(f(s[i]) == g(s[i]));
        }
        lemma_filter_alike(s.drop_last(), f, g);
        assert(f(s[s.len() - 1]) == g(s[s.len() - 1]));
    }
}

/// No element is larger than a later one.
pub open spec fn ascending(s: Seq<u64>) -> bool {
    forall|i: int, j: int| 0 <= i <= j < s.len() ==> s[i] <= s[j]
}

/// `slice::sort_unstable` on integers: afterwards the same values stand in
/// ascending order.
#[verifier::external_body]
pub(crate) fn sort_numbers(v: &mut Vec<u64>)
    ensures
        ascending(final(v)@),
        final(v)@.to_multiset() == old(v)@.to_multiset(),
{
    v.sort_unstable();
}

} // verus!
