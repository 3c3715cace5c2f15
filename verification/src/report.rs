//! The single-pane answer to: "how fast and useful is the link between these
//! two computers, for ML work?" — units, statistics and verdicts. Numbers are
//! divided and rounded by the caller; which of them are shown, in which unit,
//! and what they mean is decided here.

use crate::bench::{IdleGap, LatencyPoint, Results, KIB, MIB};
use crate::measure::{
    law_half_is_half, law_rank_orders_numbers, reading, Figure, Reading, EXPONENT_STEP, INFINITY_BITS,
    SIGN_BIT,
};
use crate::order::{
    arranged, lemma_also_held, lemma_arranged_same_values, lemma_filter_alike, lemma_filter_back,
    lemma_filter_front, lemma_filter_ignores_order, lemma_same_values_seen, lemma_taken_out,
    sort_stable,
};
use crate::text::{dec, decimal};
use vstd::arithmetic::power2::{lemma2_to64, lemma2_to64_rest, lemma_pow2_adds, pow2};
use vstd::math::abs;
use vstd::prelude::*;

verus! {

// -------------------------------------------------------------------- units

pub open spec fn size_text(b: nat) -> Seq<char> {
    if b >= MIB {
        dec(b / (MIB as nat)) + " MiB"@
    } else if b >= KIB {
        dec(b / (KIB as nat)) + " KiB"@
    } else {
        dec(b) + " B"@
    }
}

pub fn fmt_size(b: u64) -> (r: String)
    ensures
        r@ == size_text(b as nat),
{
    if b >= MIB {
        decimal(b / MIB).concat(" MiB")
    } else if b >= KIB {
        decimal(b / KIB).concat(" KiB")
    } else {
        decimal(b).concat(" B")
    }
}

/// A transfer rate, with how it reads in the units it may be shown in.
#[derive(Debug, Clone)]
pub struct Rate {
    /// Bytes per second.
    pub bps: Reading,
    /// Bits per second.
    pub bits: Reading,
    pub kilobytes: Figure,
    pub megabytes: Figure,
    pub gigabytes: Figure,
    pub megabits: Figure,
    pub gigabits: Figure,
}

pub const MEGA: u64 = 0x412e_8480_0000_0000;

pub const GIGABIT: u64 = 0x419d_cd65_0000_0000;

pub const GIGA: u64 = 0x41cd_cd65_0000_0000;

pub open spec fn bytes_text(rate: Rate) -> Seq<char> {
    if reading(GIGA).le(rate.bps) {
        rate.gigabytes.d2@ + " GB"@
    } else if reading(MEGA).le(rate.bps) {
        rate.megabytes.d1@ + " MB"@
    } else {
        rate.kilobytes.d0@ + " kB"@
    }
}

pub fn fmt_bytes(rate: &Rate) -> (r: String)
    ensures
        r@ == bytes_text(*rate),
{
    if reading(GIGA).at_most(&rate.bps) {
        rate.gigabytes.d2.clone().concat(" GB")
    } else if reading(MEGA).at_most(&rate.bps) {
        rate.megabytes.d1.clone().concat(" MB")
    } else {
        rate.kilobytes.d0.clone().concat(" kB")
    }
}

/// Below 1 Gb/s a rate is not worth showing in Gb.
pub open spec fn rate_text(rate: Rate) -> Seq<char> {
    if reading(GIGA).le(rate.bps) {
        rate.gigabytes.d2@ + " GB/s ("@ + rate.gigabits.d1@ + " Gb/s)"@
    } else if reading(GIGABIT).le(rate.bps) {
        rate.megabytes.d0@ + " MB/s ("@ + rate.gigabits.d2@ + " Gb/s)"@
    } else if reading(MEGA).le(rate.bps) {
        rate.megabytes.d1@ + " MB/s ("@ + rate.megabits.d0@ + " Mb/s)"@
    } else {
        rate.kilobytes.d0@ + " kB/s"@
    }
}

/// A transfer rate in both units: bytes/s (tool-native) and bits/s (how links
/// are marketed): "6.93 GB/s (55.4 Gb/s)".
pub fn fmt_rate(rate: &Rate) -> (r: String)
    ensures
        r@ == rate_text(*rate),
{
    if reading(GIGA).at_most(&rate.bps) {
        rate.gigabytes.d2.clone().concat(" GB/s (").concat(rate.gigabits.d1.as_str()).concat(
            " Gb/s)",
        )
    } else if reading(GIGABIT).at_most(&rate.bps) {
        rate.megabytes.d0.clone().concat(" MB/s (").concat(rate.gigabits.d2.as_str()).concat(
            " Gb/s)",
        )
    } else if reading(MEGA).at_most(&rate.bps) {
        rate.megabytes.d1.clone().concat(" MB/s (").concat(rate.megabits.d0.as_str()).concat(
            " Mb/s)",
        )
    } else {
        rate.kilobytes.d0.clone().concat(" kB/s")
    }
}

pub open spec fn bits_text(rate: Rate) -> Seq<char> {
    if reading(GIGA).le(rate.bits) {
        rate.gigabits.d1@ + " Gb/s"@
    } else {
        rate.megabits.d0@ + " Mb/s"@
    }
}

/// Just the bits/s view: "55.4 Gb/s".
pub fn fmt_bits(rate: &Rate) -> (r: String)
    ensures
        r@ == bits_text(*rate),
{
    if reading(GIGA).at_most(&rate.bits) {
        rate.gigabits.d1.clone().concat(" Gb/s")
    } else {
        rate.megabits.d0.clone().concat(" Mb/s")
    }
}

// ----------------------------------------------------------------- timelines

/// Statistics of the steady part of a timeline.
#[derive(Debug, Clone, Copy, PartialEq, Eq, Structural)]
pub struct TimelineStats {
    pub median: Reading,
    pub p5: Reading,
    pub min: Reading,
    /// Buckets below half the median.
    pub stalls: usize,
}

/// Where the steady part ends. 0 means "unknown" (older results): only the
/// trailing partial bucket is then left out.
pub open spec fn steady_end(len: int, steady: int) -> int {
    if steady == 0 {
        if len > 0 {
            len - 1
        } else {
            0
        }
    } else if steady < len {
        steady
    } else {
        len
    }
}

/// The steady part: the first bucket (partial) and everything from the end of
/// the steady window on (lane wind-down) are excluded.
pub open spec fn steady_part(buckets: Seq<Reading>, steady: int) -> Seq<Reading> {
    buckets.subrange(1, steady_end(buckets.len() as int, steady))
}

pub open spec fn measured(buckets: Seq<Reading>, steady: int) -> bool {
    steady_end(buckets.len() as int, steady) >= 5
}

pub open spec fn below(s: Seq<Reading>, limit: Reading) -> int
    decreases s.len(),
{
    if s.len() == 0 {
        0
    } else {
        below(s.drop_last(), limit) + if s.last().lt(limit) {
            1int
        } else {
            0
        }
    }
}

pub const ZERO: u64 = 0;

/// `s` are the statistics of `sorted`, which holds the values of `mid` in
/// ascending order.
pub open spec fn summarizes(
    s: Option<TimelineStats>,
    mid: Seq<Reading>,
    sorted: Seq<Reading>,
) -> bool {
    let n = sorted.len() as int;
    let median = sorted[n / 2];
    match s {
        Some(t) => {
            &&& !median.le(reading(ZERO))
            &&& t.median == median
            &&& t.p5 == sorted[n / 20]
            &&& t.min == sorted[0]
            &&& t.stalls == below(mid, median.half_of())
        },
        None => median.le(reading(ZERO)),
    }
}

/// `s` is what a timeline says of its stability: nothing, where the steady part
/// is too short or carries nothing.
pub open spec fn stats_of(s: Option<TimelineStats>, buckets: Seq<Reading>, steady: int) -> bool {
    if measured(buckets, steady) {
        exists|sorted: Seq<Reading>, p: Seq<int>| #[trigger]
            arranged(sorted, steady_part(buckets, steady), p) && summarizes(
                s,
                steady_part(buckets, steady),
                sorted,
            )
    } else {
        s is None
    }
}

/// Every bucket of the steady part is a number.
pub open spec fn numeric(buckets: Seq<Reading>, steady: int) -> bool {
    measured(buckets, steady) ==> forall|i: int|
        1 <= i < steady_end(buckets.len() as int, steady) ==> !(#[trigger] buckets[i]).nan()
}

/// Stats over the steady portion of a timeline.
pub fn timeline_stats(buckets: &Vec<Reading>, steady: usize) -> (r: Option<TimelineStats>)
    requires
        numeric(buckets@, steady as int),
    ensures
        stats_of(r, buckets@, steady as int),
{
    let len = buckets.len();
    let end: usize = if steady == 0 {
        if len > 0 {
            len - 1
        } else {
            0
        }
    } else if steady < len {
        steady
    } else {
        len
    };
    if end < 5 {
        return None;
    }
    let ghost mid = steady_part(buckets@, steady as int);
    let mut copy: Vec<Reading> = Vec::new();
    let mut i: usize = 1;
    while i < end
        invariant
            1 <= i <= end,
            end <= buckets@.len(),
            copy@ =~= buckets@.subrange(1, i as int),
        decreases end - i,
    {
        copy.push(buckets[i]);
        i += 1;
    }
    assert(copy@ =~= mid);
    let sorted = sort_stable(copy);
    let n = sorted.len();
    assert(n == end - 1);
    let median = sorted[n / 2];
    let p5 = sorted[n / 20];
    let min = sorted[0];
    if median.at_most(&reading(ZERO)) {
        return None;
    }
    let limit = median.half();
    let mut stalls: usize = 0;
    let mut k: usize = 0;
    assert(mid.take(0) =~= Seq::empty());
    while k < end - 1
        invariant
            k <= end - 1,
            end <= buckets@.len(),
            end >= 5,
            mid == buckets@.subrange(1, end as int),
            stalls == below(mid.take(k as int), limit),
            stalls <= k,
        decreases end - k,
    {
        proof {
            assert(mid.take(k + 1).drop_last() =~= mid.take(k as int));
            assert(mid.take(k + 1).last() == buckets@[k + 1]);
        }
        if buckets[k + 1].less(&limit) {
            stalls += 1;
        }
        k += 1;
    }
    assert(mid.take(k as int) =~= mid);
    Some(TimelineStats { median, p5, min, stalls })
}

/// The median of a timeline lies between its extremes, and its low percentile
/// between the smallest bucket and the median.
pub proof fn law_stats_are_ordered(s: TimelineStats, buckets: Seq<Reading>, steady: int)
    requires
        stats_of(Some(s), buckets, steady),
    ensures
        s.min.rank() <= s.p5.rank() <= s.median.rank(),
        forall|i: int|
            1 <= i < steady_end(buckets.len() as int, steady) ==> s.min.rank() <= (
            #[trigger] buckets[i]).rank(),
{
    let mid = steady_part(buckets, steady);
    let (sorted, p) = choose|sorted: Seq<Reading>, p: Seq<int>| #[trigger]
        arranged(sorted, mid, p) && summarizes(Some(s), mid, sorted);
    let n = sorted.len() as int;
    assert(n >= 4);
    assert(0 <= n / 20 <= n / 2 < n);
    assert forall|j: int| 0 <= j < n implies sorted[0].rank() <= (#[trigger] sorted[j]).rank() by {
        if j > 0 {
            assert(crate::order::in_order(sorted, p, 0, j));
        }
    }
    if n / 20 < n / 2 {
        assert(crate::order::in_order(sorted, p, n / 20, n / 2));
    }
    assert forall|i: int|
        1 <= i < steady_end(buckets.len() as int, steady) implies s.min.rank() <= (
    #[trigger] buckets[i]).rank() by {
        assert(mid[i - 1] == buckets[i]);
        crate::order::lemma_arranged_keeps(sorted, mid, p, i - 1);
        let j = choose|j: int| 0 <= j < p.len() && #[trigger] p[j] == i - 1;
        assert(sorted[j] == mid[i - 1]);
    }
}

/// Statistics that are the same as numbers. The median of a timeline that has any
/// is above 0 and so the same to the bit.
pub open spec fn same_stats(s: Option<TimelineStats>, t: Option<TimelineStats>) -> bool {
    match (s, t) {
        (Some(x), Some(y)) => x.median == y.median && x.p5.rank() == y.p5.rank() && x.min.rank()
            == y.min.rank() && x.stalls == y.stalls,
        (None, None) => true,
        _ => false,
    }
}

/// The order of the steady buckets does not matter, nor what stands outside the
/// steady part: timelines with the same values there have the same statistics, to
/// the bit where none of the values is a negative zero.
pub proof fn law_stats_ignore_order(
    s: Option<TimelineStats>,
    a: Seq<Reading>,
    steady_a: int,
    t: Option<TimelineStats>,
    b: Seq<Reading>,
    steady_b: int,
)
    requires
        stats_of(s, a, steady_a),
        stats_of(t, b, steady_b),
        steady_end(a.len() as int, steady_a) == steady_end(b.len() as int, steady_b),
        measured(a, steady_a) ==> steady_part(a, steady_a).to_multiset() == steady_part(
            b,
            steady_b,
        ).to_multiset(),
    ensures
        same_stats(s, t),
        (forall|i: int|
            0 <= i < steady_part(a, steady_a).len() ==> (#[trigger] steady_part(
                a,
                steady_a,
            )[i]).bits != SIGN_BIT) ==> s == t,
{
    if measured(a, steady_a) {
        lemma_stats_ignore_order(s, a, steady_a, t, b, steady_b);
    }
}

proof fn lemma_stats_ignore_order(
    s: Option<TimelineStats>,
    a: Seq<Reading>,
    steady_a: int,
    t: Option<TimelineStats>,
    b: Seq<Reading>,
    steady_b: int,
)
    requires
        stats_of(s, a, steady_a),
        stats_of(t, b, steady_b),
        measured(a, steady_a),
        measured(b, steady_b),
        steady_part(a, steady_a).to_multiset() == steady_part(b, steady_b).to_multiset(),
    ensures
        same_stats(s, t),
        (forall|i: int|
            0 <= i < steady_part(a, steady_a).len() ==> (#[trigger] steady_part(
                a,
                steady_a,
            )[i]).bits != SIGN_BIT) ==> s == t,
{
    let (x, y) = (steady_part(a, steady_a), steady_part(b, steady_b));
    let (u, p) = choose|sorted: Seq<Reading>, p: Seq<int>| #[trigger]
        arranged(sorted, x, p) && summarizes(s, x, sorted);
    let (v, q) = choose|sorted: Seq<Reading>, p: Seq<int>| #[trigger]
        arranged(sorted, y, p) && summarizes(t, y, sorted);
    lemma_arranged_same_values(u, x, p);
    lemma_arranged_same_values(v, y, q);
    lemma_same_ranks(u, p, x, v, q, y);
    let n = u.len() as int;
    assert(n >= 4);
    assert(0 <= n / 20 < n && 0 <= n / 2 < n);
    lemma_rank_is_value(u[n / 2], v[n / 2]);
    if s is Some {
        lemma_below_ignores_order(x, y, u[n / 2].half_of());
    }
    if forall|i: int| 0 <= i < x.len() ==> (#[trigger] x[i]).bits != SIGN_BIT {
        assert forall|i: int| 0 <= i < n implies u[i] == v[i] by {
            assert(x[p[i]] == u[i]);
            assert(y[q[i]] == v[i]);
            assert(y.contains(v[i]));
            lemma_also_held(y, x, v[i]);
            let k = choose|k: int| 0 <= k < x.len() && x[k] == v[i];
            assert(x[k].bits != SIGN_BIT);
            lemma_rank_is_value(u[i], v[i]);
        }
    }
}

/// Apart from the two zeros, a position names one reading.
proof fn lemma_rank_is_value(a: Reading, b: Reading)
    requires
        a.rank() == b.rank(),
    ensures
        a.rank() != 0 ==> a == b,
        a.bits != SIGN_BIT && b.bits != SIGN_BIT ==> a == b,
        a.nan() == b.nan(),
{
}

/// Two lists of the same values are alike in order, position by position.
proof fn lemma_same_ranks(
    u: Seq<Reading>,
    p: Seq<int>,
    x: Seq<Reading>,
    v: Seq<Reading>,
    q: Seq<int>,
    y: Seq<Reading>,
)
    requires
        arranged(u, x, p),
        arranged(v, y, q),
        u.to_multiset() == v.to_multiset(),
    ensures
        u.len() == v.len(),
        forall|i: int| 0 <= i < u.len() ==> (#[trigger] u[i]).rank() == v[i].rank(),
{
    let rank = |r: Reading| r.rank();
    let leq = |a: int, b: int| a <= b;
    let (f, g) = (u.map_values(rank), v.map_values(rank));
    lemma_same_values_seen(u, v, rank);
    lemma_ascending_ranks(u, p, x);
    lemma_ascending_ranks(v, q, y);
    assert(vstd::relations::total_ordering(leq));
    vstd::seq_lib::lemma_sorted_unique(f, g, leq);
    assert forall|i: int| 0 <= i < u.len() implies (#[trigger] u[i]).rank() == v[i].rank() by {
        assert(f[i] == g[i]);
    }
}

proof fn lemma_ascending_ranks(u: Seq<Reading>, p: Seq<int>, x: Seq<Reading>)
    requires
        arranged(u, x, p),
    ensures
        vstd::relations::sorted_by(u.map_values(|r: Reading| r.rank()), |a: int, b: int| a <= b),
{
    let f = u.map_values(|r: Reading| r.rank());
    assert forall|i: int, j: int| 0 <= i < j < f.len() implies #[trigger] f[i]
        <= #[trigger] f[j] by {
        assert(crate::order::in_order(u, p, i, j));
    }
}

/// How many values lie below a limit does not depend on their order.
proof fn lemma_below_ignores_order(x: Seq<Reading>, y: Seq<Reading>, limit: Reading)
    requires
        x.to_multiset() == y.to_multiset(),
    ensures
        below(x, limit) == below(y, limit),
    decreases x.len(),
{
    x.to_multiset_ensures();
    y.to_multiset_ensures();
    if x.len() > 0 {
        let n = x.len() - 1;
        lemma_also_held(x, y, x[n]);
        let k = choose|k: int| 0 <= k < y.len() && y[k] == x[n];
        lemma_taken_out(x, n);
        lemma_taken_out(y, k);
        lemma_below_ignores_order(x.remove(n), y.remove(k), limit);
        lemma_below_without(x, n, limit);
        lemma_below_without(y, k, limit);
    }
}

proof fn lemma_below_without(s: Seq<Reading>, k: int, limit: Reading)
    requires
        0 <= k < s.len(),
    ensures
        below(s, limit) == below(s.remove(k), limit) + if s[k].lt(limit) {
            1int
        } else {
            0
        },
    decreases s.len(),
{
    if k == s.len() - 1 {
        assert(s.remove(k) =~= s.drop_last());
    } else {
        lemma_below_without(s.drop_last(), k, limit);
        assert(s.remove(k).drop_last() =~= s.drop_last().remove(k));
        assert(s.remove(k).last() == s.last());
    }
}

/// The wind-down is shown but never counted: where the steady window is known and
/// ends before the timeline does, buckets from `steady` on may be anything, and any
/// number of them, and so may the first; the statistics stay what they are.
pub proof fn law_wind_down_is_not_counted(
    s: Option<TimelineStats>,
    a: Seq<Reading>,
    t: Option<TimelineStats>,
    b: Seq<Reading>,
    steady: int,
)
    requires
        0 < steady <= a.len(),
        steady <= b.len(),
        forall|i: int| 1 <= i < steady ==> #[trigger] a[i] == b[i],
        stats_of(s, a, steady),
        stats_of(t, b, steady),
    ensures
        s is Some <==> t is Some,
        s is Some ==> s->0.median == t->0.median && s->0.p5.rank() == t->0.p5.rank()
            && s->0.min.rank() == t->0.min.rank() && s->0.stalls == t->0.stalls,
{
    if measured(a, steady) {
        assert(steady_part(a, steady) =~= steady_part(b, steady));
    }
    law_stats_ignore_order(s, a, steady, t, b, steady);
}

/// Every bucket of the window counts, the first one aside. The window ends at
/// `steady`, at the end of a shorter timeline, or before the last bucket where it
/// is not known. The least bucket of it is the minimum; half of it lies on either
/// side of the median; a twentieth lies below the low percentile; and a stall is a
/// bucket below half the median.
pub proof fn law_every_bucket_of_the_window_counts(
    s: TimelineStats,
    buckets: Seq<Reading>,
    steady: int,
    end: int,
)
    requires
        (0 < steady <= buckets.len() && end == steady) || (steady > buckets.len() && end
            == buckets.len()) || (steady == 0 && end == buckets.len() - 1),
        forall|i: int| 1 <= i < end ==> !(#[trigger] buckets[i]).nan(),
        stats_of(Some(s), buckets, steady),
    ensures
        end >= 5,
        ({
            let win = buckets.subrange(1, end);
            let n = win.len();
            &&& win.contains(s.median) && win.contains(s.p5) && win.contains(s.min)
            &&& s.median.rank() > 0
            &&& win.filter(|x: Reading| x.rank() < s.min.rank()).len() == 0
            &&& 2 * win.filter(|x: Reading| x.rank() < s.median.rank()).len() <= n
            &&& 2 * win.filter(|x: Reading| x.rank() > s.median.rank()).len() < n
            &&& 20 * win.filter(|x: Reading| x.rank() < s.p5.rank()).len() <= n
            &&& 20 * win.filter(|x: Reading| x.rank() <= s.p5.rank()).len() > n
            &&& (s.median.magnitude() >= 2 * EXPONENT_STEP && forall|i: int|
                1 <= i < end ==> (#[trigger] buckets[i]).finite()) ==> s.stalls == win.filter(
                |x: Reading| 2 * x.finite_value() < s.median.finite_value(),
            ).len()
        }),
{
    let win = buckets.subrange(1, end);
    assert(win =~= steady_part(buckets, steady));
    let (sorted, p) = choose|sorted: Seq<Reading>, p: Seq<int>| #[trigger]
        arranged(sorted, win, p) && summarizes(Some(s), win, sorted);
    let n = sorted.len() as int;
    assert(n >= 4);
    assert(0 <= n / 20 < n && 0 <= n / 2 < n);
    lemma_arranged_same_values(sorted, win, p);
    lemma_place_in_order(sorted, p, win, 0);
    lemma_place_in_order(sorted, p, win, n / 2);
    lemma_place_in_order(sorted, p, win, n / 20);
    assert(!s.median.nan()) by {
        assert(win[p[n / 2]] == sorted[n / 2]);
        assert(buckets[p[n / 2] + 1] == win[p[n / 2]]);
    }
    if s.median.magnitude() >= 2 * EXPONENT_STEP && forall|i: int|
        1 <= i < end ==> (#[trigger] buckets[i]).finite() {
        let half = s.median.half_of();
        assert(s.median.finite()) by {
            assert(buckets[p[n / 2] + 1] == win[p[n / 2]]);
        }
        law_half_is_half(s.median);
        lemma_below_is_filter(win, half);
        let f = |x: Reading| x.lt(half);
        let g = |x: Reading| 2 * x.finite_value() < s.median.finite_value();
        assert forall|i: int| 0 <= i < win.len() implies f(#[trigger] win[i]) == g(win[i]) by {
            assert(win[i] == buckets[i + 1]);
            law_rank_orders_numbers(win[i], half);
        }
        lemma_filter_alike(win, f, g);
    }
}

/// In a list in order, no more than `k` values lie below the one at place `k`, and
/// no more above it than come after it.
proof fn lemma_place_in_order(sorted: Seq<Reading>, p: Seq<int>, win: Seq<Reading>, k: int)
    requires
        arranged(sorted, win, p),
        0 <= k < sorted.len(),
        sorted.to_multiset() == win.to_multiset(),
    ensures
        win.contains(sorted[k]),
        win.filter(|x: Reading| x.rank() < sorted[k].rank()).len() <= k,
        win.filter(|x: Reading| x.rank() > sorted[k].rank()).len() <= sorted.len() - 1 - k,
        win.filter(|x: Reading| x.rank() <= sorted[k].rank()).len() >= k + 1,
{
    let less = |x: Reading| x.rank() < sorted[k].rank();
    let more = |x: Reading| x.rank() > sorted[k].rank();
    let upto = |x: Reading| x.rank() <= sorted[k].rank();
    assert(win[p[k]] == sorted[k]);
    assert forall|i: int| k <= i < sorted.len() implies !less(#[trigger] sorted[i]) by {
        if i > k {
            assert(crate::order::in_order(sorted, p, k, i));
        }
    }
    assert forall|i: int| 0 <= i < k + 1 implies upto(#[trigger] sorted[i]) && !more(sorted[i]) by {
        if i < k {
            assert(crate::order::in_order(sorted, p, i, k));
        }
    }
    lemma_filter_front(sorted, k, less);
    lemma_filter_front(sorted, k + 1, upto);
    lemma_filter_back(sorted, k + 1, more);
    lemma_filter_ignores_order(sorted, win, less);
    lemma_filter_ignores_order(sorted, win, more);
    lemma_filter_ignores_order(sorted, win, upto);
}

proof fn lemma_below_is_filter(s: Seq<Reading>, limit: Reading)
    ensures
        below(s, limit) == s.filter(|x: Reading| x.lt(limit)).len(),
    decreases s.len(),
{
    reveal(Seq::filter);
    if s.len() > 0 {
        lemma_below_is_filter(s.drop_last(), limit);
    }
}

/// A timeline says nothing exactly where its window holds fewer than four buckets
/// besides the first, or where more than half of them carried nothing.
pub proof fn law_when_a_timeline_says_nothing(
    s: Option<TimelineStats>,
    buckets: Seq<Reading>,
    steady: int,
    end: int,
)
    requires
        (0 < steady <= buckets.len() && end == steady) || (steady > buckets.len() && end
            == buckets.len()) || (steady == 0 && buckets.len() > 0 && end == buckets.len() - 1),
        forall|i: int| 1 <= i < end ==> !(#[trigger] buckets[i]).nan(),
        stats_of(s, buckets, steady),
    ensures
        end < 5 ==> s is None,
        end >= 5 ==> (s is None <==> 2 * buckets.subrange(1, end).filter(
            |x: Reading| x.rank() <= 0,
        ).len() > end - 1),
{
    if end >= 5 {
        let win = buckets.subrange(1, end);
        assert(win =~= steady_part(buckets, steady));
        let (sorted, p) = choose|sorted: Seq<Reading>, p: Seq<int>| #[trigger]
            arranged(sorted, win, p) && summarizes(s, win, sorted);
        let n = sorted.len() as int;
        assert(0 <= n / 2 < n);
        lemma_arranged_same_values(sorted, win, p);
        let idle = |x: Reading| x.rank() <= 0;
        lemma_filter_ignores_order(sorted, win, idle);
        assert(!sorted[n / 2].nan()) by {
            assert(win[p[n / 2]] == sorted[n / 2]);
            assert(buckets[p[n / 2] + 1] == win[p[n / 2]]);
        }
        if s is None {
            assert forall|i: int| 0 <= i < n / 2 + 1 implies idle(#[trigger] sorted[i]) by {
                if i < n / 2 {
                    assert(crate::order::in_order(sorted, p, i, n / 2));
                }
            }
            lemma_filter_front(sorted, n / 2 + 1, idle);
        } else {
            assert forall|i: int| n / 2 <= i < n implies !idle(#[trigger] sorted[i]) by {
                if i > n / 2 {
                    assert(crate::order::in_order(sorted, p, n / 2, i));
                }
            }
            lemma_filter_front(sorted, n / 2, idle);
        }
    }
}

// -------------------------------------------------------------- temperatures

/// The hottest reading of a series, on top of what was seen before.
pub open spec fn hottest_in(so_far: Option<Reading>, series: Seq<Reading>) -> Option<Reading>
    decreases series.len(),
{
    if series.len() == 0 {
        so_far
    } else {
        match hottest_in(so_far, series.drop_last()) {
            None => Some(series.last()),
            Some(a) => Some(a.max_of(series.last())),
        }
    }
}

pub open spec fn hottest_overall(r: Results) -> Option<Reading> {
    hottest_in(
        hottest_in(
            hottest_in(hottest_in(None, r.temps_a_sys@), r.temps_a_nic@),
            r.temps_b_sys@,
        ),
        r.temps_b_nic@,
    )
}

pub fn hottest_reading(so_far: Option<Reading>, series: &Vec<Reading>) -> (r: Option<Reading>)
    ensures
        r == hottest_in(so_far, series@),
{
    let mut best = so_far;
    let n = series.len();
    let mut i: usize = 0;
    assert(series@.take(0) =~= Seq::empty());
    while i < n
        invariant
            i <= n,
            n == series@.len(),
            best == hottest_in(so_far, series@.take(i as int)),
        decreases n - i,
    {
        proof {
            assert(series@.take(i + 1).drop_last() =~= series@.take(i as int));
        }
        best = match best {
            None => Some(series[i]),
            Some(a) => Some(a.max(&series[i])),
        };
        i += 1;
    }
    assert(series@.take(n as int) =~= series@);
    best
}

proof fn lemma_hottest_some(so_far: Reading, series: Seq<Reading>)
    ensures
        hottest_in(Some(so_far), series) is Some,
    decreases series.len(),
{
    if series.len() > 0 {
        lemma_hottest_some(so_far, series.drop_last());
    }
}

pub fn max_temp(r: &Results) -> (t: Option<Reading>)
    ensures
        t == hottest_overall(*r),
{
    let a = hottest_reading(None, &r.temps_a_sys);
    let b = hottest_reading(a, &r.temps_a_nic);
    let c = hottest_reading(b, &r.temps_b_sys);
    hottest_reading(c, &r.temps_b_nic)
}

/// The lowest finite binary32 number, below which no temperature is told.
pub const LOWEST_TEMP: u64 = 0xc7ef_ffff_e000_0000;

/// The first and the highest reading of a series. Where none of them is a number
/// above it, the highest counts as the lowest finite temperature.
pub fn temp_span(series: &Vec<Reading>) -> (r: Option<(Reading, Reading)>)
    ensures
        series@.len() == 0 ==> r is None,
        series@.len() > 0 ==> r == Some(
            (series@[0], hottest_in(Some(reading(LOWEST_TEMP)), series@)->0),
        ),
{
    if series.len() == 0 {
        return None;
    }
    proof {
        lemma_hottest_some(reading(LOWEST_TEMP), series@);
    }
    match hottest_reading(Some(reading(LOWEST_TEMP)), series) {
        Some(t) => Some((series[0], t)),
        None => None,
    }
}

// ---------------------------------------------------------- selected samples

pub open spec fn distance(a: int, b: int) -> int {
    if a < b {
        b - a
    } else {
        a - b
    }
}

/// The sample at `i` is nearest to `target` bytes, the first such.
pub open spec fn nearest(points: Seq<LatencyPoint>, target: int, i: int) -> bool {
    &&& 0 <= i < points.len()
    &&& forall|j: int|
        0 <= j < points.len() ==> distance(points[i].size as int, target) <= distance(
            (#[trigger] points[j]).size as int,
            target,
        )
    &&& forall|j: int|
        0 <= j < i ==> distance(points[i].size as int, target) < distance(
            (#[trigger] points[j]).size as int,
            target,
        )
}

/// The latency sample nearest `target` bytes, by its index: a sweep that skips
/// the exact size still has an answer.
pub fn latency_near(r: &Results, target: u64) -> (i: Option<usize>)
    ensures
        match i {
            Some(k) => nearest(r.latency@, target as int, k as int),
            None => r.latency@.len() == 0,
        },
{
    let n = r.latency.len();
    if n == 0 {
        return None;
    }
    let mut best: usize = 0;
    let mut k: usize = 1;
    while k < n
        invariant
            1 <= k <= n,
            n == r.latency@.len(),
            best < k,
            forall|j: int|
                0 <= j < k ==> distance(r.latency@[best as int].size as int, target as int)
                    <= distance((#[trigger] r.latency@[j]).size as int, target as int),
            forall|j: int|
                0 <= j < best ==> distance(r.latency@[best as int].size as int, target as int)
                    < distance((#[trigger] r.latency@[j]).size as int, target as int),
        decreases n - k,
    {
        let a = r.latency[k].size;
        let b = r.latency[best].size;
        let da: u64 = if a < target {
            target - a
        } else {
            a - target
        };
        let db: u64 = if b < target {
            target - b
        } else {
            b - target
        };
        if da < db {
            best = k;
        }
        k += 1;
    }
    Some(best)
}

/// There is no more than one nearest sample.
pub proof fn law_nearest_is_unique(points: Seq<LatencyPoint>, target: int, i: int, j: int)
    requires
        nearest(points, target, i),
        nearest(points, target, j),
    ensures
        i == j,
{
    if i < j {
        assert(distance(points[j].size as int, target) < distance(points[i].size as int, target));
    } else if j < i {
        assert(distance(points[i].size as int, target) < distance(points[j].size as int, target));
    }
}

/// The pause that counts as long.
pub const LONG_GAP_MS: u64 = 100;

/// The first long pause is at `i`.
pub open spec fn first_long(gaps: Seq<IdleGap>, i: int) -> bool {
    &&& 0 <= i < gaps.len()
    &&& gaps[i].gap_ms >= LONG_GAP_MS
    &&& forall|j: int| 0 <= j < i ==> (#[trigger] gaps[j]).gap_ms < LONG_GAP_MS
}

pub open spec fn no_long(gaps: Seq<IdleGap>) -> bool {
    forall|j: int| 0 <= j < gaps.len() ==> (#[trigger] gaps[j]).gap_ms < LONG_GAP_MS
}

/// Whether wake-up after idle was measured: there is a first pause and a long one.
pub open spec fn woke(gaps: Seq<IdleGap>) -> bool {
    !no_long(gaps)
}

/// The two pauses that wake-up lag is the difference of: the first, and the
/// first long one.
pub fn wake_pair(r: &Results) -> (p: Option<(usize, usize)>)
    ensures
        p is Some <==> woke(r.idle_gaps@),
        p matches Some((hot, cold)) ==> hot == 0 && first_long(r.idle_gaps@, cold as int),
{
    let n = r.idle_gaps.len();
    let mut i: usize = 0;
    while i < n
        invariant
            i <= n,
            n == r.idle_gaps@.len(),
            forall|j: int| 0 <= j < i ==> (#[trigger] r.idle_gaps@[j]).gap_ms < LONG_GAP_MS,
        decreases n - i,
    {
        if r.idle_gaps[i].gap_ms >= LONG_GAP_MS {
            return Some((0, i));
        }
        i += 1;
    }
    None
}

// ----------------------------------------------------------------- verdicts

#[derive(Debug, Clone)]
pub enum Grade {
    Good(String),
    Fair(String),
    Poor(String),
}

/// How good a thing is.
#[derive(Debug, Clone, Copy, PartialEq, Eq, Structural)]
pub enum Level {
    Good,
    Fair,
    Poor,
}

/// Thresholds, as readings.
pub const N3: u64 = 0x4008_0000_0000_0000;

/// Inflation from which on serving under load is poor. The score penalizes by
/// the same threshold, so that the narrative and the number never disagree.
pub const BLOAT_POOR_X: u64 = 0x4024_0000_0000_0000;

pub const N10: u64 = 0x4024_0000_0000_0000;

pub const N20: u64 = 0x4034_0000_0000_0000;

pub const N30: u64 = 0x403e_0000_0000_0000;

pub const N40: u64 = 0x4044_0000_0000_0000;

pub const N50: u64 = 0x4049_0000_0000_0000;

pub const N80: u64 = 0x4054_0000_0000_0000;

pub const N92: u64 = 0x4057_0000_0000_0000;

pub const N150: u64 = 0x4062_c000_0000_0000;

/// Wake-up lag, in µs, from which on it is poor; shared with the score.
pub const WAKEUP_POOR_US: u64 = 0x4069_0000_0000_0000;

pub const FOUR_GIGA: u64 = 0x41ed_cd65_0000_0000;

pub const FIVE_GIGA: u64 = 0x41f2_a05f_2000_0000;

/// The reading is the whole number `k`.
pub open spec fn is_number(x: Reading, k: int) -> bool {
    x.finite() && x.finite_value() == k * pow2(1074)
}

proof fn lemma_number(x: Reading, k: int, scale: nat)
    requires
        x.finite(),
        x.bits < 0x8000_0000_0000_0000,
        x.magnitude() / 0x10_0000_0000_0000 == 1075 - scale,
        scale <= 1074,
        0x10_0000_0000_0000 + x.magnitude() % 0x10_0000_0000_0000 == k * pow2(scale),
    ensures
        is_number(x, k),
{
    let e = x.magnitude() / 0x10_0000_0000_0000;
    lemma_pow2_adds(scale, (e - 1) as nat);
    let (a, b) = (pow2(scale) as int, pow2((e - 1) as nat) as int);
    assert((k * a) * b == k * (a * b)) by (nonlinear_arith);
}

/// The thresholds are the numbers they are called after.
pub proof fn law_thresholds()
    ensures
        is_number(reading(N3), 3),
        is_number(reading(BLOAT_POOR_X), 10),
        is_number(reading(N10), 10),
        is_number(reading(N20), 20),
        is_number(reading(N30), 30),
        is_number(reading(N40), 40),
        is_number(reading(N50), 50),
        is_number(reading(N80), 80),
        is_number(reading(N92), 92),
        is_number(reading(N150), 150),
        is_number(reading(WAKEUP_POOR_US), 200),
        is_number(reading(MEGA), 1_000_000),
        is_number(reading(GIGABIT), 125_000_000),
        is_number(reading(GIGA), 1_000_000_000),
        is_number(reading(FOUR_GIGA), 4_000_000_000),
        is_number(reading(FIVE_GIGA), 5_000_000_000),
{
    lemma2_to64();
    lemma2_to64_rest();
    lemma_number(reading(N3), 3, 51);
    lemma_number(reading(BLOAT_POOR_X), 10, 49);
    lemma_number(reading(N10), 10, 49);
    lemma_number(reading(N20), 20, 48);
    lemma_number(reading(N30), 30, 48);
    lemma_number(reading(N40), 40, 47);
    lemma_number(reading(N50), 50, 47);
    lemma_number(reading(N80), 80, 46);
    lemma_number(reading(N92), 92, 46);
    lemma_number(reading(N150), 150, 45);
    lemma_number(reading(WAKEUP_POOR_US), 200, 45);
    lemma_number(reading(MEGA), 1_000_000, 33);
    lemma_number(reading(GIGABIT), 125_000_000, 26);
    lemma_number(reading(GIGA), 1_000_000_000, 23);
    lemma_number(reading(FOUR_GIGA), 4_000_000_000, 21);
    lemma_number(reading(FIVE_GIGA), 5_000_000_000, 20);
}

/// Small is good.
pub open spec fn level_below(x: Reading, good: u64, fair: u64) -> Level {
    if x.lt(reading(good)) {
        Level::Good
    } else if x.lt(reading(fair)) {
        Level::Fair
    } else {
        Level::Poor
    }
}

/// Large is good.
pub open spec fn level_above(x: Reading, good: u64, fair: u64) -> Level {
    if reading(good).lt(x) {
        Level::Good
    } else if reading(fair).lt(x) {
        Level::Fair
    } else {
        Level::Poor
    }
}

pub fn grade_below(x: &Reading, good: u64, fair: u64) -> (r: Level)
    ensures
        r == level_below(*x, good, fair),
{
    if x.less(&reading(good)) {
        Level::Good
    } else if x.less(&reading(fair)) {
        Level::Fair
    } else {
        Level::Poor
    }
}

pub fn grade_above(x: &Reading, good: u64, fair: u64) -> (r: Level)
    ensures
        r == level_above(*x, good, fair),
{
    if reading(good).less(x) {
        Level::Good
    } else if reading(fair).less(x) {
        Level::Fair
    } else {
        Level::Poor
    }
}

/// Quotients and differences of a run's results, and how its numbers read.
#[derive(Debug, Clone)]
pub struct Figures {
    /// Seconds to move 14 GB and 140 GB at the sustained rate.
    pub seven_b: Figure,
    pub seventy_b: Figure,
    /// One-way p50 of the sample nearest 16 KiB.
    pub hop: Figure,
    /// The small all-reduce, and thousands of them per second.
    pub sync: Figure,
    pub syncs_k: Figure,
    /// Seconds to sync 2 GB of gradients.
    pub grads: Figure,
    /// The worst dip below the median, in percent.
    pub dip: Figure,
    /// Round trip under load over round trip when idle.
    pub inflation: Figure,
    /// Round trip after a long pause less that after the first one, in µs.
    pub wake: Figure,
    /// The highest temperature.
    pub heat: Figure,
    pub kv: Figure,
}

/// One line of the verdict.
pub struct Verdict {
    pub about: Seq<char>,
    pub level: Level,
    pub text: Seq<char>,
}

pub open spec fn graded(g: Grade) -> (Level, Seq<char>) {
    match g {
        Grade::Good(t) => (Level::Good, t@),
        Grade::Fair(t) => (Level::Fair, t@),
        Grade::Poor(t) => (Level::Poor, t@),
    }
}

pub open spec fn verdict_of(v: (String, Grade)) -> Verdict {
    Verdict { about: v.0@, level: graded(v.1).0, text: graded(v.1).1 }
}

pub open spec fn verdicts_of(v: Seq<(String, Grade)>) -> Seq<Verdict> {
    v.map_values(|x: (String, Grade)| verdict_of(x))
}

pub open spec fn pick(level: Level, good: Seq<char>, fair: Seq<char>, poor: Seq<char>) -> Seq<char> {
    match level {
        Level::Good => good,
        Level::Fair => fair,
        Level::Poor => poor,
    }
}

fn grade(level: Level, good: String, fair: String, poor: String) -> (r: Grade)
    ensures
        graded(r) == (level, pick(level, good@, fair@, poor@)),
{
    match level {
        Level::Good => Grade::Good(good),
        Level::Fair => Grade::Fair(fair),
        Level::Poor => Grade::Poor(poor),
    }
}

pub open spec fn bulk_rate(r: Results) -> Reading {
    r.uni_c2s_bps.max_of(r.uni_s2c_bps)
}

/// The one-way time of the sample nearest 16 KiB; not a number where nothing
/// was sampled.
pub open spec fn hop_time(r: Results) -> Reading {
    if r.latency@.len() == 0 {
        reading(NOT_A_NUMBER)
    } else {
        r.latency@[choose|i: int| nearest_hop(r.latency@, i)].oneway_p50_us
    }
}

/// The sample at `i` is the one nearest 16 KiB.
pub open spec fn nearest_hop(points: Seq<LatencyPoint>, i: int) -> bool {
    nearest(points, 16 * KIB, i)
}

pub const NOT_A_NUMBER: u64 = 0x7ff8_0000_0000_0000;

pub fn hop_reading(r: &Results) -> (t: Reading)
    ensures
        t == hop_time(*r),
{
    match latency_near(r, 16 * KIB) {
        Some(i) => {
            proof {
                let k = choose|k: int| nearest_hop(r.latency@, k);
                assert(nearest_hop(r.latency@, i as int));
                law_nearest_is_unique(r.latency@, 16 * KIB, i as int, k);
            }
            r.latency[i].oneway_p50_us
        },
        None => reading(NOT_A_NUMBER),
    }
}

pub open spec fn moving(r: Results, f: Figures) -> Verdict {
    let level = level_above(bulk_rate(r), FIVE_GIGA, GIGA);
    Verdict {
        about: "model movement (shards, checkpoints, weights)"@,
        level,
        text: pick(
            level,
            "7B fp16 in "@ + f.seven_b.d1@ + " s, 70B in "@ + f.seventy_b.d0@ + " s"@,
            "7B fp16 in "@ + f.seven_b.d0@ + " s, 70B in "@ + f.seventy_b.d0@ + " s — workable"@,
            "7B fp16 takes "@ + f.seven_b.d0@ + " s — plan around it"@,
        ),
    }
}

pub open spec fn hopping(r: Results, f: Figures) -> Verdict {
    let level = level_below(hop_time(r), N30, N150);
    Verdict {
        about: "pipeline-parallel inference (activation hop/token)"@,
        level,
        text: "+"@ + f.hop.d0@ + pick(
            level,
            " µs/token/hop — negligible vs typical 10–50 ms/token"@,
            " µs/token/hop — fine unless you chase <5 ms tokens"@,
            " µs/token/hop — will show up in token latency"@,
        ),
    }
}

pub open spec fn syncing(r: Results, f: Figures) -> Verdict {
    let level = level_below(r.allreduce_16k_us, N40, N150);
    Verdict {
        about: "tensor-parallel decode (per-token all-reduce)"@,
        level,
        text: f.sync.d0@ + pick(
            level,
            " µs/sync → ~"@ + f.syncs_k.d0@ + "k syncs/s; TP2 across nodes is viable"@,
            " µs/sync — TP2 works but sync cost is visible per layer"@,
            " µs/sync — cross-node TP will crawl; prefer pipeline splits"@,
        ),
    }
}

pub open spec fn training(r: Results, f: Figures) -> Verdict {
    let level = level_above(r.allreduce_1g_bps, FOUR_GIGA, GIGA);
    Verdict {
        about: "data-parallel training (gradient sync)"@,
        level,
        text: pick(
            level,
            "1B-param fp16 grads sync in "@ + f.grads.d2@ + " s/step"@,
            "1B-param fp16 grads in "@ + f.grads.d1@ + " s/step — overlap comm/compute"@,
            "1B-param fp16 grads in "@ + f.grads.d1@ + " s/step — gradient compression territory"@,
        ),
    }
}

/// The stalls of both timelines.
pub open spec fn stall_count(up: Option<TimelineStats>, down: Option<TimelineStats>) -> int {
    (match up {
        Some(s) => s.stalls as int,
        None => 0,
    }) + (match down {
        Some(s) => s.stalls as int,
        None => 0,
    })
}

pub open spec fn stability_level(stalls: int, dip: Reading) -> Level {
    if stalls == 0 && dip.lt(reading(N20)) {
        Level::Good
    } else if stalls == 0 && dip.lt(reading(N50)) {
        Level::Fair
    } else {
        Level::Poor
    }
}

pub open spec fn stability_title() -> Seq<char> {
    "sustained stability (throughput over time)"@
}

pub open spec fn stability(
    up: Option<TimelineStats>,
    down: Option<TimelineStats>,
    f: Figures,
) -> Verdict {
    let level = stability_level(stall_count(up, down), f.dip.value);
    Verdict {
        about: stability_title(),
        level,
        text: pick(
            level,
            "steady — worst dip −"@ + f.dip.d0@ + "% from median"@,
            "some jitter — worst dip −"@ + f.dip.d0@ + "%"@,
            dec(stall_count(up, down) as nat) + " stall bucket(s), worst dip −"@ + f.dip.d0@
                + "% — check iommu/thermals/cabling"@,
        ),
    }
}

pub open spec fn load_title() -> Seq<char> {
    "latency while link is saturated (serving + bulk)"@
}

pub open spec fn load_level(f: Figures) -> Level {
    level_below(f.inflation.value, N3, BLOAT_POOR_X)
}

pub open spec fn loaded(f: Figures) -> Verdict {
    Verdict {
        about: load_title(),
        level: load_level(f),
        text: "×"@ + f.inflation.d1@ + pick(
            load_level(f),
            " inflation — fine to serve during transfers"@,
            " inflation — schedule bulk moves off-peak"@,
            " inflation (bufferbloat) — don't serve during bulk transfers"@,
        ),
    }
}

pub open spec fn wake_title() -> Seq<char> {
    "wake-up after idle (bursty pipeline traffic)"@
}

pub open spec fn wake_level(f: Figures) -> Level {
    level_below(f.wake.value, N40, WAKEUP_POOR_US)
}

pub open spec fn waking(f: Figures) -> Verdict {
    Verdict {
        about: wake_title(),
        level: wake_level(f),
        text: "+"@ + f.wake.d0@ + pick(
            wake_level(f),
            " µs after 100 ms idle — no warm-up penalty"@,
            " µs after 100 ms idle (coalescing/power states)"@,
            " µs after 100 ms idle — bursty workloads will feel this"@,
        ),
    }
}

pub open spec fn heating(t: Reading, f: Figures) -> Verdict {
    let level = level_below(t, N80, N92);
    Verdict {
        about: "thermals during sustained load"@,
        level,
        text: "max "@ + f.heat.d0@ + pick(
            level,
            "°C"@,
            "°C — warm, keep an eye on it"@,
            "°C — throttling territory"@,
        ),
    }
}

pub open spec fn migrating(r: Results, f: Figures) -> Verdict {
    let level = level_below(r.kv32m_ms, N10, N50);
    Verdict {
        about: "KV-cache / prefix migration between nodes"@,
        level,
        text: pick(
            level,
            f.kv.d1@ + " ms per 32 MiB block — live migration is practical"@,
            f.kv.d0@ + " ms per 32 MiB block"@,
            f.kv.d0@ + " ms per 32 MiB block — recompute may beat transfer"@,
        ),
    }
}

/// A verdict that is given only where there is something to judge.
pub open spec fn given(when: bool, v: Verdict) -> Seq<Verdict> {
    if when {
        seq![v]
    } else {
        Seq::empty()
    }
}

pub open spec fn heat_verdict(r: Results, f: Figures) -> Seq<Verdict> {
    match hottest_overall(r) {
        Some(t) => seq![heating(t, f)],
        None => Seq::empty(),
    }
}

pub open spec fn verdict_list(
    r: Results,
    f: Figures,
    up: Option<TimelineStats>,
    down: Option<TimelineStats>,
) -> Seq<Verdict> {
    seq![moving(r, f), hopping(r, f), syncing(r, f), training(r, f)] + given(
        up is Some || down is Some,
        stability(up, down, f),
    ) + given(r.loaded_rtt is Some, loaded(f)) + given(woke(r.idle_gaps@), waking(f))
        + heat_verdict(r, f) + seq![migrating(r, f)]
}

/// Both timelines of a run can be summarized.
pub open spec fn numeric_run(r: Results) -> bool {
    numeric(r.timeline_up_bps@, r.timeline_up_steady as int) && numeric(
        r.timeline_down_bps@,
        r.timeline_down_steady as int,
    )
}

/// `up` and `down` are the statistics of the run's two timelines.
pub open spec fn stats_of_run(
    r: Results,
    up: Option<TimelineStats>,
    down: Option<TimelineStats>,
) -> bool {
    stats_of(up, r.timeline_up_bps@, r.timeline_up_steady as int) && stats_of(
        down,
        r.timeline_down_bps@,
        r.timeline_down_steady as int,
    )
}

fn grade_stability(stalls: usize, dip: &Reading) -> (r: Level)
    ensures
        r == stability_level(stalls as int, *dip),
{
    if stalls == 0 && dip.less(&reading(N20)) {
        Level::Good
    } else if stalls == 0 && dip.less(&reading(N50)) {
        Level::Fair
    } else {
        Level::Poor
    }
}

/// The stalls of both timelines, where they fit.
pub fn total_stalls(up: &Option<TimelineStats>, down: &Option<TimelineStats>) -> (r: usize)
    requires
        stall_count(*up, *down) <= usize::MAX,
    ensures
        r == stall_count(*up, *down),
{
    let a: usize = match up {
        Some(s) => s.stalls,
        None => 0,
    };
    let b: usize = match down {
        Some(s) => s.stalls,
        None => 0,
    };
    a + b
}

fn text3(a: &str, b: &str, c: &str) -> (r: String)
    ensures
        r@ == a@ + b@ + c@,
{
    a.to_owned().concat(b).concat(c)
}

fn text5(a: &str, b: &str, c: &str, d: &str, e: &str) -> (r: String)
    ensures
        r@ == a@ + b@ + c@ + d@ + e@,
{
    a.to_owned().concat(b).concat(c).concat(d).concat(e)
}

fn line(about: &str, g: Grade) -> (r: (String, Grade))
    ensures
        verdict_of(r) == (Verdict { about: about@, level: graded(g).0, text: graded(g).1 }),
{
    (about.to_owned(), g)
}

fn moving_verdict(r: &Results, f: &Figures) -> (v: (String, Grade))
    ensures
        verdict_of(v) == moving(*r, *f),
{
    let bulk = r.uni_c2s_bps.max(&r.uni_s2c_bps);
    line(
        "model movement (shards, checkpoints, weights)",
        grade(
            grade_above(&bulk, FIVE_GIGA, GIGA),
            text5("7B fp16 in ", f.seven_b.d1.as_str(), " s, 70B in ", f.seventy_b.d0.as_str(), " s"),
            text5(
                "7B fp16 in ",
                f.seven_b.d0.as_str(),
                " s, 70B in ",
                f.seventy_b.d0.as_str(),
                " s — workable",
            ),
            text3("7B fp16 takes ", f.seven_b.d0.as_str(), " s — plan around it"),
        ),
    )
}

fn hopping_verdict(r: &Results, f: &Figures) -> (v: (String, Grade))
    ensures
        verdict_of(v) == hopping(*r, *f),
{
    let hop = hop_reading(r);
    line(
        "pipeline-parallel inference (activation hop/token)",
        grade(
            grade_below(&hop, N30, N150),
            text3(
                "+",
                f.hop.d0.as_str(),
                " µs/token/hop — negligible vs typical 10–50 ms/token",
            ),
            text3("+", f.hop.d0.as_str(), " µs/token/hop — fine unless you chase <5 ms tokens"),
            text3("+", f.hop.d0.as_str(), " µs/token/hop — will show up in token latency"),
        ),
    )
}

fn syncing_verdict(r: &Results, f: &Figures) -> (v: (String, Grade))
    ensures
        verdict_of(v) == syncing(*r, *f),
{
    let good = f.sync.d0.clone().concat(
        text3(
            " µs/sync → ~",
            f.syncs_k.d0.as_str(),
            "k syncs/s; TP2 across nodes is viable",
        ).as_str(),
    );
    line(
        "tensor-parallel decode (per-token all-reduce)",
        grade(
            grade_below(&r.allreduce_16k_us, N40, N150),
            good,
            f.sync.d0.clone().concat(" µs/sync — TP2 works but sync cost is visible per layer"),
            f.sync.d0.clone().concat(
                " µs/sync — cross-node TP will crawl; prefer pipeline splits",
            ),
        ),
    )
}

fn training_verdict(r: &Results, f: &Figures) -> (v: (String, Grade))
    ensures
        verdict_of(v) == training(*r, *f),
{
    line(
        "data-parallel training (gradient sync)",
        grade(
            grade_above(&r.allreduce_1g_bps, FOUR_GIGA, GIGA),
            text3("1B-param fp16 grads sync in ", f.grads.d2.as_str(), " s/step"),
            text3(
                "1B-param fp16 grads in ",
                f.grads.d1.as_str(),
                " s/step — overlap comm/compute",
            ),
            text3(
                "1B-param fp16 grads in ",
                f.grads.d1.as_str(),
                " s/step — gradient compression territory",
            ),
        ),
    )
}

fn stability_verdict(
    up: &Option<TimelineStats>,
    down: &Option<TimelineStats>,
    f: &Figures,
) -> (v: (String, Grade))
    requires
        stall_count(*up, *down) <= usize::MAX,
    ensures
        verdict_of(v) == stability(*up, *down, *f),
{
    let stalls = total_stalls(up, down);
    let poor = decimal(stalls as u64).concat(" stall bucket(s), worst dip −").concat(
        f.dip.d0.as_str(),
    ).concat("% — check iommu/thermals/cabling");
    line(
        "sustained stability (throughput over time)",
        grade(
            grade_stability(stalls, &f.dip.value),
            text3("steady — worst dip −", f.dip.d0.as_str(), "% from median"),
            text3("some jitter — worst dip −", f.dip.d0.as_str(), "%"),
            poor,
        ),
    )
}

fn loaded_verdict(f: &Figures) -> (v: (String, Grade))
    ensures
        verdict_of(v) == loaded(*f),
{
    line(
        "latency while link is saturated (serving + bulk)",
        grade(
            grade_below(&f.inflation.value, N3, BLOAT_POOR_X),
            text3("×", f.inflation.d1.as_str(), " inflation — fine to serve during transfers"),
            text3("×", f.inflation.d1.as_str(), " inflation — schedule bulk moves off-peak"),
            text3(
                "×",
                f.inflation.d1.as_str(),
                " inflation (bufferbloat) — don't serve during bulk transfers",
            ),
        ),
    )
}

fn waking_verdict(f: &Figures) -> (v: (String, Grade))
    ensures
        verdict_of(v) == waking(*f),
{
    line(
        "wake-up after idle (bursty pipeline traffic)",
        grade(
            grade_below(&f.wake.value, N40, WAKEUP_POOR_US),
            text3("+", f.wake.d0.as_str(), " µs after 100 ms idle — no warm-up penalty"),
            text3("+", f.wake.d0.as_str(), " µs after 100 ms idle (coalescing/power states)"),
            text3(
                "+",
                f.wake.d0.as_str(),
                " µs after 100 ms idle — bursty workloads will feel this",
            ),
        ),
    )
}

fn heating_verdict(t: &Reading, f: &Figures) -> (v: (String, Grade))
    ensures
        verdict_of(v) == heating(*t, *f),
{
    line(
        "thermals during sustained load",
        grade(
            grade_below(t, N80, N92),
            text3("max ", f.heat.d0.as_str(), "°C"),
            text3("max ", f.heat.d0.as_str(), "°C — warm, keep an eye on it"),
            text3("max ", f.heat.d0.as_str(), "°C — throttling territory"),
        ),
    )
}

fn migrating_verdict(r: &Results, f: &Figures) -> (v: (String, Grade))
    ensures
        verdict_of(v) == migrating(*r, *f),
{
    line(
        "KV-cache / prefix migration between nodes",
        grade(
            grade_below(&r.kv32m_ms, N10, N50),
            f.kv.d1.clone().concat(" ms per 32 MiB block — live migration is practical"),
            f.kv.d0.clone().concat(" ms per 32 MiB block"),
            f.kv.d0.clone().concat(" ms per 32 MiB block — recompute may beat transfer"),
        ),
    )
}

/// What the results mean for each kind of work, where `up` and `down` are the
/// statistics of the two timelines.
pub fn verdicts_from(
    r: &Results,
    f: &Figures,
    up: &Option<TimelineStats>,
    down: &Option<TimelineStats>,
) -> (v: Vec<(String, Grade)>)
    requires
        stall_count(*up, *down) <= usize::MAX,
    ensures
        verdicts_of(v@) == verdict_list(*r, *f, *up, *down),
{
    let mut v: Vec<(String, Grade)> = Vec::new();
    v.push(moving_verdict(r, f));
    v.push(hopping_verdict(r, f));
    v.push(syncing_verdict(r, f));
    v.push(training_verdict(r, f));
    let ghost four = seq![moving(*r, *f), hopping(*r, *f), syncing(*r, *f), training(*r, *f)];
    assert(verdicts_of(v@) =~= four);
    if up.is_some() || down.is_some() {
        let x = stability_verdict(up, down, f);
        proof {
            lemma_verdict_added(v@, x);
        }
        v.push(x);
    }
    let ghost five = four + given(*up is Some || *down is Some, stability(*up, *down, *f));
    assert(verdicts_of(v@) =~= five);
    if r.loaded_rtt.is_some() {
        let x = loaded_verdict(f);
        proof {
            lemma_verdict_added(v@, x);
        }
        v.push(x);
    }
    let ghost six = five + given(r.loaded_rtt is Some, loaded(*f));
    assert(verdicts_of(v@) =~= six);
    if wake_pair(r).is_some() {
        let x = waking_verdict(f);
        proof {
            lemma_verdict_added(v@, x);
        }
        v.push(x);
    }
    let ghost seven = six + given(woke(r.idle_gaps@), waking(*f));
    assert(verdicts_of(v@) =~= seven);
    if let Some(t) = max_temp(r) {
        let x = heating_verdict(&t, f);
        proof {
            lemma_verdict_added(v@, x);
        }
        v.push(x);
    }
    let ghost eight = seven + heat_verdict(*r, *f);
    assert(verdicts_of(v@) =~= eight);
    let x = migrating_verdict(r, f);
    proof {
        lemma_verdict_added(v@, x);
    }
    v.push(x);
    v
}

proof fn lemma_verdict_added(v: Seq<(String, Grade)>, x: (String, Grade))
    ensures
        verdicts_of(v.push(x)) == verdicts_of(v) + seq![verdict_of(x)],
{
    assert(verdicts_of(v.push(x)) =~= verdicts_of(v) + seq![verdict_of(x)]);
}

/// What the results mean for each kind of work.
pub fn verdicts(r: &Results, f: &Figures) -> (v: Vec<(String, Grade)>)
    requires
        numeric_run(*r),
        r.timeline_up_bps@.len() + r.timeline_down_bps@.len() <= usize::MAX,
    ensures
        exists|up: Option<TimelineStats>, down: Option<TimelineStats>| #[trigger]
            stats_of_run(*r, up, down) && verdicts_of(v@) == verdict_list(*r, *f, up, down),
{
    let up = timeline_stats(&r.timeline_up_bps, r.timeline_up_steady);
    let down = timeline_stats(&r.timeline_down_bps, r.timeline_down_steady);
    proof {
        lemma_stalls_bounded(up, r.timeline_up_bps@, r.timeline_up_steady as int);
        lemma_stalls_bounded(down, r.timeline_down_bps@, r.timeline_down_steady as int);
        assert(stats_of_run(*r, up, down));
    }
    verdicts_from(r, f, &up, &down)
}

pub proof fn lemma_stalls_bounded(s: Option<TimelineStats>, buckets: Seq<Reading>, steady: int)
    requires
        stats_of(s, buckets, steady),
    ensures
        s matches Some(t) ==> t.stalls <= buckets.len(),
{
    if measured(buckets, steady) {
        let mid = steady_part(buckets, steady);
        let (sorted, p) = choose|sorted: Seq<Reading>, p: Seq<int>| #[trigger]
            arranged(sorted, mid, p) && summarizes(s, mid, sorted);
        lemma_below_bounded(mid, sorted[sorted.len() as int / 2].half_of());
    }
}

proof fn lemma_below_bounded(s: Seq<Reading>, limit: Reading)
    ensures
        0 <= below(s, limit) <= s.len(),
    decreases s.len(),
{
    if s.len() > 0 {
        lemma_below_bounded(s.drop_last(), limit);
    }
}

// --------------------------------------------------------------------- laws

/// The reading is a number smaller than `k`.
pub open spec fn below_number(x: Reading, k: int) -> bool {
    if x.finite() {
        x.finite_value() < k * pow2(1074)
    } else {
        x.bits == SIGN_BIT + INFINITY_BITS
    }
}

/// The reading is a number larger than `k`.
pub open spec fn above_number(x: Reading, k: int) -> bool {
    if x.finite() {
        x.finite_value() > k * pow2(1074)
    } else {
        x.bits == INFINITY_BITS
    }
}

proof fn lemma_against_number(x: Reading, n: u64, k: int)
    requires
        is_number(reading(n), k),
    ensures
        x.lt(reading(n)) <==> below_number(x, k),
        reading(n).lt(x) <==> above_number(x, k),
{
    if x.finite() {
        law_rank_orders_numbers(x, reading(n));
        law_rank_orders_numbers(reading(n), x);
    }
}

pub proof fn lemma_levels(x: Reading)
    ensures
        judged(level_below(x, N30, N150), below_number(x, 30), below_number(x, 150)),
        judged(level_below(x, N40, N150), below_number(x, 40), below_number(x, 150)),
        judged(level_below(x, N3, BLOAT_POOR_X), below_number(x, 3), below_number(x, 10)),
        judged(level_below(x, N40, WAKEUP_POOR_US), below_number(x, 40), below_number(x, 200)),
        judged(level_below(x, N80, N92), below_number(x, 80), below_number(x, 92)),
        judged(level_below(x, N10, N50), below_number(x, 10), below_number(x, 50)),
        judged(
            level_above(x, FIVE_GIGA, GIGA),
            above_number(x, 5_000_000_000),
            above_number(x, 1_000_000_000),
        ),
        judged(
            level_above(x, FOUR_GIGA, GIGA),
            above_number(x, 4_000_000_000),
            above_number(x, 1_000_000_000),
        ),
        x.lt(reading(N20)) <==> below_number(x, 20),
        x.lt(reading(N50)) <==> below_number(x, 50),
{
    law_thresholds();
    lemma_against_number(x, N3, 3);
    lemma_against_number(x, BLOAT_POOR_X, 10);
    lemma_against_number(x, N10, 10);
    lemma_against_number(x, N20, 20);
    lemma_against_number(x, N30, 30);
    lemma_against_number(x, N40, 40);
    lemma_against_number(x, N50, 50);
    lemma_against_number(x, N80, 80);
    lemma_against_number(x, N92, 92);
    lemma_against_number(x, N150, 150);
    lemma_against_number(x, WAKEUP_POOR_US, 200);
    lemma_against_number(x, GIGA, 1_000_000_000);
    lemma_against_number(x, FOUR_GIGA, 4_000_000_000);
    lemma_against_number(x, FIVE_GIGA, 5_000_000_000);
}

/// Good where it is good, else fair where it is fair, else poor.
pub open spec fn judged(level: Level, good: bool, fair: bool) -> bool {
    &&& level is Good <==> good
    &&& level is Fair <==> !good && fair
    &&& level is Poor <==> !good && !fair
}

/// A pause of 100 ms or more was measured.
pub open spec fn rested(r: Results) -> bool {
    exists|g: int| 0 <= g < r.idle_gaps@.len() && (#[trigger] r.idle_gaps@[g]).gap_ms >= 100
}

/// All temperatures of a run.
pub open spec fn all_temps(r: Results) -> Seq<Reading> {
    r.temps_a_sys@ + r.temps_a_nic@ + r.temps_b_sys@ + r.temps_b_nic@
}

proof fn lemma_hottest(so_far: Option<Reading>, seen: Seq<Reading>, series: Seq<Reading>)
    requires
        is_hottest(so_far, seen),
    ensures
        is_hottest(hottest_in(so_far, series), seen + series),
    decreases series.len(),
{
    if series.len() == 0 {
        assert(seen + series =~= seen);
    } else {
        let had = seen + series.drop_last();
        let all = seen + series;
        lemma_hottest(so_far, seen, series.drop_last());
        assert(all =~= had.push(series.last()));
        assert(all[all.len() - 1] == series.last());
        let t = hottest_in(so_far, series)->0;
        match hottest_in(so_far, series.drop_last()) {
            None => {
                assert(had.len() == 0);
            },
            Some(a) => {
                let k = choose|k: int| 0 <= k < had.len() && had[k] == a;
                assert(all[k] == a);
            },
        }
        assert forall|i: int| 0 <= i < all.len() implies (#[trigger] all[i]).nan() || (!t.nan()
            && all[i].rank() <= t.rank()) by {
            if i < had.len() {
                assert(all[i] == had[i]);
            }
        }
    }
}

/// `t` is the highest of the readings that are numbers, and is there wherever
/// there is a reading.
pub open spec fn is_hottest(t: Option<Reading>, seen: Seq<Reading>) -> bool {
    match t {
        Some(x) => {
            &&& seen.contains(x)
            &&& forall|i: int|
                0 <= i < seen.len() ==> (#[trigger] seen[i]).nan() || (!x.nan() && seen[i].rank()
                    <= x.rank())
        },
        None => seen.len() == 0,
    }
}

/// The highest temperature of a run is one that was read, and none that was read,
/// on either node and by either sensor, is higher.
pub proof fn law_hottest_is_the_maximum(r: Results)
    ensures
        is_hottest(hottest_overall(r), all_temps(r)),
{
    let none: Option<Reading> = None;
    lemma_hottest(none, Seq::empty(), r.temps_a_sys@);
    assert(Seq::<Reading>::empty() + r.temps_a_sys@ =~= r.temps_a_sys@);
    let a = hottest_in(none, r.temps_a_sys@);
    lemma_hottest(a, r.temps_a_sys@, r.temps_a_nic@);
    let b = hottest_in(a, r.temps_a_nic@);
    lemma_hottest(b, r.temps_a_sys@ + r.temps_a_nic@, r.temps_b_sys@);
    let c = hottest_in(b, r.temps_b_sys@);
    lemma_hottest(c, r.temps_a_sys@ + r.temps_a_nic@ + r.temps_b_sys@, r.temps_b_nic@);
}

/// What each verdict is on and by which numbers it is judged. The four on bulk,
/// hops, syncs and training and the one on cache migration are always given; that
/// on stability where a timeline says anything; that on load where it was measured;
/// that on wake-up where a pause of 100 ms was measured; that on heat where a
/// temperature was read.
#[verifier::rlimit(40)]
pub proof fn law_verdicts_are_judged_by_numbers(
    r: Results,
    f: Figures,
    up: Option<TimelineStats>,
    down: Option<TimelineStats>,
)
    ensures
        ({
            let list = verdict_list(r, f, up, down);
            let stable: int = if up is Some || down is Some {
                1
            } else {
                0
            };
            let load: int = stable + if r.loaded_rtt is Some {
                1int
            } else {
                0
            };
            let wake: int = load + if rested(r) {
                1int
            } else {
                0
            };
            let heat: int = wake + if all_temps(r).len() > 0 {
                1int
            } else {
                0
            };
            &&& list.len() == 5 + heat
            &&& list[0].about == "model movement (shards, checkpoints, weights)"@
            &&& judged(
                list[0].level,
                above_number(r.uni_c2s_bps, 5_000_000_000) || above_number(
                    r.uni_s2c_bps,
                    5_000_000_000,
                ),
                above_number(r.uni_c2s_bps, 1_000_000_000) || above_number(
                    r.uni_s2c_bps,
                    1_000_000_000,
                ),
            )
            &&& list[1].about == "pipeline-parallel inference (activation hop/token)"@
            &&& r.latency@.len() == 0 ==> list[1].level is Poor
            &&& list[2].about == "tensor-parallel decode (per-token all-reduce)"@
            &&& judged(
                list[2].level,
                below_number(r.allreduce_16k_us, 40),
                below_number(r.allreduce_16k_us, 150),
            )
            &&& list[3].about == "data-parallel training (gradient sync)"@
            &&& judged(
                list[3].level,
                above_number(r.allreduce_1g_bps, 4_000_000_000),
                above_number(r.allreduce_1g_bps, 1_000_000_000),
            )
            &&& stable == 1 ==> {
                let stalls = (if up is Some {
                    up->0.stalls as int
                } else {
                    0
                }) + (if down is Some {
                    down->0.stalls as int
                } else {
                    0
                });
                &&& list[4].about == "sustained stability (throughput over time)"@
                &&& judged(
                    list[4].level,
                    stalls == 0 && below_number(f.dip.value, 20),
                    stalls == 0 && below_number(f.dip.value, 50),
                )
            }
            &&& r.loaded_rtt is Some ==> {
                &&& list[3 + load].about == "latency while link is saturated (serving + bulk)"@
                &&& judged(
                    list[3 + load].level,
                    below_number(f.inflation.value, 3),
                    below_number(f.inflation.value, 10),
                )
            }
            &&& rested(r) ==> {
                &&& list[3 + wake].about == "wake-up after idle (bursty pipeline traffic)"@
                &&& judged(
                    list[3 + wake].level,
                    below_number(f.wake.value, 40),
                    below_number(f.wake.value, 200),
                )
            }
            &&& all_temps(r).len() > 0 ==> {
                &&& list[3 + heat].about == "thermals during sustained load"@
                &&& hottest_overall(r) is Some
                &&& judged(
                    list[3 + heat].level,
                    below_number(hottest_overall(r)->0, 80),
                    below_number(hottest_overall(r)->0, 92),
                )
            }
            &&& list[4 + heat].about == "KV-cache / prefix migration between nodes"@
            &&& judged(
                list[4 + heat].level,
                below_number(r.kv32m_ms, 10),
                below_number(r.kv32m_ms, 50),
            )
        }),
{
    law_hottest_is_the_maximum(r);
    lemma_levels(bulk_rate(r));
    lemma_levels(r.uni_c2s_bps);
    lemma_levels(r.uni_s2c_bps);
    lemma_levels(hop_time(r));
    lemma_levels(r.allreduce_16k_us);
    lemma_levels(r.allreduce_1g_bps);
    lemma_levels(f.dip.value);
    lemma_levels(f.inflation.value);
    lemma_levels(f.wake.value);
    lemma_levels(r.kv32m_ms);
    if hottest_overall(r) is Some {
        lemma_levels(hottest_overall(r)->0);
    }
    lemma_rested(r);
    lemma_faster_direction(r, 5_000_000_000, FIVE_GIGA);
    lemma_faster_direction(r, 1_000_000_000, GIGA);
}

pub proof fn lemma_rested(r: Results)
    ensures
        woke(r.idle_gaps@) == rested(r),
{
    if woke(r.idle_gaps@) {
        let g = choose|g: int|
            0 <= g < r.idle_gaps@.len() && !((#[trigger] r.idle_gaps@[g]).gap_ms < LONG_GAP_MS);
        assert(r.idle_gaps@[g].gap_ms >= 100);
    }
}

proof fn lemma_faster_direction(r: Results, k: int, n: u64)
    requires
        (k == 5_000_000_000 && n == FIVE_GIGA) || (k == 1_000_000_000 && n == GIGA),
    ensures
        above_number(bulk_rate(r), k) <==> above_number(r.uni_c2s_bps, k) || above_number(
            r.uni_s2c_bps,
            k,
        ),
{
    law_thresholds();
    lemma_against_number(bulk_rate(r), n, k);
    lemma_against_number(r.uni_c2s_bps, n, k);
    lemma_against_number(r.uni_s2c_bps, n, k);
}

/// The hop is judged by the sample whose size is nearest 16 KiB, the first of
/// those equally near: good below 30 µs, fair below 150 µs, else poor.
pub proof fn law_hops_are_judged_by_the_16k_sample(
    r: Results,
    f: Figures,
    up: Option<TimelineStats>,
    down: Option<TimelineStats>,
    i: int,
)
    requires
        0 <= i < r.latency@.len(),
        forall|j: int|
            0 <= j < r.latency@.len() ==> abs(r.latency@[i].size - 16384) <= abs(
                (#[trigger] r.latency@[j]).size - 16384,
            ),
        forall|j: int|
            0 <= j < i ==> abs(r.latency@[i].size - 16384) < abs(
                (#[trigger] r.latency@[j]).size - 16384,
            ),
    ensures
        verdict_list(r, f, up, down).len() > 1,
        judged(
            verdict_list(r, f, up, down)[1].level,
            below_number(r.latency@[i].oneway_p50_us, 30),
            below_number(r.latency@[i].oneway_p50_us, 150),
        ),
{
    lemma_levels(r.latency@[i].oneway_p50_us);
    assert(nearest_hop(r.latency@, i));
    let k = choose|k: int| nearest_hop(r.latency@, k);
    law_nearest_is_unique(r.latency@, 16 * KIB, i, k);
    assert(verdict_list(r, f, up, down)[1] == hopping(r, f));
}

/// A rate is shown in the largest unit that it reaches: gigabytes from a billion
/// bytes on, with gigabits; megabytes from a million on, with gigabits from a
/// gigabit on and megabits below; else kilobytes.
pub proof fn law_rates_are_shown_in_their_unit(rate: Rate)
    requires
        !rate.bps.nan(),
    ensures
        !below_number(rate.bps, 1_000_000_000) ==> rate_text(rate) == rate.gigabytes.d2@ + " GB/s ("@
            + rate.gigabits.d1@ + " Gb/s)"@ && bytes_text(rate) == rate.gigabytes.d2@ + " GB"@,
        below_number(rate.bps, 1_000_000_000) && !below_number(rate.bps, 125_000_000) ==> rate_text(
            rate,
        ) == rate.megabytes.d0@ + " MB/s ("@ + rate.gigabits.d2@ + " Gb/s)"@,
        below_number(rate.bps, 125_000_000) && !below_number(rate.bps, 1_000_000) ==> rate_text(
            rate,
        ) == rate.megabytes.d1@ + " MB/s ("@ + rate.megabits.d0@ + " Mb/s)"@,
        below_number(rate.bps, 1_000_000_000) && !below_number(rate.bps, 1_000_000) ==> bytes_text(
            rate,
        ) == rate.megabytes.d1@ + " MB"@,
        below_number(rate.bps, 1_000_000) ==> rate_text(rate) == rate.kilobytes.d0@ + " kB/s"@
            && bytes_text(rate) == rate.kilobytes.d0@ + " kB"@,
{
    law_thresholds();
    lemma_against_number(rate.bps, MEGA, 1_000_000);
    lemma_against_number(rate.bps, GIGABIT, 125_000_000);
    lemma_against_number(rate.bps, GIGA, 1_000_000_000);
    let u = pow2(1074) as int;
    assert(1_000_000 * u <= 125_000_000 * u <= 1_000_000_000 * u);
}

/// Sizes are told in the largest unit that they reach, in whole units of it.
pub proof fn law_sizes_are_told_in_their_unit(b: nat)
    ensures
        b < 1024 ==> size_text(b) == dec(b) + " B"@,
        1024 <= b < 1_048_576 ==> size_text(b) == dec(b / 1024) + " KiB"@,
        b >= 1_048_576 ==> size_text(b) == dec(b / 1_048_576) + " MiB"@,
{
}

/// Each direction is summarized over its own timeline and its own window.
pub proof fn law_each_direction_has_its_window(
    r: Results,
    up: Option<TimelineStats>,
    down: Option<TimelineStats>,
)
    requires
        stats_of_run(r, up, down),
    ensures
        stats_of(up, r.timeline_up_bps@, r.timeline_up_steady as int),
        stats_of(down, r.timeline_down_bps@, r.timeline_down_steady as int),
{
}

/// A verdict shows the figure it is on, whatever its level: the hop, the sync, the
/// inflation under load, the lag after idle, the temperature; and one on stalls
/// begins with how many there were.
pub proof fn law_verdicts_show_their_figures(
    r: Results,
    f: Figures,
    up: Option<TimelineStats>,
    down: Option<TimelineStats>,
    t: Reading,
)
    ensures
        ("+"@ + f.hop.d0@).is_prefix_of(hopping(r, f).text),
        f.sync.d0@.is_prefix_of(syncing(r, f).text),
        ("×"@ + f.inflation.d1@).is_prefix_of(loaded(f).text),
        ("+"@ + f.wake.d0@).is_prefix_of(waking(f).text),
        ("max "@ + f.heat.d0@).is_prefix_of(heating(t, f).text),
        stability(up, down, f).level is Poor ==> dec(
            ((if up is Some {
                up->0.stalls as int
            } else {
                0
            }) + (if down is Some {
                down->0.stalls as int
            } else {
                0
            })) as nat,
        ).is_prefix_of(stability(up, down, f).text),
{
    lemma_front("+"@ + f.hop.d0@, hopping(r, f).text);
    lemma_front(f.sync.d0@, syncing(r, f).text);
    lemma_front("×"@ + f.inflation.d1@, loaded(f).text);
    lemma_front("+"@ + f.wake.d0@, waking(f).text);
    lemma_front("max "@ + f.heat.d0@, heating(t, f).text);
    lemma_front(dec(stall_count(up, down) as nat), stability(up, down, f).text);
}

proof fn lemma_front(a: Seq<char>, s: Seq<char>)
    ensures
        a.len() <= s.len() && s.take(a.len() as int) =~= a ==> a.is_prefix_of(s),
{
    if a.len() <= s.len() && s.take(a.len() as int) =~= a {
        assert(s.subrange(0, a.len() as int) =~= a);
    }
}

} // verus!
