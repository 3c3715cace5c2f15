//! The registered buffer regions: how they are divided among the queue pairs
//! and how one queue pair's slice is divided into message slots.

use crate::text::{dec, decimal};
use vstd::prelude::*;

verus! {

pub const MAX_SLOTS: usize = 256;

pub const MAX_QPS: usize = 64;

pub const PAGE: usize = 4096;

pub open spec fn clamped(x: int, lo: int, hi: int) -> int {
    if x < lo {
        lo
    } else if x > hi {
        hi
    } else {
        x
    }
}

/// How many queue pairs are made when `nqps` are asked for.
pub fn queue_pairs(nqps: usize) -> (r: usize)
    ensures
        r == clamped(nqps as int, 1, MAX_QPS as int),
{
    if nqps < 1 {
        1
    } else if nqps > MAX_QPS {
        MAX_QPS
    } else {
        nqps
    }
}

/// Whole regions are registered once; each queue pair gets a page-aligned
/// slice.
#[derive(Clone, Copy, Debug, PartialEq, Eq, Structural)]
pub struct Regions {
    /// Bytes per queue pair.
    pub per_qp: usize,
    /// Bytes in all.
    pub total: usize,
}

/// The largest page-aligned slice that `n` queue pairs can have of `total`.
pub open spec fn slice_size(total: int, n: int) -> int {
    (total / n) - (total / n) % 4096
}

/// Divide a region among `nqps` queue pairs.
pub fn divide_region(region_total: usize, nqps: usize) -> (r: Result<Regions, String>)
    requires
        1 <= nqps <= MAX_QPS,
    ensures
        match r {
            Ok(s) => s.per_qp == slice_size(region_total as int, nqps as int) && s.per_qp > 0
                && s.total == s.per_qp * nqps,
            Err(e) => slice_size(region_total as int, nqps as int) == 0 && e@
                == "region too small for "@ + dec(nqps as nat) + " QPs"@,
        },
{
    let each: usize = region_total / nqps;
    let per_qp: usize = each - each % PAGE;
    if per_qp == 0 {
        return Err(
            "region too small for ".to_owned().concat(decimal(nqps as u64).as_str()).concat(
                " QPs",
            ),
        );
    }
    proof {
        assert(per_qp * nqps <= region_total) by (nonlinear_arith)
            requires
                per_qp <= each,
                each == region_total / nqps,
                nqps > 0,
        ;
    }
    Ok(Regions { per_qp, total: per_qp * nqps })
}

/// The slices of different queue pairs are page-aligned, lie inside the region
/// and do not overlap.
pub proof fn law_slices_are_disjoint(region: int, n: int, i: int, j: int)
    requires
        region >= 0,
        n > 0,
        0 <= i < j < n,
    ensures
        ({
            let per = slice_size(region, n);
            &&& per >= 0
            &&& (i * per) % 4096 == 0
            &&& (j * per) % 4096 == 0
            &&& i * per + per <= j * per
            &&& j * per + per <= n * per <= region
        }),
{
    let q = region / n;
    let per = slice_size(region, n);
    assert(q >= 0 && q * n <= region) by (nonlinear_arith)
        requires
            q == region / n,
            n > 0,
            region >= 0,
    ;
    assert(per % 4096 == 0);
    let pages = per / 4096;
    assert(per == 4096 * pages);
    assert(i * per == 4096 * (i * pages) && j * per == 4096 * (j * pages)) by (nonlinear_arith)
        requires
            per == 4096 * pages,
    ;
    assert(i * per + per <= j * per && j * per + per <= n * per && n * per <= q * n)
        by (nonlinear_arith)
        requires
            0 <= per <= q,
            i + 1 <= j,
            j + 1 <= n,
            n > 0,
    ;
}

/// Slots that a slice of `region` bytes offers to messages of `size` bytes.
pub open spec fn slots(region: int, size: int) -> int {
    clamped(
        region / (if size > 1 {
            size
        } else {
            1
        }),
        1,
        MAX_SLOTS as int,
    )
}

pub fn slots_for(region: usize, size: usize) -> (r: usize)
    ensures
        r == slots(region as int, size as int),
        1 <= r <= MAX_SLOTS,
{
    let width: usize = if size > 1 {
        size
    } else {
        1
    };
    let n: usize = region / width;
    if n < 1 {
        1
    } else if n > MAX_SLOTS {
        MAX_SLOTS
    } else {
        n
    }
}

/// A message that fits the slice fits every slot of it: no slot reaches past
/// the end, and different slots do not overlap.
pub proof fn law_slots_stay_inside(region: int, size: int, a: int, b: int)
    requires
        0 <= size <= region,
        0 <= a < b < slots(region, size),
    ensures
        0 <= a * size,
        a * size + size <= b * size,
        b * size + size <= region,
{
    let w = if size > 1 {
        size
    } else {
        1
    };
    assert(slots(region, size) <= region / w || region / w < 1);
    assert((b + 1) * w <= region) by (nonlinear_arith)
        requires
            b + 1 <= region / w,
            w > 0,
    ;
    assert(0 <= a * size && a * size + size <= b * size && b * size + size <= (b + 1) * w)
        by (nonlinear_arith)
        requires
            0 <= size <= w,
            0 <= a,
            a + 1 <= b,
    ;
}

/// The same for a slice that holds one slot only.
pub proof fn law_first_slot_stays_inside(region: int, size: int, a: int)
    requires
        0 <= size <= region,
        0 <= a < slots(region, size),
    ensures
        a * size + size <= region,
{
    if a > 0 {
        law_slots_stay_inside(region, size, 0, a);
    } else {
        assert(0 * size == 0) by (nonlinear_arith);
    }
}

/// As many slots as fit, at least one and no more than the most there may be:
/// another message would not fit the slice.
pub proof fn law_slots_use_the_slice(region: int, size: int)
    requires
        1 <= size <= region,
    ensures
        ({
            let n = slots(region, size);
            &&& 1 <= n <= MAX_SLOTS
            &&& n * size <= region
            &&& n == MAX_SLOTS || (n + 1) * size > region
        }),
{
    let n = region / size;
    assert(n >= 1 && n * size <= region && (n + 1) * size > region) by (nonlinear_arith)
        requires
            n == region / size,
            1 <= size <= region,
    ;
    let k = slots(region, size);
    assert(k * size <= n * size) by (nonlinear_arith)
        requires
            k <= n,
            size >= 1,
    ;
}

/// The slices take up the region but for less than a page each and what cannot be
/// shared out.
pub proof fn law_slices_use_the_region(region: int, n: int)
    requires
        region >= 0,
        n > 0,
    ensures
        ({
            let per = slice_size(region, n);
            &&& per % 4096 == 0
            &&& n * per <= region < n * (per + 4096)
        }),
{
    let q = region / n;
    let per = slice_size(region, n);
    assert(n * per <= region && region < n * (per + 4096)) by (nonlinear_arith)
        requires
            q == region / n,
            n > 0,
            region >= 0,
            per <= q < per + 4096,
    ;
}

} // verus!
