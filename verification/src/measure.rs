//! Measured quantities. A reading is carried as the bit pattern of an IEEE 754
//! binary64 number: the thresholds, rankings and selections of this crate only
//! compare readings, and comparing is a matter of the bit patterns.

use crate::order::Ordered;
use vstd::arithmetic::power2::{lemma_pow2_adds, lemma_pow2_pos, lemma_pow2_unfold, pow2};
use vstd::prelude::*;

verus! {

/// The bit pattern of positive infinity; anything above it, sign bit aside, is
/// not a number.
pub const INFINITY_BITS: u64 = 0x7ff0_0000_0000_0000;

pub const SIGN_BIT: u64 = 0x8000_0000_0000_0000;

/// One step of the exponent.
pub const EXPONENT_STEP: u64 = 0x10_0000_0000_0000;

/// A measured quantity, by the bits of its binary64 representation.
#[derive(Clone, Copy, Debug, PartialEq, Eq, Structural)]
pub struct Reading {
    pub bits: u64,
}

/// A measured quantity and how it reads with no, one and two decimals.
#[derive(Clone, Debug)]
pub struct Figure {
    pub value: Reading,
    pub d0: String,
    pub d1: String,
    pub d2: String,
}

/// The reading with these bits.
#[verifier::allow_in_spec]
pub fn reading(bits: u64) -> (r: Reading)
    returns
        (Reading { bits }),
{
    Reading { bits }
}

impl Reading {
    pub open spec fn magnitude(self) -> int {
        if self.bits >= SIGN_BIT {
            self.bits - SIGN_BIT
        } else {
            self.bits as int
        }
    }

    /// Not a number.
    pub open spec fn nan(self) -> bool {
        self.magnitude() > INFINITY_BITS
    }

    /// The position of a number among the binary64 numbers; both zeros share
    /// position 0.
    pub open spec fn rank(self) -> int {
        if self.bits >= SIGN_BIT {
            -self.magnitude()
        } else {
            self.magnitude()
        }
    }

    /// `self < other`: false where either is not a number.
    pub open spec fn lt(self, other: Reading) -> bool {
        !self.nan() && !other.nan() && self.rank() < other.rank()
    }

    /// `self <= other`: false where either is not a number.
    pub open spec fn le(self, other: Reading) -> bool {
        !self.nan() && !other.nan() && self.rank() <= other.rank()
    }

    /// The larger of two readings; one that is not a number gives way.
    pub open spec fn max_of(self, other: Reading) -> Reading {
        if self.nan() {
            other
        } else if other.nan() || other.rank() <= self.rank() {
            self
        } else {
            other
        }
    }

    /// A finite number, as a multiple of the smallest positive binary64 number
    /// (2 to the power -1074).
    pub open spec fn finite_value(self) -> int {
        let e = self.magnitude() / 0x10_0000_0000_0000;
        let m = self.magnitude() % 0x10_0000_0000_0000;
        let size = if e == 0 {
            m
        } else {
            (0x10_0000_0000_0000 + m) * pow2((e - 1) as nat)
        };
        if self.bits >= SIGN_BIT {
            -size
        } else {
            size
        }
    }

    /// Half of a number: one step of the exponent less; a number too small for
    /// that is halved outright, to the nearest and to an even one in between.
    pub open spec fn half_of(self) -> Reading {
        let m = self.magnitude();
        let h = if m >= INFINITY_BITS {
            m
        } else if m >= 2 * EXPONENT_STEP {
            m - EXPONENT_STEP
        } else if m % 2 == 0 || (m / 2) % 2 == 0 {
            m / 2
        } else {
            m / 2 + 1
        };
        Reading {
            bits: (if self.bits >= SIGN_BIT {
                h + SIGN_BIT
            } else {
                h
            }) as u64,
        }
    }

    pub open spec fn finite(self) -> bool {
        self.magnitude() < INFINITY_BITS
    }

    pub fn is_nan(&self) -> (r: bool)
        ensures
            r == self.nan(),
    {
        let m: u64 = if self.bits >= SIGN_BIT {
            self.bits - SIGN_BIT
        } else {
            self.bits
        };
        m > INFINITY_BITS
    }

    fn position(&self) -> (r: i64)
        ensures
            r == self.rank(),
    {
        if self.bits >= SIGN_BIT {
            -((self.bits - SIGN_BIT) as i64)
        } else {
            self.bits as i64
        }
    }

    pub fn half(&self) -> (r: Reading)
        ensures
            r == self.half_of(),
    {
        let sign: u64 = if self.bits >= SIGN_BIT {
            SIGN_BIT
        } else {
            0
        };
        let m: u64 = self.bits - sign;
        let h: u64 = if m >= INFINITY_BITS {
            m
        } else if m >= 2 * EXPONENT_STEP {
            m - EXPONENT_STEP
        } else if m % 2 == 0 || (m / 2) % 2 == 0 {
            m / 2
        } else {
            m / 2 + 1
        };
        Reading { bits: h + sign }
    }

    pub fn less(&self, other: &Reading) -> (r: bool)
        ensures
            r == self.lt(*other),
    {
        !self.is_nan() && !other.is_nan() && self.position() < other.position()
    }

    pub fn at_most(&self, other: &Reading) -> (r: bool)
        ensures
            r == self.le(*other),
    {
        !self.is_nan() && !other.is_nan() && self.position() <= other.position()
    }

    pub fn max(&self, other: &Reading) -> (r: Reading)
        ensures
            r == self.max_of(*other),
    {
        if self.is_nan() {
            *other
        } else if other.is_nan() || other.position() <= self.position() {
            *self
        } else {
            *other
        }
    }
}

impl Ordered for Reading {
    open spec fn precedes(&self, other: &Reading) -> bool {
        self.rank() < other.rank()
    }

    proof fn lemma_order(a: &Reading, b: &Reading, c: &Reading) {
    }

    fn goes_before(&self, other: &Reading) -> (r: bool) {
        self.position() < other.position()
    }
}

/// Halving is exact wherever the exponent can be lowered.
pub proof fn law_half_is_half(a: Reading)
    requires
        a.finite(),
        a.magnitude() >= 2 * EXPONENT_STEP,
    ensures
        2 * a.half_of().finite_value() == a.finite_value(),
{
    let w = 0x10_0000_0000_0000int;
    let x = a.magnitude();
    let h = a.half_of();
    assert(h.magnitude() == x - w);
    let e = x / w;
    assert((x - w) / w == e - 1 && (x - w) % w == x % w);
    lemma_pow2_unfold((e - 1) as nat);
    let p = pow2((e - 2) as nat) as int;
    assert((w + x % w) * (2 * p) == 2 * ((w + x % w) * p)) by (nonlinear_arith);
}

proof fn lemma_size_orders(a: int, b: int)
    requires
        0 <= a < b < INFINITY_BITS,
    ensures
        ({
            let w = 0x10_0000_0000_0000int;
            let size = |x: int|
                if x / w == 0 {
                    x % w
                } else {
                    (w + x % w) * pow2((x / w - 1) as nat)
                };
            0 <= size(a) < size(b)
        }),
{
    let w = 0x10_0000_0000_0000int;
    let (ea, eb) = (a / w, b / w);
    let (ma, mb) = (a % w, b % w);
    assert(ea <= eb);
    if ea > 0 {
        lemma_pow2_pos((ea - 1) as nat);
        let p = pow2((ea - 1) as nat) as int;
        assert((w + ma) * p >= 0) by (nonlinear_arith)
            requires
                w + ma >= 0,
                p > 0,
        ;
    }
    if eb > 0 {
        lemma_pow2_pos((eb - 1) as nat);
    }
    if ea == eb {
        if ea > 0 {
            let p = pow2((ea - 1) as nat) as int;
            assert((w + ma) * p < (w + mb) * p) by (nonlinear_arith)
                requires
                    ma < mb,
                    p > 0,
            ;
        }
    } else {
        let q = pow2((eb - 1) as nat) as int;
        assert((w + mb) * q >= w * q) by (nonlinear_arith)
            requires
                mb >= 0,
                q > 0,
        ;
        if ea == 0 {
            assert(w * q >= w) by (nonlinear_arith)
                requires
                    q >= 1,
                    w >= 0,
            ;
        } else {
            let p = pow2((ea - 1) as nat) as int;
            let step = pow2((eb - ea) as nat) as int;
            lemma_pow2_adds((ea - 1) as nat, (eb - ea) as nat);
            lemma_pow2_pos((eb - ea - 1) as nat);
            lemma_pow2_unfold((eb - ea) as nat);
            assert(step >= 2);
            assert(q == p * step);
            assert((w + ma) * p < w * q) by (nonlinear_arith)
                requires
                    ma < w,
                    p > 0,
                    step >= 2,
                    q == p * step,
                    w > 0,
            ;
        }
    }
}

/// The order of bit patterns is the order of the numbers they stand for.
pub proof fn law_rank_orders_numbers(a: Reading, b: Reading)
    requires
        a.finite(),
        b.finite(),
    ensures
        a.lt(b) <==> a.finite_value() < b.finite_value(),
        a.le(b) <==> a.finite_value() <= b.finite_value(),
{
    let (x, y) = (a.magnitude(), b.magnitude());
    if x < y {
        lemma_size_orders(x, y);
        if x > 0 {
            lemma_size_orders(0, x);
        }
    } else if y < x {
        lemma_size_orders(y, x);
        if y > 0 {
            lemma_size_orders(0, y);
        }
    } else if x > 0 {
        lemma_size_orders(0, x);
    }
}

} // verus!
