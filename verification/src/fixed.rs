//! Signed decimal fixed-point numbers with seven fractional digits.

use vstd::prelude::*;

verus! {

/// Scaling factor: a `Fixed` with magnitude `m` stands for the real number
/// `m / SCALE` (negated when the sign flag is set).
pub const SCALE: u64 = 10_000_000;

/// Absolute value of an integer.
pub open spec fn iabs(a: int) -> int {
    if a >= 0 {
        a
    } else {
        -a
    }
}

/// A signed fixed-point decimal: `mag / SCALE`, negated when `neg` is set.
///
/// Values are kept normalized: zero is never negative.
#[derive(Clone, Copy, PartialEq, Eq, Structural, Debug)]
pub struct Fixed {
    pub neg: bool,
    pub mag: u64,
}

impl Fixed {
    /// The represented value, in scaled units (the real number times `SCALE`).
    pub open spec fn value(self) -> int {
        if self.neg {
            -(self.mag as int)
        } else {
            self.mag as int
        }
    }

    /// Normalization: zero carries a positive sign.
    pub open spec fn wf(self) -> bool {
        self.neg ==> self.mag > 0
    }

    /// Builds a value from a sign and a scaled magnitude, normalizing `-0`.
    pub fn from_scaled(neg: bool, mag: u64) -> (r: Fixed)
        ensures
            r.wf(),
            r.value() == if neg {
                -(mag as int)
            } else {
                mag as int
            },
    {
        Fixed { neg: neg && mag > 0, mag }
    }

    /// The scaled magnitude (absolute value times `SCALE`).
    pub fn scaled_mag(&self) -> (r: u64)
        ensures
            r as int == if self.value() >= 0 {
                self.value()
            } else {
                -self.value()
            },
    {
        self.mag
    }

    /// Whether the value is negative.
    pub fn is_negative(&self) -> (r: bool)
        requires
            self.wf(),
        ensures
            r == (self.value() < 0),
    {
        self.neg
    }

    /// Whether the value is normalized; always true for values built by this
    /// library, offered so that unverified callers can check it.
    pub fn is_wf(&self) -> (r: bool)
        ensures
            r == self.wf(),
    {
        !self.neg || self.mag > 0
    }
}

/// The unique normalized `Fixed` with the given scaled value (for values whose
/// magnitude fits in `u64`).
pub open spec fn spec_fixed(v: int) -> Fixed {
    Fixed { neg: v < 0, mag: iabs(v) as u64 }
}

/// `spec_fixed` represents every value whose magnitude fits in `u64`.
pub proof fn lemma_spec_fixed_value(v: int)
    requires
        iabs(v) <= u64::MAX,
    ensures
        spec_fixed(v).wf(),
        spec_fixed(v).value() == v,
{
}

/// A normalized `Fixed` is determined by its value.
pub proof fn lemma_fixed_eq_value(a: Fixed, b: Fixed)
    requires
        a.wf(),
        b.wf(),
        a.value() == b.value(),
    ensures
        a == b,
{
}

/// `r` is the floor of the square root of `n`.
pub open spec fn is_sqrt_floor(n: int, r: int) -> bool {
    0 <= r && r * r <= n < (r + 1) * (r + 1)
}

/// The floor of the square root of a nonnegative integer.
pub open spec fn sqrt_floor(n: int) -> int {
    choose|r: int| is_sqrt_floor(n, r)
}

/// The floor square root is unique.
pub proof fn lemma_sqrt_floor_unique(n: int, r1: int, r2: int)
    requires
        is_sqrt_floor(n, r1),
        is_sqrt_floor(n, r2),
    ensures
        r1 == r2,
{
    if r1 < r2 {
        assert((r1 + 1) * (r1 + 1) <= r2 * r2) by (nonlinear_arith)
            requires
                0 <= r1 < r2,
        ;
    }
    if r2 < r1 {
        assert((r2 + 1) * (r2 + 1) <= r1 * r1) by (nonlinear_arith)
            requires
                0 <= r2 < r1,
        ;
    }
}

/// Every nonnegative integer has a floor square root.
pub proof fn lemma_sqrt_floor_exists(n: int)
    requires
        n >= 0,
    ensures
        is_sqrt_floor(n, sqrt_floor(n)),
    decreases n,
{
    if n == 0 {
        assert(is_sqrt_floor(0, 0));
    } else {
        lemma_sqrt_floor_exists(n - 1);
        let r0 = sqrt_floor(n - 1);
        if (r0 + 1) * (r0 + 1) <= n {
            assert(n - 1 < (r0 + 1) * (r0 + 1));
            assert(n == (r0 + 1) * (r0 + 1));
            assert((r0 + 1) * (r0 + 1) < (r0 + 2) * (r0 + 2)) by (nonlinear_arith)
                requires
                    r0 >= 0,
            ;
            assert(is_sqrt_floor(n, r0 + 1));
        } else {
            assert(is_sqrt_floor(n, r0));
        }
    }
    let w = choose|r: int| is_sqrt_floor(n, r);
    assert(is_sqrt_floor(n, w));
}

/// Floor square root of `n` (for `n` below 2^96), by binary search.
pub fn isqrt(n: u128) -> (r: u64)
    requires
        n < 0x1000000000000000000000000,
    ensures
        is_sqrt_floor(n as int, r as int),
        r as int == sqrt_floor(n as int),
{
    let mut lo: u64 = 0;
    let mut hi: u64 = 0x1000000000000;
    proof {
        assert((0x1000000000000 as int) * (0x1000000000000 as int)
            == 0x1000000000000000000000000) by (nonlinear_arith);
    }
    while hi - lo > 1
        invariant
            lo < hi <= 0x1000000000000,
            (lo as int) * (lo as int) <= n as int,
            (n as int) < (hi as int) * (hi as int),
        decreases hi - lo,
    {
        let mid: u64 = lo + (hi - lo) / 2;
        proof {
            assert((mid as int) * (mid as int) <= (0x1000000000000 as int) * (
            0x1000000000000 as int)) by (nonlinear_arith)
                requires
                    0 <= mid <= 0x1000000000000,
            ;
        }
        let sq: u128 = (mid as u128) * (mid as u128);
        if sq <= n {
            lo = mid;
        } else {
            hi = mid;
        }
    }
    proof {
        assert(hi == lo + 1);
        lemma_sqrt_floor_exists(n as int);
        lemma_sqrt_floor_unique(n as int, lo as int, sqrt_floor(n as int));
    }
    lo
}

} // verus!
