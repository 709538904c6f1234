//! Scaled-integer scalars and exact rational values.
//!
//! World lengths are carried as `i64` multiples of [`SCALE`]: one grid cell
//! spans `SCALE` units.  Quantities that are ratios of such integers (ray
//! parameters, texture coordinates) are carried exactly as a [`Frac`], a
//! fraction of two `i128`s with a positive denominator.  All comparisons on
//! fractions cross-multiply, so no precision is ever lost.

use vstd::prelude::*;

verus! {

/// Number of scaled units in one grid cell.
pub const SCALE: i64 = 6400;

/// Largest allowed map side, in cells.
pub const MAX_DIM: usize = 1024;

/// Largest representable world coordinate: `MAX_DIM * SCALE`.
pub const COORD_MAX: i64 = 6553600;

/// Bound on the magnitude of a ray direction component.
pub const DIR_MAX: i64 = 262144;

/// Bound on the numerator of a well-formed fraction (2^80).  Together with
/// [`DEN_BOUND`] it guarantees that every cross-multiplication fits in
/// an `i128`.
pub const NUM_BOUND: i128 = 1208925819614629174706176;

/// Bound on the denominator of a well-formed fraction (2^46).
pub const DEN_BOUND: i128 = 70368744177664;

/// An exact rational value `num / den` with `den > 0`.
#[derive(Clone, Copy, Debug)]
pub struct Frac {
    pub num: i128,
    pub den: i128,
}

/// A fraction the library hands out: positive denominator, and both parts
/// small enough that cross-multiplying two such fractions cannot overflow.
pub open spec fn frac_wf(f: Frac) -> bool {
    0 < f.den <= DEN_BOUND && -NUM_BOUND <= f.num <= NUM_BOUND
}

/// `a <= b` as rational values (denominators positive).
pub open spec fn frac_le(a: Frac, b: Frac) -> bool {
    a.num * b.den <= b.num * a.den
}

/// `a < b` as rational values (denominators positive).
pub open spec fn frac_lt(a: Frac, b: Frac) -> bool {
    a.num * b.den < b.num * a.den
}

/// `a == b` as rational values (denominators positive).
pub open spec fn frac_eq(a: Frac, b: Frac) -> bool {
    a.num * b.den == b.num * a.den
}

/// Bounding a product from bounds on its factors.
pub proof fn lemma_mul_bound(a: int, b: int, ba: int, bb: int)
    by (nonlinear_arith)
    requires
        -ba <= a <= ba,
        -bb <= b <= bb,
        0 <= ba,
        0 <= bb,
    ensures
        -(ba * bb) <= a * b <= ba * bb,
{
}

/// A product of positive factors is positive.
pub proof fn lemma_mul_pos(a: int, b: int)
    by (nonlinear_arith)
    requires
        a > 0,
        b > 0,
    ensures
        a * b > 0,
{
}

impl Frac {
    /// Exact comparison `self <= other`.
    pub fn le(&self, other: &Frac) -> (r: bool)
        requires
            frac_wf(*self),
            frac_wf(*other),
        ensures
            r == frac_le(*self, *other),
    {
        proof {
            lemma_mul_bound(self.num as int, other.den as int, NUM_BOUND as int, DEN_BOUND as int);
            lemma_mul_bound(other.num as int, self.den as int, NUM_BOUND as int, DEN_BOUND as int);
        }
        self.num * other.den <= other.num * self.den
    }

    /// Exact comparison `self < other`.
    pub fn lt(&self, other: &Frac) -> (r: bool)
        requires
            frac_wf(*self),
            frac_wf(*other),
        ensures
            r == frac_lt(*self, *other),
    {
        proof {
            lemma_mul_bound(self.num as int, other.den as int, NUM_BOUND as int, DEN_BOUND as int);
            lemma_mul_bound(other.num as int, self.den as int, NUM_BOUND as int, DEN_BOUND as int);
        }
        self.num * other.den < other.num * self.den
    }

    /// Exact equality of values.
    pub fn eq_value(&self, other: &Frac) -> (r: bool)
        requires
            frac_wf(*self),
            frac_wf(*other),
        ensures
            r == frac_eq(*self, *other),
    {
        proof {
            lemma_mul_bound(self.num as int, other.den as int, NUM_BOUND as int, DEN_BOUND as int);
            lemma_mul_bound(other.num as int, self.den as int, NUM_BOUND as int, DEN_BOUND as int);
        }
        self.num * other.den == other.num * self.den
    }
}

/// Integer square root: the largest `r` with `r * r <= n`.
pub fn isqrt64(n: u64) -> (r: u64)
    requires
        n < 0x4000000000000000,
    ensures
        r * r <= n,
        n < (r + 1) * (r + 1),
        r < 0x80000000,
{
    let mut r: u64 = 0;
    loop
        invariant
            r * r <= n,
            n < 0x4000000000000000,
            r <= n,
        decreases n - r,
    {
        assert(r < 0x80000000) by (nonlinear_arith)
            requires
                r * r <= n < 0x4000000000000000,
        ;
        proof {
            lemma_mul_bound((r + 1) as int, (r + 1) as int, 0x80000000int, 0x80000000int);
        }
        if (r + 1) * (r + 1) <= n {
            assert(r + 1 <= (r + 1) * (r + 1)) by (nonlinear_arith);
            r = r + 1;
        } else {
            return r;
        }
    }
}

/// The integer square root, defined by counting up.
pub open spec fn spec_isqrt(n: int) -> int
    decreases n,
{
    if n < 1 {
        0
    } else {
        let r = spec_isqrt(n - 1);
        if (r + 1) * (r + 1) <= n {
            r + 1
        } else {
            r
        }
    }
}

/// The integer square root of `n` is the largest integer whose square is
/// at most `n`.
pub proof fn lemma_isqrt_props(n: int)
    requires
        0 <= n,
    ensures
        0 <= spec_isqrt(n),
        spec_isqrt(n) * spec_isqrt(n) <= n,
        n < (spec_isqrt(n) + 1) * (spec_isqrt(n) + 1),
    decreases n,
{
    if n > 0 {
        lemma_isqrt_props(n - 1);
        let r = spec_isqrt(n - 1);
        if (r + 1) * (r + 1) <= n {
            assert(n < ((r + 1) + 1) * ((r + 1) + 1)) by (nonlinear_arith)
                requires
                    0 <= r,
                    n - 1 < (r + 1) * (r + 1),
                    (r + 1) * (r + 1) <= n,
            ;
        }
    }
}

/// Any integer between consecutive squares pins the square root down.
pub proof fn lemma_isqrt_unique(n: int, r: int)
    requires
        0 <= r,
        r * r <= n,
        n < (r + 1) * (r + 1),
    ensures
        r == spec_isqrt(n),
{
    assert(0 <= n) by (nonlinear_arith)
        requires
            0 <= r,
            r * r <= n,
    ;
    lemma_isqrt_props(n);
    let q = spec_isqrt(n);
    assert(r == q) by (nonlinear_arith)
        requires
            0 <= r,
            0 <= q,
            r * r <= n,
            n < (r + 1) * (r + 1),
            q * q <= n,
            n < (q + 1) * (q + 1),
    ;
}

/// A floor quotient of a value within `b` multiples of the divisor stays
/// within `b`.
pub proof fn lemma_div_bounds(v: int, m: int, b: int)
    requires
        1 <= m,
        0 <= b,
        -(b * m) <= v <= b * m,
    ensures
        -b <= v / m <= b,
{
    vstd::arithmetic::div_mod::lemma_fundamental_div_mod(v, m);
    vstd::arithmetic::div_mod::lemma_mod_division_less_than_divisor(v, m);
    let q = v / m;
    let rr = v % m;
    assert(-b <= q <= b) by (nonlinear_arith)
        requires
            v == m * q + rr,
            0 <= rr < m,
            1 <= m,
            -(b * m) <= v <= b * m,
            0 <= b,
    ;
}

} // verus!
