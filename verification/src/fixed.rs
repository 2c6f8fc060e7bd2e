//! Fixed-point arithmetic on thousandths.

use vstd::prelude::*;

verus! {

/// The fixed-point representation of the number one.
pub const UNIT: i32 = 1000;

/// Quotient rounded toward zero, for a positive divisor.
pub open spec fn trunc_div(a: int, b: int) -> int
    recommends
        b > 0,
{
    if a >= 0 {
        a / b
    } else {
        -((-a) / b)
    }
}

/// Product of two fixed-point numbers, rounded toward zero.
pub open spec fn scaled(value: int, factor: int) -> int {
    trunc_div(value * factor, UNIT as int)
}

/// Absolute value.
pub open spec fn magnitude(a: int) -> int {
    if a >= 0 {
        a
    } else {
        -a
    }
}

/// Distance between two coordinates.
pub open spec fn distance(a: int, b: int) -> int {
    magnitude(a - b)
}

/// `low <= value <= high`, whichever way round the two ends are given.
pub open spec fn between(value: int, end_a: int, end_b: int) -> bool {
    ||| end_a <= value <= end_b
    ||| end_b <= value <= end_a
}

/// The value nearest to `value` inside `[-limit, limit]`.
pub open spec fn clamped(value: int, limit: int) -> int
    recommends
        limit >= 0,
{
    if value > limit {
        limit
    } else if value < -limit {
        -limit
    } else {
        value
    }
}

/// Rounding toward zero never grows a quotient past its dividend, and keeps
/// its sign.
pub proof fn lemma_trunc_div_bounds(a: int, b: int)
    requires
        b >= 1,
    ensures
        magnitude(trunc_div(a, b)) <= magnitude(a),
        a >= 0 ==> 0 <= trunc_div(a, b) <= a,
        a <= 0 ==> a <= trunc_div(a, b) <= 0,
        magnitude(trunc_div(a, b)) * b <= magnitude(a),
        magnitude(a) < (magnitude(trunc_div(a, b)) + 1) * b,
{
    let m = magnitude(a);
    assert(0 <= m / b <= m && (m / b) * b <= m < (m / b + 1) * b) by (nonlinear_arith)
        requires
            m >= 0,
            b >= 1,
    ;
}

/// A product is bounded by the product of the bounds of its factors.
pub proof fn lemma_product_bound(a: int, b: int, bound_a: int, bound_b: int)
    requires
        magnitude(a) <= bound_a,
        magnitude(b) <= bound_b,
    ensures
        magnitude(a * b) <= bound_a * bound_b,
{
    assert(magnitude(a * b) <= bound_a * bound_b) by (nonlinear_arith)
        requires
            -bound_a <= a <= bound_a,
            -bound_b <= b <= bound_b,
            magnitude(a * b) == if a * b >= 0 {
                a * b
            } else {
                -(a * b)
            },
    ;
}

/// A fixed-point product scaled by a factor of at most one whole does not
/// grow.
pub proof fn lemma_scaled_shrinks(value: int, factor: int)
    requires
        0 <= factor <= UNIT,
    ensures
        magnitude(scaled(value, factor)) <= magnitude(value),
        value >= 0 ==> 0 <= scaled(value, factor) <= value,
        value <= 0 ==> value <= scaled(value, factor) <= 0,
{
    let m = magnitude(value);
    assert(0 <= m * factor <= m * 1000) by (nonlinear_arith)
        requires
            m >= 0,
            0 <= factor <= 1000,
    ;
    assert(magnitude(value * factor) == m * factor) by (nonlinear_arith)
        requires
            m == magnitude(value),
            factor >= 0,
            magnitude(value * factor) == if value * factor >= 0 {
                value * factor
            } else {
                -(value * factor)
            },
            m == if value >= 0 {
                value
            } else {
                -value
            },
    ;
    assert(value >= 0 ==> value * factor >= 0) by (nonlinear_arith)
        requires
            factor >= 0,
    ;
    assert(value <= 0 ==> value * factor <= 0) by (nonlinear_arith)
        requires
            factor >= 0,
    ;
    lemma_trunc_div_bounds(value * factor, 1000);
    assert((m * factor) / 1000 <= m) by (nonlinear_arith)
        requires
            0 <= m * factor <= m * 1000,
    ;
}

/// Product of two fixed-point numbers.
pub fn scale(value: i32, factor: i32) -> (product: i64)
    ensures
        product == scaled(value as int, factor as int),
{
    proof {
        lemma_product_bound(value as int, factor as int, 0x8000_0000, 0x8000_0000);
    }
    let wide: i64 = (value as i64) * (factor as i64);
    wide / 1000
}

/// Absolute difference of two coordinates.
pub fn axis_distance(a: i32, b: i32) -> (d: i64)
    ensures
        d == distance(a as int, b as int),
{
    let wide_a: i64 = a as i64;
    let wide_b: i64 = b as i64;
    if wide_a >= wide_b {
        wide_a - wide_b
    } else {
        wide_b - wide_a
    }
}

/// Clamps a wide value into `[-limit, limit]`.
pub fn clamp(value: i64, limit: i32) -> (c: i32)
    requires
        limit >= 0,
    ensures
        c == clamped(value as int, limit as int),
{
    if value > limit as i64 {
        limit
    } else if value < -(limit as i64) {
        -limit
    } else {
        value as i32
    }
}

/// Whether `root` is the least natural number whose square is at least `n`.
pub open spec fn is_ceil_root(n: int, root: int) -> bool {
    &&& root >= 0
    &&& root * root >= n
    &&& (root == 0 || (root - 1) * (root - 1) < n)
}

/// The square root of `n`, rounded up.
pub open spec fn ceil_root(n: int) -> int {
    choose|root: int| is_ceil_root(n, root)
}

/// At most one number is the rounded-up square root of `n`.
pub proof fn lemma_ceil_root_unique(n: int, a: int, b: int)
    requires
        is_ceil_root(n, a),
        is_ceil_root(n, b),
    ensures
        a == b,
{
    if a < b {
        assert(a * a <= (b - 1) * (b - 1)) by (nonlinear_arith)
            requires
                0 <= a <= b - 1,
        ;
    } else if b < a {
        assert(b * b <= (a - 1) * (a - 1)) by (nonlinear_arith)
            requires
                0 <= b <= a - 1,
        ;
    }
}

/// Every natural number has a rounded-up square root.
pub proof fn lemma_ceil_root_exists(n: int)
    requires
        n >= 0,
    ensures
        is_ceil_root(n, ceil_root(n)),
    decreases n,
{
    if n == 0 {
        assert(is_ceil_root(0, 0));
    } else {
        lemma_ceil_root_exists(n - 1);
        let below = ceil_root(n - 1);
        if below * below >= n {
            assert(is_ceil_root(n, below));
        } else {
            assert(below * below == n - 1);
            assert((below + 1) * (below + 1) >= n) by (nonlinear_arith)
                requires
                    below >= 0,
                    below * below == n - 1,
            ;
            assert(is_ceil_root(n, below + 1));
        }
    }
}

/// Largest argument of `ceil_sqrt`.
pub const ROOT_LIMIT: u128 = 0x1_0000_0000_0000_0000_0000_0000;

/// The square root of `n`, rounded up.
pub fn ceil_sqrt(n: u128) -> (root: u64)
    requires
        n <= ROOT_LIMIT,
    ensures
        is_ceil_root(n as int, root as int),
        root == ceil_root(n as int),
        root <= 0x1_0000_0000_0000,
{
    let mut low: u64 = 0;
    let mut high: u64 = 0x1_0000_0000_0000;
    assert(0x1_0000_0000_0000int * 0x1_0000_0000_0000int == 0x1_0000_0000_0000_0000_0000_0000int)
        by (nonlinear_arith);
    while low < high
        invariant
            low <= high <= 0x1_0000_0000_0000,
            high * high >= n,
            low == 0 || (low - 1) * (low - 1) < n,
        decreases high - low,
    {
        let middle: u64 = low + (high - low) / 2;
        assert(middle * middle <= 0x1_0000_0000_0000int * 0x1_0000_0000_0000int)
            by (nonlinear_arith)
            requires
                0 <= middle <= 0x1_0000_0000_0000,
        ;
        let square: u128 = (middle as u128) * (middle as u128);
        if square >= n {
            high = middle;
        } else {
            low = middle + 1;
        }
    }
    proof {
        lemma_ceil_root_unique(n as int, low as int, ceil_root(n as int));
    }
    low
}

} // verus!
