//! Fixed-point arithmetic kit.
//!
//! A quantity `x` is represented by the integer `round(x * SCALE)`.  All
//! operations here have exact integer contracts; rounding is always floor
//! for non-negative operands and toward zero for signed ones, so that
//! negating an operand negates the result exactly.

use vstd::prelude::*;

verus! {

/// Number of integer units that represent one unit of value.
pub const SCALE: u64 = 1_000_000;

/// Scaled product of two non-negative values, rounded down.
pub open spec fn fmul_v(a: int, b: int) -> int {
    (a * b) / (SCALE as int)
}

/// Absolute value.
pub open spec fn abs_v(x: int) -> int {
    if x >= 0 {
        x
    } else {
        -x
    }
}

/// Scaled product of two signed values, rounded toward zero.
pub open spec fn tmul_v(a: int, b: int) -> int {
    if a * b >= 0 {
        (a * b) / (SCALE as int)
    } else {
        -((-(a * b)) / (SCALE as int))
    }
}

/// Scaled power: `fpow_v(b, n)` represents `(b/SCALE)^n`.
pub open spec fn fpow_v(b: int, n: nat) -> int
    decreases n,
{
    if n == 0 {
        SCALE as int
    } else {
        fmul_v(fpow_v(b, (n - 1) as nat), b)
    }
}

/// Integer square root.
pub open spec fn isqrt_v(x: nat) -> nat
    decreases x,
{
    if x == 0 {
        0
    } else {
        let r = isqrt_v((x - 1) as nat);
        if (r + 1) * (r + 1) <= x {
            r + 1
        } else {
            r
        }
    }
}

/// Sum of the first `n` entries of a sequence of unsigned values.
pub open spec fn sum_prefix(s: Seq<u64>, n: nat) -> int
    decreases n,
{
    if n == 0 {
        0
    } else {
        sum_prefix(s, (n - 1) as nat) + s[n - 1]
    }
}

/// A scaled product of non-negative values divides down monotonically:
/// multiplying by a factor of at most one unit cannot increase a value.
pub proof fn lemma_fmul_le_left(a: int, b: int)
    requires
        0 <= a,
        0 <= b <= SCALE,
    ensures
        0 <= fmul_v(a, b) <= a,
{
    assert(0 <= a * b <= a * (SCALE as int)) by (nonlinear_arith)
        requires 0 <= a && 0 <= b <= SCALE as int;
    vstd::arithmetic::div_mod::lemma_div_is_ordered(a * b, a * (SCALE as int), SCALE as int);
    vstd::arithmetic::div_mod::lemma_div_multiples_vanish(a, SCALE as int);
    vstd::arithmetic::div_mod::lemma_div_pos_is_pos(a * b, SCALE as int);
}

/// Scaled multiplication of non-negative values is monotone in both operands.
pub proof fn lemma_fmul_mono(a1: int, b1: int, a2: int, b2: int)
    requires
        0 <= a1 <= a2,
        0 <= b1 <= b2,
    ensures
        fmul_v(a1, b1) <= fmul_v(a2, b2),
{
    assert(a1 * b1 <= a2 * b2) by (nonlinear_arith)
        requires 0 <= a1 <= a2 && 0 <= b1 <= b2;
    vstd::arithmetic::div_mod::lemma_div_is_ordered(a1 * b1, a2 * b2, SCALE as int);
}

/// The magnitude of a truncating scaled product is the scaled product of
/// the magnitudes.
pub proof fn lemma_tmul_abs(a: int, b: int)
    ensures
        abs_v(tmul_v(a, b)) == fmul_v(abs_v(a), abs_v(b)),
{
    assert(abs_v(a) * abs_v(b) == abs_v(a * b)) by (nonlinear_arith);
    if a * b >= 0 {
        vstd::arithmetic::div_mod::lemma_div_pos_is_pos(a * b, SCALE as int);
    } else {
        vstd::arithmetic::div_mod::lemma_div_pos_is_pos(-(a * b), SCALE as int);
    }
}

/// Truncating scaled multiplication commutes with negation exactly; this
/// is the reason products round toward zero rather than down.
pub proof fn lemma_tmul_neg(a: int, b: int)
    ensures
        tmul_v(a, -b) == -tmul_v(a, b),
{
    assert(a * (-b) == -(a * b)) by (nonlinear_arith);
}

/// Two `u64` factors never overflow a `u128` product.
pub proof fn lemma_u64_mul_fits(a: int, b: int)
    requires
        0 <= a <= u64::MAX,
        0 <= b <= u64::MAX,
    ensures
        0 <= a * b <= u128::MAX,
{
    assert(0 <= a * b <= (u64::MAX as int) * (u64::MAX as int)) by (nonlinear_arith)
        requires 0 <= a <= u64::MAX && 0 <= b <= u64::MAX;
}

/// Scaled product of two non-negative fixed-point values, rounded down.
pub fn fmul(a: u64, b: u64) -> (r: u64)
    requires
        fmul_v(a as int, b as int) <= u64::MAX,
    ensures
        r == fmul_v(a as int, b as int),
{
    let wide: u128 = (a as u128) * (b as u128);
    (wide / (SCALE as u128)) as u64
}

/// Scaled product that reports when the result leaves the `u64` range.
pub fn fmul_checked(a: u64, b: u64) -> (r: Option<u64>)
    ensures
        r is Some <==> fmul_v(a as int, b as int) <= u64::MAX,
        r matches Some(v) ==> v == fmul_v(a as int, b as int),
{
    proof {
        lemma_u64_mul_fits(a as int, b as int);
    }
    let wide: u128 = (a as u128) * (b as u128);
    let q: u128 = wide / (SCALE as u128);
    if q <= u64::MAX as u128 {
        Some(q as u64)
    } else {
        None
    }
}

/// Magnitude of a signed value.
pub fn abs_i64(x: i64) -> (r: u64)
    ensures
        r == abs_v(x as int),
{
    if x >= 0 {
        x as u64
    } else {
        (-(x as i128)) as u64
    }
}

/// Checked truncating scaled product, as a value.
pub open spec fn tmulc_v(a: i64, b: i64) -> Option<i64> {
    if abs_v(tmul_v(a as int, b as int)) <= i64::MAX {
        Some(tmul_v(a as int, b as int) as i64)
    } else {
        None
    }
}

/// Checked signed addition, as a value.
pub open spec fn addc_v(a: i64, b: i64) -> Option<i64> {
    if i64::MIN <= a as int + b as int <= i64::MAX {
        Some((a as int + b as int) as i64)
    } else {
        None
    }
}

/// Scaled product of two signed fixed-point values, rounded toward zero;
/// `None` when the magnitude of the result exceeds `i64::MAX`.
pub fn tmul_checked(a: i64, b: i64) -> (r: Option<i64>)
    ensures
        r == tmulc_v(a, b),
        r is Some <==> abs_v(tmul_v(a as int, b as int)) <= i64::MAX,
        r matches Some(v) ==> v == tmul_v(a as int, b as int),
{
    let neg: bool = (a < 0) != (b < 0);
    let am: u64 = abs_i64(a);
    let bm: u64 = abs_i64(b);
    proof {
        lemma_u64_mul_fits(am as int, bm as int);
    }
    let wide: u128 = (am as u128) * (bm as u128);
    let q: u128 = wide / (SCALE as u128);
    proof {
        assert(am as int * bm as int == abs_v(a as int * b as int)) by (nonlinear_arith)
            requires
                am == abs_v(a as int),
                bm == abs_v(b as int);
        assert((a as int) * (b as int) < 0 ==> ((a < 0) != (b < 0))) by (nonlinear_arith);
        assert((a as int) * (b as int) > 0 && ((a < 0) != (b < 0)) ==> false) by (nonlinear_arith);
        vstd::arithmetic::div_mod::lemma_div_pos_is_pos(am as int * bm as int, SCALE as int);
    }
    if q > i64::MAX as u128 {
        None
    } else if neg {
        Some(-(q as i64))
    } else {
        Some(q as i64)
    }
}

/// Checked signed addition.
pub fn add_i64_checked(a: i64, b: i64) -> (r: Option<i64>)
    ensures
        r == addc_v(a, b),
        r is Some <==> i64::MIN <= a as int + b as int <= i64::MAX,
        r matches Some(v) ==> v == a as int + b as int,
{
    let s: i128 = (a as i128) + (b as i128);
    if s >= i64::MIN as i128 && s <= i64::MAX as i128 {
        Some(s as i64)
    } else {
        None
    }
}

/// Scaled power of a factor of at most one unit.
pub fn fpow(b: u64, n: usize) -> (r: u64)
    requires
        b <= SCALE,
    ensures
        r == fpow_v(b as int, n as nat),
        r <= SCALE,
{
    let mut acc: u64 = SCALE;
    let mut i: usize = 0;
    while i < n
        invariant
            i <= n,
            b <= SCALE,
            acc == fpow_v(b as int, i as nat),
            acc <= SCALE,
        decreases n - i,
    {
        proof {
            lemma_fmul_le_left(acc as int, b as int);
        }
        acc = fmul(acc, b);
        i = i + 1;
    }
    acc
}

/// The recursive integer square root is indeed the floor of the square root.
pub proof fn lemma_isqrt_bounds(x: nat)
    ensures
        isqrt_v(x) * isqrt_v(x) <= x,
        x < (isqrt_v(x) + 1) * (isqrt_v(x) + 1),
    decreases x,
{
    if x == 0 {
        assert(isqrt_v(0) == 0);
        assert(x < (isqrt_v(x) + 1) * (isqrt_v(x) + 1)) by (nonlinear_arith)
            requires x == 0 && isqrt_v(x) == 0;
    } else {
        lemma_isqrt_bounds((x - 1) as nat);
        let r = isqrt_v((x - 1) as nat);
        if (r + 1) * (r + 1) <= x {
            assert(isqrt_v(x) == r + 1);
            assert(x - 1 < (r + 1) * (r + 1));
            assert((r + 1 + 1) * (r + 1 + 1) > (r + 1) * (r + 1)) by (nonlinear_arith);
            assert(x < (isqrt_v(x) + 1) * (isqrt_v(x) + 1));
        } else {
            assert(isqrt_v(x) == r);
            assert(r * r <= x - 1);
            assert(x < (isqrt_v(x) + 1) * (isqrt_v(x) + 1));
        }
    }
}

/// Any value squeezed between consecutive squares is the integer square root.
pub proof fn lemma_isqrt_unique(x: nat, r: nat)
    requires
        r * r <= x,
        x < (r + 1) * (r + 1),
    ensures
        r == isqrt_v(x),
{
    lemma_isqrt_bounds(x);
    let s = isqrt_v(x);
    if r < s {
        assert((r + 1) * (r + 1) <= s * s) by (nonlinear_arith)
            requires r + 1 <= s;
    }
    if s < r {
        assert((s + 1) * (s + 1) <= r * r) by (nonlinear_arith)
            requires s + 1 <= r;
    }
}

/// Integer square root by bisection.
pub fn isqrt_u128(x: u128) -> (r: u128)
    ensures
        r == isqrt_v(x as nat),
        r * r <= x,
        x < (r + 1) * (r + 1),
{
    let mut lo: u128 = 0;
    let mut hi: u128 = 0x1_0000_0000_0000_0000;
    proof {
        assert((0x1_0000_0000_0000_0000u128 as int) * (0x1_0000_0000_0000_0000u128 as int)
            > u128::MAX) by (nonlinear_arith);
    }
    while lo + 1 < hi
        invariant
            lo < hi,
            hi <= 0x1_0000_0000_0000_0000,
            lo * lo <= x,
            x < hi * hi,
        decreases hi - lo,
    {
        let mid: u128 = lo + (hi - lo) / 2;
        proof {
            assert(mid < hi);
            assert(mid * mid < hi * hi) by (nonlinear_arith)
                requires 0 <= mid < hi;
        }
        if mid <= x / mid {
            proof {
                vstd::arithmetic::div_mod::lemma_fundamental_div_mod(x as int, mid as int);
                assert(mid * mid <= mid * (x / mid) + x % mid) by (nonlinear_arith)
                    requires
                        0 < mid,
                        mid <= x / mid,
                        0 <= x % mid;
            }
            lo = mid;
        } else {
            proof {
                vstd::arithmetic::div_mod::lemma_fundamental_div_mod(x as int, mid as int);
                assert(x < mid * mid) by (nonlinear_arith)
                    requires
                        0 < mid,
                        x / mid < mid,
                        x == mid * (x / mid) + x % mid,
                        x % mid < mid;
            }
            hi = mid;
        }
    }
    proof {
        lemma_isqrt_unique(x as nat, lo as nat);
    }
    lo
}

/// Square root of a scaled non-negative value, rounded down.
pub fn fsqrt(x: u64) -> (r: u64)
    ensures
        r == isqrt_v((x * SCALE) as nat),
{
    proof {
        lemma_u64_mul_fits(x as int, SCALE as int);
        assert((x as int) * (SCALE as int) <= (u64::MAX as int) * (SCALE as int))
            by (nonlinear_arith)
            requires x as int <= u64::MAX as int;
    }
    let wide: u128 = (x as u128) * (SCALE as u128);
    let root: u128 = isqrt_u128(wide);
    proof {
        assert(root <= u64::MAX) by (nonlinear_arith)
            requires
                root * root <= wide,
                wide <= (u64::MAX as int) * (SCALE as int);
    }
    root as u64
}

} // verus!
