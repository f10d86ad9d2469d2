//! Truncating division as Rust's `/` computes it on signed integers, with
//! the bound lemmas the fixed-point pipeline stages rely on.

use vstd::prelude::*;

verus! {

/// Rust's signed `/` truncates toward zero; spec-level `/` is Euclidean.
/// This is the truncating quotient, defined for positive divisors.
pub open spec fn div_trunc(a: int, b: int) -> int {
    if a >= 0 {
        a / b
    } else {
        -((-a) / b)
    }
}

/// If `lo·b <= a <= hi·b` for a positive divisor `b`, the truncating
/// quotient of `a` by `b` stays within `[lo, hi]`.
pub proof fn lemma_div_trunc_bounds(a: int, b: int, lo: int, hi: int)
    requires
        b >= 1,
        lo * b <= a,
        a <= hi * b,
    ensures
        lo <= div_trunc(a, b) <= hi,
{
    if a >= 0 {
        let q = a / b;
        let r = a % b;
        vstd::arithmetic::div_mod::lemma_fundamental_div_mod(a, b);
        vstd::arithmetic::div_mod::lemma_mod_bound(a, b);
        assert(lo <= q && q <= hi) by (nonlinear_arith)
            requires
                b >= 1,
                lo * b <= a,
                a <= hi * b,
                a == b * q + r,
                0 <= r < b,
        ;
    } else {
        let q = (-a) / b;
        let r = (-a) % b;
        vstd::arithmetic::div_mod::lemma_fundamental_div_mod(-a, b);
        vstd::arithmetic::div_mod::lemma_mod_bound(-a, b);
        assert(lo <= -q && -q <= hi) by (nonlinear_arith)
            requires
                b >= 1,
                lo * b <= a,
                a <= hi * b,
                -a == b * q + r,
                0 <= r < b,
        ;
    }
}

/// Truncating division by a positive divisor never grows the magnitude.
pub proof fn lemma_div_trunc_abs_le(a: int, b: int)
    requires
        b >= 1,
    ensures
        -(if a >= 0 { a } else { -a }) <= div_trunc(a, b) <= (if a >= 0 { a } else { -a }),
{
    if a >= 0 {
        assert((-a) * b <= a <= a * b) by (nonlinear_arith)
            requires
                b >= 1,
                a >= 0,
        ;
        lemma_div_trunc_bounds(a, b, -a, a);
    } else {
        assert(a * b <= a <= (-a) * b) by (nonlinear_arith)
            requires
                b >= 1,
                a < 0,
        ;
        lemma_div_trunc_bounds(a, b, a, -a);
    }
}

/// `r` is the integer square root of `x`, rounded down.
pub open spec fn is_sqrt_floor(x: int, r: int) -> bool {
    &&& 0 <= r
    &&& r * r <= x
    &&& x < (r + 1) * (r + 1)
}

/// The integer square root, rounded down, of a nonnegative integer.
pub open spec fn sqrt_floor(x: int) -> int {
    choose|r: int| is_sqrt_floor(x, r)
}

/// Every nonnegative integer has an integer square root.
pub proof fn lemma_sqrt_floor_exists(x: int) -> (r: int)
    requires
        0 <= x,
    ensures
        is_sqrt_floor(x, r),
    decreases x,
{
    if x == 0 {
        0
    } else {
        let p = lemma_sqrt_floor_exists(x - 1);
        let q = p + 1;
        if q * q <= x {
            assert(x < (q + 1) * (q + 1)) by (nonlinear_arith)
                requires
                    0 <= p,
                    q == p + 1,
                    x - 1 < (p + 1) * (p + 1),
            ;
            q
        } else {
            p
        }
    }
}

/// The integer square root is unique.
pub proof fn lemma_sqrt_floor_unique(x: int, a: int, b: int)
    requires
        is_sqrt_floor(x, a),
        is_sqrt_floor(x, b),
    ensures
        a == b,
{
    assert(!(a < b) && !(b < a)) by (nonlinear_arith)
        requires
            0 <= a,
            0 <= b,
            a * a <= x,
            x < (a + 1) * (a + 1),
            b * b <= x,
            x < (b + 1) * (b + 1),
    ;
}

/// `sqrt_floor` itself satisfies the square-root property.
pub proof fn lemma_sqrt_floor_is_sqrt(x: int)
    requires
        0 <= x,
    ensures
        is_sqrt_floor(x, sqrt_floor(x)),
{
    let w = lemma_sqrt_floor_exists(x);
}

/// Computes the integer square root of `x`, rounded down.
pub fn isqrt(x: u128) -> (r: u128)
    ensures
        r as int == sqrt_floor(x as int),
        is_sqrt_floor(x as int, r as int),
        r <= 0xffff_ffff_ffff_ffffu128,
{
    let mut lo: u128 = 0;
    let mut hi: u128 = 0x1_0000_0000_0000_0000;
    proof {
        assert((hi * hi) > u128::MAX) by (nonlinear_arith)
            requires
                hi == 0x1_0000_0000_0000_0000u128,
        ;
    }
    while hi - lo > 1
        invariant
            0 <= lo < hi,
            hi <= 0x1_0000_0000_0000_0000,
            lo * lo <= x,
            x < hi * hi,
        decreases hi - lo,
    {
        let mid = lo + (hi - lo) / 2;
        proof {
            assert(mid * mid <= u128::MAX) by (nonlinear_arith)
                requires
                    mid < 0x1_0000_0000_0000_0000u128,
            ;
        }
        if mid * mid <= x {
            lo = mid;
        } else {
            hi = mid;
        }
    }
    proof {
        assert(is_sqrt_floor(x as int, lo as int));
        lemma_sqrt_floor_is_sqrt(x as int);
        lemma_sqrt_floor_unique(x as int, lo as int, sqrt_floor(x as int));
    }
    lo
}

/// Sum of a sequence of fixed-point values, as a mathematical integer.
pub open spec fn sum(s: Seq<i64>) -> int
    decreases s.len(),
{
    if s.len() == 0 {
        0
    } else {
        sum(s.drop_last()) + s.last()
    }
}

/// Extending a prefix by one element grows its sum by that element.
pub proof fn lemma_sum_extend(s: Seq<i64>, i: int)
    requires
        0 <= i < s.len(),
    ensures
        sum(s.subrange(0, i + 1)) == sum(s.subrange(0, i)) + s[i],
{
    let t = s.subrange(0, i + 1);
    assert(t.drop_last() =~= s.subrange(0, i));
}

/// Extending any window by one element grows its sum by that element.
pub proof fn lemma_sum_extend_window(s: Seq<i64>, a: int, j: int)
    requires
        0 <= a <= j < s.len(),
    ensures
        sum(s.subrange(a, j + 1)) == sum(s.subrange(a, j)) + s[j],
{
    let t = s.subrange(a, j + 1);
    assert(t.drop_last() =~= s.subrange(a, j));
    assert(t.last() == s[j]);
}

/// A sequence of equal values sums to the value times the length.
pub proof fn lemma_sum_constant(s: Seq<i64>)
    requires
        s.len() >= 1,
        forall|i: int| 0 <= i < s.len() ==> #[trigger] s[i] == s[0],
    ensures
        sum(s) == s.len() * s[0],
    decreases s.len(),
{
    let n = s.len() as int;
    let v = s[0] as int;
    if s.len() == 1 {
        assert(s.drop_last() =~= Seq::<i64>::empty());
        assert(sum(Seq::<i64>::empty()) == 0);
        assert(sum(s) == v);
        assert(n * v == v) by (nonlinear_arith)
            requires
                n == 1,
        ;
    } else {
        lemma_sum_constant(s.drop_last());
        assert(s.drop_last()[0] == s[0]);
        assert(s.drop_last().len() as int == n - 1);
        assert(s.last() == s[n - 1]);
        assert(s[n - 1] == s[0]);
        assert(sum(s) == sum(s.drop_last()) + v);
        assert(sum(s.drop_last()) == (n - 1) * v);
        assert((n - 1) * v + v == n * v) by (nonlinear_arith);
    }
}

/// Exact multiples divide exactly: `div_trunc(c·b, b) == c`.
pub proof fn lemma_div_trunc_exact(c: int, b: int)
    requires
        b >= 1,
    ensures
        div_trunc(c * b, b) == c,
{
    vstd::arithmetic::mul::lemma_mul_is_commutative(c, b);
    vstd::arithmetic::div_mod::lemma_div_multiples_vanish(c, b);
    if c * b < 0 {
        assert((-(c * b)) == b * (-c)) by (nonlinear_arith);
        vstd::arithmetic::div_mod::lemma_div_multiples_vanish(-c, b);
    }
}

} // verus!
