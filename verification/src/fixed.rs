//! 16.16 fixed-point arithmetic: an integer `v` stands for the number
//! `v / 65536`.

use vstd::arithmetic::div_mod::{
    lemma_fundamental_div_mod, lemma_fundamental_div_mod_converse, lemma_mod_bound,
};
use vstd::prelude::*;

verus! {

/// The integer that stands for the number one.
pub const ONE: i64 = 65536;

/// The grid cell that the coordinate `p` lies in: `p / 65536` rounded down.
pub open spec fn cell_index(p: int) -> int {
    p / 65536
}

/// How far the coordinate `p` lies beyond the lower edge of its cell.
pub open spec fn cell_offset(p: int) -> int {
    p % 65536
}

/// `v` limited to the range of `i32`.
pub open spec fn clamp_i32(v: int) -> int {
    if v < i32::MIN {
        i32::MIN as int
    } else if v > i32::MAX {
        i32::MAX as int
    } else {
        v
    }
}

/// Whether `r` is the largest integer whose square does not exceed `n`.
pub open spec fn is_sqrt(n: int, r: int) -> bool {
    0 <= r && r * r <= n < (r + 1) * (r + 1)
}

/// The square root of `n`, rounded down.
pub open spec fn floor_sqrt(n: int) -> int {
    choose|r: int| is_sqrt(n, r)
}

/// At most one integer is the square root of `n` rounded down.
pub proof fn lemma_sqrt_unique(n: int, r1: int, r2: int)
    by (nonlinear_arith)
    requires
        is_sqrt(n, r1),
        is_sqrt(n, r2),
    ensures
        r1 == r2,
{
}

/// The cell of `p` and the offset of `p` in it.
pub fn split_cell(p: i32) -> (r: (i32, i32))
    ensures
        r.0 == cell_index(p as int),
        r.1 == cell_offset(p as int),
        0 <= r.1 < 65536,
        -32768 <= r.0 < 32768,
{
    let shifted: i64 = p as i64 + 0x8000_0000;
    let cell: i64 = shifted / 65536 - 32768;
    let offset: i64 = shifted % 65536;
    (cell as i32, offset as i32)
}

/// `n / d` rounded down.
pub fn floor_div(n: i128, d: i128) -> (q: i128)
    requires
        0 < d < 0x4000_0000_0000_0000_0000_0000_0000_0000,
        -0x4000_0000_0000_0000_0000_0000_0000_0000 < n
            < 0x4000_0000_0000_0000_0000_0000_0000_0000,
    ensures
        q == n as int / d as int,
        n >= 0 ==> 0 <= q <= n,
        n < 0 ==> n <= q < 0,
{
    if n >= 0 {
        proof {
            lemma_fundamental_div_mod(n as int, d as int);
            lemma_mod_bound(n as int, d as int);
            let q0 = n as int / d as int;
            let r0 = n as int % d as int;
            assert(0 <= q0 <= n) by (nonlinear_arith)
                requires
                    n == (d as int) * q0 + r0,
                    0 <= r0 < d,
                    n >= 0,
                    d >= 1,
            ;
        }
        n / d
    } else {
        let m: i128 = -n;
        let up: i128 = (m + d - 1) / d;
        proof {
            let t = (m + d - 1) as int;
            lemma_fundamental_div_mod(t, d as int);
            lemma_mod_bound(t, d as int);
            let r = t % (d as int);
            assert(t == (d as int) * (up as int) + r);
            let rem = d - 1 - r;
            assert(n as int == (-up) * d + rem) by (nonlinear_arith)
                requires
                    t == (d as int) * (up as int) + r,
                    t == -n + d - 1,
                    rem == d - 1 - r,
            ;
            lemma_fundamental_div_mod_converse(n as int, d as int, -(up as int), rem);
            assert(1 <= up <= m) by (nonlinear_arith)
                requires
                    t == (d as int) * (up as int) + r,
                    t == m + d - 1,
                    0 <= r < d,
                    m >= 1,
                    d >= 1,
            ;
        }
        -up
    }
}

/// How far the coordinate `v` lies beyond the lower edge of its cell.
pub fn offset_in_cell(v: i128) -> (r: i32)
    requires
        -0x100_0000_0000_0000_0000_0000_0000_0000 < v < 0x100_0000_0000_0000_0000_0000_0000_0000,
    ensures
        r == cell_offset(v as int),
        0 <= r < 65536,
{
    let shifted: i128 = v + 0x100_0000_0000_0000_0000_0000_0000_0000;
    (shifted % 65536) as i32
}

/// The square root of `n`, rounded down.
pub fn isqrt(n: u128) -> (r: u64)
    ensures
        is_sqrt(n as int, r as int),
        r == floor_sqrt(n as int),
{
    let mut lo: u128 = 0;
    let mut hi: u128 = 0x1_0000_0000_0000_0000;
    assert(lo * lo <= n);
    assert(n < hi * hi) by (nonlinear_arith)
        requires
            hi == 0x1_0000_0000_0000_0000,
            n <= u128::MAX,
    ;
    while hi - lo > 1
        invariant
            lo < hi <= 0x1_0000_0000_0000_0000,
            lo * lo <= n < hi * hi,
        decreases hi - lo,
    {
        let mid: u128 = lo + (hi - lo) / 2;
        assert(mid * mid <= 0xffff_ffff_ffff_ffff * 0xffff_ffff_ffff_ffff) by (nonlinear_arith)
            requires
                0 <= mid <= 0xffff_ffff_ffff_ffff,
        ;
        if mid * mid <= n {
            lo = mid;
        } else {
            hi = mid;
        }
    }
    proof {
        lemma_sqrt_unique(n as int, lo as int, floor_sqrt(n as int));
    }
    lo as u64
}

/// The quotient `num / den` of two integers as a rational number, rounded
/// down; 0 when `den` is 0.
pub open spec fn ratio(num: int, den: int) -> int {
    if den > 0 {
        num / den
    } else if den < 0 {
        (-num) / (-den)
    } else {
        0
    }
}

/// `num / den` rounded down, or 0 when `den` is 0.
pub fn floor_ratio(num: i128, den: i128) -> (q: i128)
    requires
        -0x4000_0000_0000_0000_0000_0000_0000_0000 < den
            < 0x4000_0000_0000_0000_0000_0000_0000_0000,
        -0x4000_0000_0000_0000_0000_0000_0000_0000 < num
            < 0x4000_0000_0000_0000_0000_0000_0000_0000,
    ensures
        q == ratio(num as int, den as int),
        num >= 0 ==> -num <= q <= num,
        num < 0 ==> num <= q <= -num,
{
    if den > 0 {
        floor_div(num, den)
    } else if den < 0 {
        floor_div(-num, -den)
    } else {
        0
    }
}

/// Of two fractions with positive denominators, the smaller has the smaller
/// quotient when both are scaled by `k` and rounded down.
pub proof fn lemma_quotients_ordered(a: int, b: int, c: int, d: int, k: int)
    requires
        0 <= a,
        0 <= c,
        0 < b,
        0 < d,
        0 < k,
        a * d <= c * b,
    ensures
        a * k / b <= c * k / d,
{
    let q1 = a * k / b;
    let r1 = a * k % b;
    let q2 = c * k / d;
    let r2 = c * k % d;
    lemma_fundamental_div_mod(a * k, b);
    lemma_mod_bound(a * k, b);
    lemma_fundamental_div_mod(c * k, d);
    lemma_mod_bound(c * k, d);
    if q1 > q2 {
        assert(c * k < q1 * d) by (nonlinear_arith)
            requires
                c * k == d * q2 + r2,
                0 <= r2 < d,
                q1 >= q2 + 1,
        ;
        assert(q1 * b <= a * k) by (nonlinear_arith)
            requires
                a * k == b * q1 + r1,
                0 <= r1,
        ;
        assert((c * k) * b < (q1 * d) * b) by (nonlinear_arith)
            requires
                c * k < q1 * d,
                b > 0,
        ;
        assert((q1 * b) * d <= (a * k) * d) by (nonlinear_arith)
            requires
                q1 * b <= a * k,
                d > 0,
        ;
        assert((q1 * d) * b == (q1 * b) * d) by (nonlinear_arith);
        assert((c * k) * b == (c * b) * k) by (nonlinear_arith);
        assert((a * k) * d == (a * d) * k) by (nonlinear_arith);
        assert((a * d) * k <= (c * b) * k) by (nonlinear_arith)
            requires
                a * d <= c * b,
                k > 0,
        ;
        assert(false);
    }
}

} // verus!
