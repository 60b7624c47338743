use vstd::prelude::*;

verus! {

/// Integer division rounding toward zero, as machine division does.
pub open spec fn quot(a: int, b: int) -> int {
    if a >= 0 {
        a / b
    } else {
        -((-a) / b)
    }
}

/// `a` limited to `[-lim, lim]`.
pub open spec fn clamp(a: int, lim: int) -> int {
    if a > lim {
        lim
    } else if a < -lim {
        -lim
    } else {
        a
    }
}

/// `r` is the integer square root of `n`.
pub open spec fn is_isqrt(n: int, r: int) -> bool {
    0 <= r && r * r <= n < (r + 1) * (r + 1)
}

/// The integer square root (rounded down) of `n`.
pub open spec fn isqrt_spec(n: int) -> int {
    choose|r: int| is_isqrt(n, r)
}

pub proof fn lemma_isqrt_unique(n: int, r: int, s: int)
    requires
        is_isqrt(n, r),
        is_isqrt(n, s),
    ensures
        r == s,
{
    if r < s {
        assert((r + 1) * (r + 1) <= s * s) by (nonlinear_arith)
            requires
                0 <= r < s,
        ;
    } else if s < r {
        assert((s + 1) * (s + 1) <= r * r) by (nonlinear_arith)
            requires
                0 <= s < r,
        ;
    }
}

/// The integer square root of `n`, found by bisection.
pub fn isqrt(n: u128) -> (r: u128)
    requires
        n < 0x1_0000_0000_0000_0000_0000_0000_0000,
    ensures
        is_isqrt(n as int, r as int),
        r as int == isqrt_spec(n as int),
{
    let mut lo: u128 = 0;
    let mut hi: u128 = 0x1_0000_0000_0000_0000;
    assert(hi * hi > n) by (nonlinear_arith)
        requires
            hi == 0x1_0000_0000_0000_0000,
            n < 0x1_0000_0000_0000_0000_0000_0000_0000,
    ;
    while hi - lo > 1
        invariant
            lo < hi <= 0x1_0000_0000_0000_0000,
            lo * lo <= n,
            hi * hi > n,
        decreases hi - lo,
    {
        let mid = lo + (hi - lo) / 2;
        assert(mid < hi);
        assert(mid * mid <= u128::MAX) by (nonlinear_arith)
            requires
                mid < 0x1_0000_0000_0000_0000,
        ;
        if mid * mid <= n {
            lo = mid;
        } else {
            hi = mid;
        }
    }
    assert(hi == lo + 1);
    proof {
        assert(is_isqrt(n as int, lo as int));
        let s = isqrt_spec(n as int);
        assert(is_isqrt(n as int, s));
        lemma_isqrt_unique(n as int, lo as int, s);
    }
    lo
}

/// Division rounding toward zero.
pub fn quot_exec(a: i128, b: i128) -> (r: i128)
    requires
        b > 0,
        a > i128::MIN,
    ensures
        r == quot(a as int, b as int),
        a >= 0 ==> 0 <= r <= a,
        a < 0 ==> a <= r <= 0,
{
    if a >= 0 {
        assert(a / b <= a) by (nonlinear_arith)
            requires
                a >= 0,
                b > 0,
        ;
        a / b
    } else {
        assert((-(a as int)) / (b as int) <= -(a as int)) by (nonlinear_arith)
            requires
                a < 0,
                b > 0,
        ;
        -((-a) / b)
    }
}

/// `a` limited to `[-lim, lim]`.
pub fn clamp_exec(a: i128, lim: i64) -> (r: i64)
    requires
        lim >= 0,
    ensures
        r == clamp(a as int, lim as int),
{
    if a > lim as i128 {
        lim
    } else if a < -(lim as i128) {
        -lim
    } else {
        a as i64
    }
}

} // verus!
