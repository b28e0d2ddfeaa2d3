//! Small integer arithmetic shared by the modules.

use vstd::prelude::*;

verus! {

/// The quotient of `a` by `b`, rounded up.
pub open spec fn ceil_div(a: int, b: int) -> int {
    (a + b - 1) / b
}

/// The smaller of two integers.
pub open spec fn least(a: int, b: int) -> int {
    if a <= b {
        a
    } else {
        b
    }
}

/// The larger of two integers.
pub open spec fn most(a: int, b: int) -> int {
    if a >= b {
        a
    } else {
        b
    }
}

/// `x` moved to the nearest value between `lo` and `hi`.
pub open spec fn clamped(x: int, lo: int, hi: int) -> int {
    if x < lo {
        lo
    } else if x > hi {
        hi
    } else {
        x
    }
}

/// `ceil_div` is the least number of groups of `b` that hold `a` things.
pub proof fn lemma_ceil_div(a: int, b: int)
    requires
        a >= 0,
        b > 0,
    ensures
        ceil_div(a, b) * b >= a,
        a > 0 ==> (ceil_div(a, b) - 1) * b < a,
        a > 0 ==> ceil_div(a, b) >= 1,
        a == 0 ==> ceil_div(a, b) == 0,
        0 <= ceil_div(a, b) <= a,
        ceil_div(a, b) == a / b + (if a % b == 0 {
            0int
        } else {
            1int
        }),
{
    let q = (a + b - 1) / b;
    vstd::arithmetic::div_mod::lemma_fundamental_div_mod(a + b - 1, b);
    vstd::arithmetic::div_mod::lemma_fundamental_div_mod(a, b);
    let r = (a + b - 1) % b;
    assert(0 <= r < b);
    let (qa, ra) = (a / b, a % b);
    assert(0 <= ra < b);
    assert(q * b == a + b - 1 - r) by (nonlinear_arith)
        requires
            a + b - 1 == b * q + r,
    ;
    assert((q - 1) * b == q * b - b) by (nonlinear_arith);
    if ra == 0 {
        assert(q == qa) by (nonlinear_arith)
            requires
                a == b * qa + ra,
                ra == 0,
                a + b - 1 == b * q + r,
                0 <= r < b,
                b > 0,
        ;
    } else {
        assert(q == qa + 1) by (nonlinear_arith)
            requires
                a == b * qa + ra,
                0 < ra < b,
                a + b - 1 == b * q + r,
                0 <= r < b,
                b > 0,
        ;
    }
    assert(q >= 0) by (nonlinear_arith)
        requires
            q * b >= a,
            a >= 0,
            b > 0,
    ;
    if a > 0 {
        assert(q >= 1) by (nonlinear_arith)
            requires
                q * b >= a,
                a > 0,
                b > 0,
        ;
        assert(q <= a) by (nonlinear_arith)
            requires
                (q - 1) * b < a,
                q >= 1,
                b >= 1,
        ;
    } else {
        assert(q == 0) by (nonlinear_arith)
            requires
                (q - 1) * b == -1 - r,
                q >= 0,
                0 <= r < b,
                b > 0,
        ;
    }
}

/// The quotient of `a` by `b`, rounded up.
pub fn div_ceil(a: usize, b: usize) -> (q: usize)
    requires
        b > 0,
    ensures
        q == ceil_div(a as int, b as int),
{
    proof {
        lemma_ceil_div(a as int, b as int);
    }
    if a % b == 0 {
        a / b
    } else {
        a / b + 1
    }
}

/// The least power of two that is at least `x` and at least `p`, for a power
/// of two `p`.
pub open spec fn power_of_two_from(x: int, p: int) -> int
    decreases 2 * x - p,
{
    if p >= x || p <= 0 {
        p
    } else {
        power_of_two_from(x, p * 2)
    }
}

/// The least power of two that is at least `x`; one for zero.
pub open spec fn power_of_two_above(x: int) -> int {
    power_of_two_from(x, 1)
}

/// Where `power_of_two_above` lies.
pub proof fn lemma_power_of_two_above(x: int, p: int)
    requires
        p >= 1,
    ensures
        power_of_two_from(x, p) >= x,
        power_of_two_from(x, p) >= p,
        p < x ==> power_of_two_from(x, p) < 2 * x,
        p >= x ==> power_of_two_from(x, p) == p,
        p > 1 && p % 2 == 0 ==> power_of_two_from(x, p) % 2 == 0,
    decreases 2 * x - p,
{
    if p < x {
        lemma_power_of_two_above(x, p * 2);
    }
}

/// The least power of two that is at least `x`; one for zero.
pub fn next_power_of_two(x: usize) -> (p: usize)
    requires
        x <= usize::MAX / 2,
    ensures
        p == power_of_two_above(x as int),
{
    let mut p: usize = 1;
    while p < x
        invariant
            p >= 1,
            x <= usize::MAX / 2,
            power_of_two_from(x as int, p as int) == power_of_two_above(x as int),
        decreases 2 * x - p,
    {
        p = p * 2;
    }
    p
}

} // verus!
