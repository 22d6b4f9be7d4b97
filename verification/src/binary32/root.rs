//! The square root of a single-precision number, correctly rounded.

use vstd::prelude::*;
use vstd::arithmetic::power2::{
    lemma2_to64, lemma2_to64_rest, lemma_pow2_adds, lemma_pow2_pos,
    lemma_pow2_strictly_increases, pow2,
};
use crate::binary32::{
    is_nan, is_negative, is_positive_finite, is_zero, packed, quieted, scale, significand,
    DEFAULT_NAN, HIDDEN, INFINITY, QUIET, SIGN,
};

verus! {

/// `q` is the integer nearest to the square root of `n`.
///
/// Nearest means `(q - 1/2)^2 < n < (q + 1/2)^2`. Neither bound can be met
/// by an integer `n`, and between integers the two inequalities read as
/// below.
pub open spec fn is_nearest_root(q: int, n: int) -> bool {
    &&& 0 <= q
    &&& q * (q - 1) < n
    &&& n <= q * (q + 1)
}

/// The integer nearest to the square root of `n`, for `n >= 1`.
pub open spec fn nearest_root(n: int) -> int {
    choose|q: int| is_nearest_root(q, n)
}

/// At most one integer is nearest to a square root, so whichever is found
/// to be nearest is the one that [`nearest_root`] names.
pub proof fn lemma_nearest_root_unique(q: int, n: int)
    requires
        is_nearest_root(q, n),
    ensures
        nearest_root(n) == q,
{
    let p = nearest_root(n);
    assert(is_nearest_root(p, n));
    if p < q {
        assert(p * (p + 1) <= q * (q - 1)) by (nonlinear_arith)
            requires
                0 <= p,
                p + 1 <= q,
        ;
    } else if q < p {
        assert(q * (q + 1) <= p * (p - 1)) by (nonlinear_arith)
            requires
                0 <= q,
                q + 1 <= p,
        ;
    }
}

/// The largest `s` whose square does not exceed `n`.
fn floor_root(n: u64) -> (s: u64)
    ensures
        s * s <= n,
        n < (s + 1) * (s + 1),
        s < 0x1_0000_0000,
{
    let mut low: u64 = 0;
    let mut high: u64 = 0x1_0000_0000;
    while high - low > 1
        invariant
            low < high <= 0x1_0000_0000,
            low * low <= n,
            n < high * high,
        decreases high - low,
    {
        let mid: u64 = low + (high - low) / 2;
        assert(mid * mid < 0x1_0000_0000 * 0x1_0000_0000) by (nonlinear_arith)
            requires
                mid < 0x1_0000_0000,
        ;
        if mid * mid <= n {
            low = mid;
        } else {
            high = mid;
        }
    }
    low
}

/// The integer nearest to the square root of `n`.
fn round_root(n: u64) -> (q: u64)
    requires
        1 <= n,
    ensures
        is_nearest_root(q as int, n as int),
        q == nearest_root(n as int),
        q <= 0x1_0000_0000,
{
    let s = floor_root(n);
    assert(s * s + 2 * s + 1 == (s + 1) * (s + 1)) by (nonlinear_arith);
    assert(s * (s + 1) == s * s + s) by (nonlinear_arith);
    assert(s * (s - 1) == s * s - s) by (nonlinear_arith);
    assert((s + 1) * (s + 2) == s * s + 3 * s + 2) by (nonlinear_arith);
    assert((s + 1) * s == s * s + s) by (nonlinear_arith);
    let q = if n - s * s > s {
        s + 1
    } else {
        s
    };
    proof {
        lemma_nearest_root_unique(q as int, n as int);
    }
    q
}

/// `j` is the number of binary places by which the significand `m` of a
/// number `m * 2^e` is widened before its root is taken. The widened
/// significand has 47 or 48 bits, so that its root has exactly 24, and the
/// scale that is left, `e - j`, is even, so that it can be halved.
pub open spec fn is_widening(j: int, m: int, e: int) -> bool {
    &&& 0 <= j
    &&& 0x4000_0000_0000 <= m * pow2(j as nat) < 0x1_0000_0000_0000
    &&& (e - j) % 2 == 0
}

/// The widening of `m * 2^e`, for `m >= 1`.
pub open spec fn widening(m: int, e: int) -> int {
    choose|j: int| is_widening(j, m, e)
}

/// A number has at most one widening: two more places would quadruple the
/// widened significand and push it out of its range.
pub proof fn lemma_widening_unique(j: int, m: int, e: int)
    requires
        is_widening(j, m, e),
    ensures
        widening(m, e) == j,
{
    let i = widening(m, e);
    assert(is_widening(i, m, e));
    if i < j {
        lemma_widening_apart(i, j, m);
    } else if j < i {
        lemma_widening_apart(j, i, m);
    }
}

/// Two more binary places at least quadruple a positive product.
proof fn lemma_widening_apart(i: int, j: int, m: int)
    requires
        0 <= i,
        i + 2 <= j,
        0 < m * pow2(i as nat),
    ensures
        4 * (m * pow2(i as nat)) <= m * pow2(j as nat),
{
    let gap = (j - i) as nat;
    lemma_pow2_adds(i as nat, gap);
    lemma_pow2_adds(2, (gap - 2) as nat);
    lemma_pow2_pos((gap - 2) as nat);
    lemma_pow2_pos(i as nat);
    lemma2_to64();
    let unit = pow2(i as nat) as int;
    let rest = pow2((gap - 2) as nat) as int;
    assert(pow2(j as nat) == unit * (4 * rest));
    assert(0 < m) by (nonlinear_arith)
        requires
            0 < m * unit,
            0 < unit,
    ;
    assert(4 * (m * unit) <= m * (unit * (4 * rest))) by (nonlinear_arith)
        requires
            0 < m,
            0 < unit,
            1 <= rest,
    ;
}

/// The pattern of the square root of a positive finite number, rounded to
/// the nearest single-precision number.
///
/// With `j` the widening of the number `m * 2^e`, the exact root is
/// `sqrt(m * 2^j) * 2^((e - j) / 2)`. The first factor lies between `2^23`
/// and `2^24`; the integer nearest to it is the significand of the result.
pub open spec fn positive_root(b: u32) -> int {
    let m = significand(b);
    let e = scale(b);
    let j = widening(m, e);
    packed(nearest_root(m * pow2(j as nat)), (e - j) / 2)
}

/// The pattern of the square root of the number with pattern `b`.
///
/// * A NaN gives the same NaN, made quiet.
/// * Zero gives zero of the same sign.
/// * Any other negative number, negative infinity included, gives the
///   default NaN.
/// * Positive infinity gives positive infinity.
/// * A positive finite number gives its root, correctly rounded.
pub open spec fn sqrt_of(b: u32) -> u32 {
    if is_nan(b) {
        quieted(b)
    } else if is_zero(b) {
        b
    } else if is_negative(b) {
        DEFAULT_NAN
    } else if b == INFINITY {
        INFINITY
    } else {
        positive_root(b) as u32
    }
}

/// The square root of a single-precision number, from pattern to pattern.
///
/// No floating-point unit takes part: the significand is widened to 48
/// bits, its integer root is found by bisection and rounded to nearest, and
/// the halved exponent is put back in front of it.
pub fn sqrt(b: u32) -> (r: u32)
    ensures
        r == sqrt_of(b),
{
    let magnitude = b % SIGN;
    let field = magnitude / HIDDEN;
    let fraction = b % HIDDEN;
    if magnitude > INFINITY {
        return if fraction < QUIET {
            b + QUIET
        } else {
            b
        };
    }
    if magnitude == 0 {
        return b;
    }
    if b >= SIGN {
        return DEFAULT_NAN;
    }
    if b == INFINITY {
        return b;
    }
    // From here on the number is `m * 2^(t - 172)`, with `t` kept above zero.
    let mut m: u64 = if field == 0 {
        fraction as u64
    } else {
        (HIDDEN + fraction) as u64
    };
    let mut t: u32 = if field == 0 {
        23
    } else {
        field + 22
    };
    let ghost m0 = m as int;
    let ghost t0 = t as int;
    proof {
        lemma2_to64();
        assert(m0 == significand(b));
        assert(t0 - 172 == scale(b));
        assert(m0 * pow2(0) == m0) by (nonlinear_arith)
            requires
                pow2(0) == 1,
        ;
    }
    // A subnormal number is brought up to 24 significant bits.
    while m < 0x80_0000
        invariant
            0 < m < 0x100_0000,
            0 < m0,
            t <= t0,
            m == m0 * pow2((t0 - t) as nat),
            m < 0x80_0000 ==> t0 == 23,
        decreases t,
    {
        proof {
            let done = (t0 - t) as nat;
            lemma2_to64();
            lemma_pow2_adds(done, 1);
            lemma_pow2_pos(done);
            if done >= 23 {
                lemma_pow2_adds(23, (done - 23) as nat);
                lemma_pow2_pos((done - 23) as nat);
                assert(m0 * pow2(done) >= 0x80_0000) by (nonlinear_arith)
                    requires
                        m0 >= 1,
                        pow2(done) == 0x80_0000 * pow2((done - 23) as nat),
                        pow2((done - 23) as nat) >= 1,
                ;
            }
            assert(m0 * (pow2(done) * 2) == 2 * (m0 * pow2(done))) by (nonlinear_arith);
        }
        m = m * 2;
        t = t - 1;
    }
    let odd = t % 2 == 1;
    let wide: u64 = if odd {
        m * 0x80_0000
    } else {
        m * 0x100_0000
    };
    let top: u32 = if odd {
        (t + 103) / 2
    } else {
        (t + 102) / 2
    };
    let q = round_root(wide);
    proof {
        let places: int = if odd {
            23
        } else {
            24
        };
        let j = (t0 - t) + places;
        lemma_pow2_adds((t0 - t) as nat, places as nat);
        assert(m0 * (pow2((t0 - t) as nat) * pow2(places as nat)) == (m0 * pow2((t0 - t) as nat))
            * pow2(places as nat)) by (nonlinear_arith);
        assert(wide == m0 * pow2(j as nat));
        assert(is_widening(j, m0, t0 - 172));
        lemma_widening_unique(j, m0, t0 - 172);
        assert((t0 - 172 - j) / 2 + 149 == top);
        lemma_root_of_wide(wide as int, q as int);
    }
    top * 0x80_0000 + (q as u32)
}

/// The root of a 47- or 48-bit integer, rounded to nearest, has 24 bits.
proof fn lemma_root_of_wide(n: int, q: int)
    requires
        0x4000_0000_0000 <= n < 0x1_0000_0000_0000,
        is_nearest_root(q, n),
    ensures
        0x80_0000 <= q <= 0x100_0000,
{
    if q < 0x80_0000 {
        assert(q * (q + 1) < 0x4000_0000_0000) by (nonlinear_arith)
            requires
                0 <= q < 0x80_0000,
        ;
    }
    if q > 0x100_0000 {
        assert(q * (q - 1) >= 0x1_0000_0000_0000) by (nonlinear_arith)
            requires
                q > 0x100_0000,
        ;
    }
}

/// The root of a widened significand never rounds up to `2^24`.
///
/// It would have to exceed `2^24 - 1/2`, and the widened significand
/// `2^48 - 2^24`. But that is a multiple of `2^23` below `2^48`, so it would
/// be `2^48 - 2^23`, which is `2^23` times an odd number of 25 bits; and the
/// significand has 24 bits at most.
proof fn lemma_root_below_carry(m: int, j: int, q: int)
    requires
        0 < m < 0x100_0000,
        23 <= j,
        m * pow2(j as nat) < 0x1_0000_0000_0000,
        is_nearest_root(q, m * pow2(j as nat)),
    ensures
        q < 0x100_0000,
{
    let wide = m * pow2(j as nat);
    lemma2_to64();
    lemma_pow2_adds(23, (j - 23) as nat);
    lemma_pow2_pos((j - 23) as nat);
    let rest = m * pow2((j - 23) as nat);
    assert(wide == 0x80_0000 * rest) by (nonlinear_arith)
        requires
            wide == m * pow2(j as nat),
            pow2(j as nat) == 0x80_0000 * pow2((j - 23) as nat),
            rest == m * pow2((j - 23) as nat),
    ;
    if q >= 0x100_0000 {
        assert(q * (q - 1) >= 0x1_0000_0000_0000 - 0x100_0000) by (nonlinear_arith)
            requires
                q >= 0x100_0000,
        ;
        assert(rest == 0x200_0000 - 1);
        if j > 23 {
            lemma_pow2_adds(1, (j - 24) as nat);
            assert(rest == 2 * (m * pow2((j - 24) as nat))) by (nonlinear_arith)
                requires
                    rest == m * pow2((j - 23) as nat),
                    pow2((j - 23) as nat) == 2 * pow2((j - 24) as nat),
            ;
        } else {
            assert(rest == m) by (nonlinear_arith)
                requires
                    rest == m * pow2(0),
                    pow2(0) == 1,
            ;
        }
    }
}

/// Every positive integer has a nearest root.
pub proof fn lemma_nearest_root_exists(n: int) -> (q: int)
    requires
        1 <= n,
    ensures
        is_nearest_root(q, n),
        q == nearest_root(n),
    decreases n,
{
    let q = if n == 1 {
        1
    } else {
        let below = lemma_nearest_root_exists(n - 1);
        assert((below + 1) * below == below * (below + 1)) by (nonlinear_arith);
        assert(below * (below + 1) + 1 <= (below + 1) * (below + 2)) by (nonlinear_arith)
            requires
                0 <= below,
        ;
        if n <= below * (below + 1) {
            below
        } else {
            below + 1
        }
    };
    lemma_nearest_root_unique(q, n);
    q
}

/// Every number with a positive significand of at most 24 bits has a
/// widening, of at least 23 and at most 47 places.
pub proof fn lemma_widening_exists(m: int, e: int) -> (j: int)
    requires
        0 < m < 0x100_0000,
    ensures
        is_widening(j, m, e),
        j == widening(m, e),
        23 <= j <= 47,
    decreases 0x100_0000 - m,
{
    lemma2_to64();
    let j = if m >= 0x80_0000 {
        assert(m * pow2(23) == m * 0x80_0000 && m * pow2(24) == m * 0x100_0000)
            by (nonlinear_arith)
            requires
                pow2(23) == 0x80_0000,
                pow2(24) == 0x100_0000,
        ;
        if (e - 23) % 2 == 0 {
            23int
        } else {
            24int
        }
    } else {
        let inner = lemma_widening_exists(2 * m, e - 1);
        lemma_pow2_adds(1, inner as nat);
        assert(m * pow2((inner + 1) as nat) == (2 * m) * pow2(inner as nat))
            by (nonlinear_arith)
            requires
                pow2((inner + 1) as nat) == pow2(1) * pow2(inner as nat),
                pow2(1) == 2,
        ;
        inner + 1
    };
    if j > 47 {
        lemma_pow2_strictly_increases(47, j as nat);
        lemma2_to64_rest();
        assert(m * pow2(j as nat) >= pow2(j as nat)) by (nonlinear_arith)
            requires
                1 <= m,
        ;
    }
    lemma_widening_unique(j, m, e);
    j
}

/// The root of a positive finite number is a positive normal number that
/// lies within half a unit in its last place of the exact root: it is the
/// exact root correctly rounded.
///
/// With the number `x = m * 2^e` and the result `r = q * 2^k`, half a unit in
/// the last place of `r` is `2^k / 2`, and the claim is
/// `(r - 2^k / 2)^2 < x < (r + 2^k / 2)^2`. Multiplied by `4 * 2^298`, so
/// that every power of two is a whole number, it reads
/// `(2q - 1)^2 * u^2 < 4 * m * 2^(e + 298) < (2q + 1)^2 * u^2` with
/// `u = 2^(k + 149)`. Just below a result whose significand is `2^23` the
/// numbers lie twice as close together; there the exact root is not below
/// the result at all.
pub proof fn lemma_root_correctly_rounded(b: u32)
    requires
        is_positive_finite(b),
    ensures
        ({
            let r = sqrt_of(b);
            let q = significand(r);
            let u = pow2((scale(r) + 149) as nat) as int;
            let x = 4 * (significand(b) * pow2((scale(b) + 298) as nat));
            &&& HIDDEN <= r < INFINITY
            &&& scale(r) + 149 >= 0
            &&& (2 * q - 1) * (2 * q - 1) * (u * u) < x
            &&& x < (2 * q + 1) * (2 * q + 1) * (u * u)
            &&& q == HIDDEN ==> (2 * q) * (2 * q) * (u * u) <= x
        }),
{
    let m = significand(b);
    let e = scale(b);
    lemma2_to64();
    lemma2_to64_rest();
    assert(0 < m < 0x100_0000);
    let j = lemma_widening_exists(m, e);
    let wide = m * pow2(j as nat);
    let q = lemma_nearest_root_exists(wide);
    lemma_root_of_wide(wide, q);
    lemma_root_below_carry(m, j, q);
    let k = (e - j) / 2;
    let r = sqrt_of(b);
    assert(r == packed(q, k));
    assert(significand(r) == q);
    assert(scale(r) == k);
    // The number itself, in terms of the widened significand.
    let half = (k + 149) as nat;
    let u = pow2(half) as int;
    lemma_pow2_adds(half, half);
    lemma_pow2_adds(half + half, j as nat);
    lemma_pow2_pos(half);
    assert((e + 298) as nat == half + half + j as nat);
    let x = 4 * (m * pow2((e + 298) as nat));
    assert(x == 4 * wide * (u * u)) by (nonlinear_arith)
        requires
            x == 4 * (m * pow2((e + 298) as nat)),
            pow2((e + 298) as nat) == (u * u) * pow2(j as nat),
            wide == m * pow2(j as nat),
    ;
    assert((2 * q - 1) * (2 * q - 1) < 4 * wide && 4 * wide < (2 * q + 1) * (2 * q + 1))
        by (nonlinear_arith)
        requires
            is_nearest_root(q, wide),
    ;
    assert(0 < u * u) by (nonlinear_arith)
        requires
            0 < u,
    ;
    assert((2 * q - 1) * (2 * q - 1) * (u * u) < 4 * wide * (u * u)) by (nonlinear_arith)
        requires
            (2 * q - 1) * (2 * q - 1) < 4 * wide,
            0 < u * u,
    ;
    assert(4 * wide * (u * u) < (2 * q + 1) * (2 * q + 1) * (u * u)) by (nonlinear_arith)
        requires
            4 * wide < (2 * q + 1) * (2 * q + 1),
            0 < u * u,
    ;
    if q == 0x80_0000 {
        assert((2 * q) * (2 * q) * (u * u) <= 4 * wide * (u * u)) by (nonlinear_arith)
            requires
                q == 0x80_0000,
                0x4000_0000_0000 <= wide,
                0 < u * u,
        ;
    }
}

} // verus!
