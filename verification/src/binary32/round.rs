//! Rounding an exact value to the nearest single-precision number.
//!
//! The exact results of addition and multiplication are integers times a
//! power of two. This module turns such a value `m * 2^e` into the pattern
//! of the single-precision number nearest to it, with ties going to the
//! number whose last bit is zero and values beyond the largest finite number
//! going to infinity.

use vstd::prelude::*;
use vstd::arithmetic::power2::{
    lemma2_to64, lemma2_to64_rest, lemma_pow2_adds, lemma_pow2_pos,
    lemma_pow2_strictly_increases, pow2,
};
use vstd::bits::lemma_u64_shl_is_mul;
use crate::binary32::{packed, HIDDEN, INFINITY};

verus! {

/// `k` is the scale of the last place that `m * 2^e` is rounded to: the
/// scale at which the value has a significand of 24 bits, or the lowest
/// scale there is, `-149`, if that is higher.
///
/// Both sides of each comparison are multiplied by `2^298`, so that every
/// power of two is a whole number.
pub open spec fn is_quantum(k: int, m: int, e: int) -> bool {
    &&& -149 <= k
    &&& m * pow2((e + 298) as nat) < 0x100_0000 * pow2((k + 298) as nat)
    &&& k > -149 ==> 0x80_0000 * pow2((k + 298) as nat) <= m * pow2((e + 298) as nat)
}

/// The scale of the last place that `m * 2^e` is rounded to, for `m >= 1`
/// and `e >= -298`.
pub open spec fn quantum(m: int, e: int) -> int {
    choose|k: int| is_quantum(k, m, e)
}

/// The integer nearest to `n / d`, and of two that are equally near the even
/// one.
pub open spec fn half_even(n: int, d: int) -> int {
    let floor = n / d;
    let rest = n % d;
    if 2 * rest > d || (2 * rest == d && floor % 2 == 1) {
        floor + 1
    } else {
        floor
    }
}

/// The significand of `m * 2^e` at scale `k`, rounded to an integer.
pub open spec fn significand_at(k: int, m: int, e: int) -> int {
    if k <= e {
        m * pow2((e - k) as nat)
    } else {
        half_even(m, pow2((k - e) as nat) as int)
    }
}

/// The pattern of the single-precision number nearest to `m * 2^e`, for
/// `m >= 1` and `e >= -298`; the pattern of infinity where the value lies
/// beyond every finite number, and of zero where it rounds to nothing.
pub open spec fn rounded(m: int, e: int) -> int {
    let k = quantum(m, e);
    if k > 104 {
        INFINITY as int
    } else {
        packed(significand_at(k, m, e), k)
    }
}

/// A larger exponent gives a power of two that is not smaller.
pub proof fn lemma_pow2_monotone(a: nat, b: nat)
    requires
        a <= b,
    ensures
        pow2(a) <= pow2(b),
{
    if a < b {
        lemma_pow2_strictly_increases(a, b);
    }
}

/// A value has at most one quantum.
pub proof fn lemma_quantum_unique(k: int, m: int, e: int)
    requires
        is_quantum(k, m, e),
        -298 <= e,
    ensures
        quantum(m, e) == k,
{
    let c = quantum(m, e);
    assert(is_quantum(c, m, e));
    if c < k {
        lemma_quantum_apart(c, k);
    } else if k < c {
        lemma_quantum_apart(k, c);
    }
}

/// Twenty-four bits at one scale do not reach twenty-four at a higher one.
proof fn lemma_quantum_apart(low: int, high: int)
    requires
        -149 <= low < high,
    ensures
        0x100_0000 * pow2((low + 298) as nat) <= 0x80_0000 * pow2((high + 298) as nat),
{
    lemma_pow2_monotone((low + 299) as nat, (high + 298) as nat);
    lemma_pow2_adds(1, (low + 298) as nat);
    lemma2_to64();
}

/// The number of bits of `m`.
fn bit_length(m: u64) -> (len: u32)
    requires
        1 <= m < 0x4000_0000_0000_0000,
    ensures
        1 <= len <= 62,
        pow2((len - 1) as nat) <= m < pow2(len as nat),
{
    let mut len: u32 = 0;
    let mut bound: u64 = 1;
    proof {
        lemma2_to64();
    }
    while bound <= m
        invariant
            bound == pow2(len as nat),
            len <= 62,
            len > 0 ==> pow2((len - 1) as nat) <= m,
            m < 0x4000_0000_0000_0000,
            bound <= 0x4000_0000_0000_0000,
        decreases 0x8000_0000_0000_0000 - bound,
    {
        proof {
            lemma_pow2_adds(len as nat, 1);
            lemma2_to64();
            lemma2_to64_rest();
            if len >= 62 {
                lemma_pow2_monotone(62, len as nat);
            }
        }
        bound = bound * 2;
        len = len + 1;
    }
    len
}

/// Two to the power `n`.
pub(crate) fn two_to(n: u32) -> (p: u64)
    requires
        n <= 62,
    ensures
        p == pow2(n as nat),
{
    proof {
        lemma_pow2_monotone(n as nat, 62);
        lemma2_to64_rest();
        lemma_u64_shl_is_mul(1, n as u64);
    }
    1u64 << (n as u64)
}

/// The pattern of the single-precision number nearest to `m * 2^e`.
pub(crate) fn round_pack(m: u64, e: i32) -> (r: u32)
    requires
        1 <= m < 0x4000_0000_0000_0000,
        -298 <= e <= 208,
    ensures
        r == rounded(m as int, e as int),
        r <= INFINITY,
{
    let len = bit_length(m);
    let natural: i32 = e + (len as i32) - 24;
    let k: i32 = if natural < -149 {
        -149
    } else {
        natural
    };
    proof {
        lemma_quantum_found(m as int, e as int, len as int);
        lemma_quantum_unique(k as int, m as int, e as int);
    }
    if k > 104 {
        return INFINITY;
    }
    let q: u64 = if k <= e {
        let unit = two_to((e - k) as u32);
        proof {
            lemma_significand_bound(k as int, m as int, e as int);
        }
        m * unit
    } else if k - e >= 63 {
        proof {
            lemma_pow2_monotone(63, (k - e) as nat);
            lemma2_to64_rest();
            let d = pow2((k - e) as nat) as int;
            assert(m as int / d == 0 && m as int % d == m) by (nonlinear_arith)
                requires
                    0 <= m < d,
            ;
        }
        0
    } else {
        let unit = two_to((k - e) as u32);
        proof {
            lemma_significand_bound(k as int, m as int, e as int);
            lemma_pow2_pos((k - e) as nat);
            lemma_pow2_monotone((k - e) as nat, 62);
            lemma2_to64_rest();
        }
        let floor = m / unit;
        let rest = m % unit;
        if 2 * rest > unit || (2 * rest == unit && floor % 2 == 1) {
            floor + 1
        } else {
            floor
        }
    };
    assert(q == significand_at(k as int, m as int, e as int));
    ((k + 149) as u32) * HIDDEN + (q as u32)
}

/// The quantum of a value follows from the bit length of its significand.
proof fn lemma_quantum_found(m: int, e: int, len: int)
    requires
        1 <= len,
        pow2((len - 1) as nat) <= m < pow2(len as nat),
        -298 <= e,
    ensures
        is_quantum(
            if e + len - 24 < -149 {
                -149
            } else {
                e + len - 24
            },
            m,
            e,
        ),
{
    let natural = e + len - 24;
    let scale = pow2((e + 298) as nat) as int;
    lemma_pow2_pos((e + 298) as nat);
    lemma2_to64();
    assert(pow2((len - 1) as nat) * scale <= m * scale < pow2(len as nat) * scale)
        by (nonlinear_arith)
        requires
            pow2((len - 1) as nat) <= m < pow2(len as nat),
            0 < scale,
    ;
    lemma_pow2_adds(len as nat, (e + 298) as nat);
    lemma_pow2_adds((len - 1) as nat, (e + 298) as nat);
    if natural < -149 {
        lemma_pow2_monotone((len + e + 298) as nat, 172);
        lemma_pow2_adds(24, 149);
        lemma_pow2_adds(1, 172);
    } else {
        lemma_pow2_adds(24, (natural + 298) as nat);
        lemma_pow2_adds(23, (natural + 298) as nat);
    }
}

/// The significand of a value at its quantum has at most 24 bits, and one
/// more only to stand for `2^24` itself.
proof fn lemma_significand_bound(k: int, m: int, e: int)
    requires
        is_quantum(k, m, e),
        1 <= m,
        -298 <= e,
    ensures
        k <= e ==> m * pow2((e - k) as nat) < 0x100_0000,
        k > e ==> m / (pow2((k - e) as nat) as int) < 0x100_0000,
{
    let base = pow2((k + 298) as nat) as int;
    lemma_pow2_pos((k + 298) as nat);
    if k <= e {
        let up = pow2((e - k) as nat) as int;
        lemma_pow2_adds((e - k) as nat, (k + 298) as nat);
        assert(m * up < 0x100_0000) by (nonlinear_arith)
            requires
                m * (up * base) < 0x100_0000 * base,
                0 < base,
        ;
    } else {
        let down = pow2((k - e) as nat) as int;
        let low = pow2((e + 298) as nat) as int;
        lemma_pow2_pos((k - e) as nat);
        lemma_pow2_pos((e + 298) as nat);
        lemma_pow2_adds((k - e) as nat, (e + 298) as nat);
        assert(m < 0x100_0000 * down) by (nonlinear_arith)
            requires
                m * low < 0x100_0000 * (down * low),
                0 < low,
        ;
        assert(m / down < 0x100_0000) by (nonlinear_arith)
            requires
                m < 0x100_0000 * down,
                0 < down,
        ;
    }
}

/// Every positive integer has a bit length.
proof fn lemma_bit_length_exists(m: int) -> (len: int)
    requires
        1 <= m,
    ensures
        1 <= len,
        pow2((len - 1) as nat) <= m < pow2(len as nat),
    decreases m,
{
    lemma2_to64();
    if m == 1 {
        1
    } else {
        let inner = lemma_bit_length_exists(m / 2);
        lemma_pow2_adds(1, (inner - 1) as nat);
        lemma_pow2_adds(1, inner as nat);
        inner + 1
    }
}

/// Every value has a quantum.
pub proof fn lemma_quantum_exists(m: int, e: int) -> (k: int)
    requires
        1 <= m,
        -298 <= e,
    ensures
        is_quantum(k, m, e),
        k == quantum(m, e),
{
    let len = lemma_bit_length_exists(m);
    let k = if e + len - 24 < -149 {
        -149
    } else {
        e + len - 24
    };
    lemma_quantum_found(m, e, len);
    lemma_quantum_unique(k, m, e);
    k
}

/// A rounded value is the pattern of a number from zero to infinity.
pub proof fn lemma_rounded_range(m: int, e: int)
    requires
        1 <= m,
        -298 <= e,
    ensures
        0 <= rounded(m, e) <= INFINITY,
{
    let k = lemma_quantum_exists(m, e);
    if k <= 104 {
        lemma_significand_bound(k, m, e);
        if k > e {
            lemma_pow2_pos((k - e) as nat);
            let d = pow2((k - e) as nat) as int;
            assert(0 <= m / d) by (nonlinear_arith)
                requires
                    0 <= m,
                    0 < d,
            ;
        } else {
            lemma_pow2_pos((e - k) as nat);
            assert(0 <= m * pow2((e - k) as nat)) by (nonlinear_arith)
                requires
                    0 <= m,
            ;
        }
    }
}

/// Rounding moves a value by at most half a unit in the last place, and by
/// exactly half a unit only towards an even significand.
///
/// With `k` the quantum of `m * 2^e` and `q` the significand at that scale,
/// the rounded value is `q * 2^k`. Where `k <= e` nothing is lost. Where
/// `k > e`, with `d = 2^(k - e)`, the claim `|q * 2^k - m * 2^e| <= 2^k / 2`
/// reads `2 * |q * d - m| <= d`.
pub proof fn lemma_rounded_nearest(m: int, e: int)
    requires
        1 <= m,
        -298 <= e,
    ensures
        ({
            let k = quantum(m, e);
            let q = significand_at(k, m, e);
            let d = pow2((k - e) as nat) as int;
            &&& is_quantum(k, m, e)
            &&& 0 <= q <= 0x100_0000
            &&& k <= e ==> q == m * pow2((e - k) as nat)
            &&& k > e ==> -d <= 2 * (q * d - m) <= d
            &&& k > e && (2 * (q * d - m) == d || 2 * (q * d - m) == -d) ==> q % 2 == 0
        }),
{
    let k = lemma_quantum_exists(m, e);
    lemma_significand_bound(k, m, e);
    if k > e {
        let d = pow2((k - e) as nat) as int;
        lemma_pow2_pos((k - e) as nat);
        let floor = m / d;
        let rest = m % d;
        assert(m == floor * d + rest && 0 <= rest < d && 0 <= floor) by (nonlinear_arith)
            requires
                0 < d,
                0 <= m,
                floor == m / d,
                rest == m % d,
        ;
        assert((floor + 1) * d == floor * d + d) by (nonlinear_arith);
    } else {
        lemma_pow2_pos((e - k) as nat);
        assert(0 <= m * pow2((e - k) as nat)) by (nonlinear_arith)
            requires
                0 <= m,
        ;
    }
}

/// A value that a single-precision number holds exactly rounds to that
/// number: where `m * 2^e` is the number `s * 2^k`, with `s` a significand
/// and `k` its scale, the rounded pattern is the one made of `s` and `k`.
pub proof fn lemma_rounded_exact(m: int, e: int, s: int, k: int)
    requires
        1 <= m,
        -149 <= e,
        -149 <= k <= 104,
        0 < s < 0x100_0000,
        k > -149 ==> 0x80_0000 <= s,
        m * pow2((e + 149) as nat) == s * pow2((k + 149) as nat),
    ensures
        rounded(m, e) == packed(s, k),
{
    let low = pow2((e + 149) as nat) as int;
    let high = pow2((k + 149) as nat) as int;
    lemma_pow2_pos((e + 149) as nat);
    lemma_pow2_pos((k + 149) as nat);
    lemma_pow2_pos(149);
    lemma_pow2_adds((e + 149) as nat, 149);
    lemma_pow2_adds((k + 149) as nat, 149);
    let more = pow2(149) as int;
    assert(0 < high * more) by (nonlinear_arith)
        requires
            0 < high,
            0 < more,
    ;
    assert(m * (low * more) == s * (high * more)) by (nonlinear_arith)
        requires
            m * low == s * high,
    ;
    assert(s * (high * more) < 0x100_0000 * (high * more)) by (nonlinear_arith)
        requires
            s < 0x100_0000,
            0 < high * more,
    ;
    assert(0x80_0000 <= s ==> 0x80_0000 * (high * more) <= s * (high * more))
        by (nonlinear_arith)
        requires
            0 < high * more,
    ;
    assert(is_quantum(k, m, e));
    lemma_quantum_unique(k, m, e);
    if k <= e {
        let up = pow2((e - k) as nat) as int;
        lemma_pow2_adds((e - k) as nat, (k + 149) as nat);
        assert(m * up == s) by (nonlinear_arith)
            requires
                m * (up * high) == s * high,
                0 < high,
        ;
    } else {
        let down = pow2((k - e) as nat) as int;
        lemma_pow2_adds((k - e) as nat, (e + 149) as nat);
        lemma_pow2_pos((k - e) as nat);
        assert(m == s * down) by (nonlinear_arith)
            requires
                m * low == s * (down * low),
                0 < low,
        ;
        assert(m / down == s && m % down == 0) by (nonlinear_arith)
            requires
                m == s * down,
                0 < down,
        ;
    }
}

} // verus!
