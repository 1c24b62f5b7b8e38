//! Scalars as IEEE-754 double bit patterns.
//!
//! Every importance scalar in this library is a non-negative finite
//! double-precision number carried as its 64-bit pattern. On such patterns
//! the unsigned integer order coincides with the numeric order of the
//! doubles, so comparisons elsewhere in the library are plain `u64`
//! comparisons. This module supplies the two arithmetic operations the
//! carver needs: the square root of a small integer, implemented and fully
//! verified here in integer arithmetic, and the addition of two doubles,
//! trusted to a software IEEE-754 implementation.

use vstd::arithmetic::div_mod::lemma_fundamental_div_mod;
use vstd::arithmetic::mul::lemma_mul_inequality;
use vstd::arithmetic::mul::lemma_mul_strict_inequality;
use vstd::prelude::*;

use rustc_apfloat::Float;

verus! {

/// Bit pattern of the double-precision +infinity. Every non-negative finite
/// double has a bit pattern strictly below it, and on patterns at or below
/// it the `u64` order coincides with the numeric order of the doubles.
pub const INF_BITS: u64 = 0x7FF0_0000_0000_0000;

/// 4 to the `k`-th power.
pub open spec fn pow4(k: nat) -> int
    decreases k,
{
    if k == 0 {
        1
    } else {
        4 * pow4((k - 1) as nat)
    }
}

pub proof fn lemma_pow4_pos(k: nat)
    ensures
        pow4(k) >= 1,
    decreases k,
{
    if k > 0 {
        lemma_pow4_pos((k - 1) as nat);
    }
}

pub proof fn lemma_pow4_mono(a: nat, b: nat)
    requires
        a <= b,
    ensures
        pow4(a) <= pow4(b),
    decreases b,
{
    if a < b {
        lemma_pow4_mono(a, (b - 1) as nat);
        lemma_pow4_pos((b - 1) as nat);
    }
}

/// The witness behind `sqrt_rounds_to`: `k` is the integer quarter-logarithm
/// of `g`, and `n` is the 53-bit significand (with its leading bit) of the
/// double nearest to the square root of `g`. Scaling `g` by `4^(52-k)` moves
/// the square root into `[2^52, 2^53)`, where consecutive doubles are
/// exactly one unit apart, so "nearest" becomes a pair of strict integer
/// inequalities (a tie would force `4 * g * 4^(52-k)` to be an odd square,
/// which is impossible).
pub open spec fn sqrt_witness(g: u64, r: u64, k: nat, n: int) -> bool {
    &&& pow4(k) <= g < pow4(k + 1)
    &&& 0x10_0000_0000_0000 <= n <= 0x20_0000_0000_0000
    &&& (2 * n - 1) * (2 * n - 1) < 4 * (pow4((52 - k) as nat) * g)
    &&& 4 * (pow4((52 - k) as nat) * g) < (2 * n + 1) * (2 * n + 1)
    &&& k <= 52
    &&& r == (1023 + k) * 0x10_0000_0000_0000 + (n - 0x10_0000_0000_0000)
}

/// `r` is the bit pattern of the double-precision result of taking the
/// square root of the integer `g`: the representable double nearest to the
/// exact root, as IEEE-754 round-to-nearest demands.
pub open spec fn sqrt_rounds_to(g: u64, r: u64) -> bool {
    if g == 0 {
        r == 0
    } else {
        exists|k: nat, n: int| sqrt_witness(g, r, k, n)
    }
}

/// The bit pattern of the correctly rounded square root of `g`, as a
/// function; `lemma_sqrt_rounds_unique` shows the rounding relation pins it.
pub open spec fn sqrt_bits_of(g: u64) -> u64 {
    choose|r: u64| sqrt_rounds_to(g, r)
}

/// At most one bit pattern is the correctly rounded square root of `g`.
pub proof fn lemma_sqrt_rounds_unique(g: u64, r1: u64, r2: u64)
    requires
        sqrt_rounds_to(g, r1),
        sqrt_rounds_to(g, r2),
    ensures
        r1 == r2,
{
    if g != 0 {
        let (k1, n1) = choose|k: nat, n: int| sqrt_witness(g, r1, k, n);
        let (k2, n2) = choose|k: nat, n: int| sqrt_witness(g, r2, k, n);
        assert(sqrt_witness(g, r1, k1, n1));
        assert(sqrt_witness(g, r2, k2, n2));
        if k1 < k2 {
            lemma_pow4_mono(k1 + 1, k2);
            assert(false);
        }
        if k2 < k1 {
            lemma_pow4_mono(k2 + 1, k1);
            assert(false);
        }
        if n1 < n2 {
            assert((2 * n1 + 1) * (2 * n1 + 1) <= (2 * n2 - 1) * (2 * n2 - 1)) by (nonlinear_arith)
                requires
                    0 < n1 < n2,
            ;
            assert(false);
        }
        if n2 < n1 {
            assert((2 * n2 + 1) * (2 * n2 + 1) <= (2 * n1 - 1) * (2 * n1 - 1)) by (nonlinear_arith)
                requires
                    0 < n2 < n1,
            ;
            assert(false);
        }
    }
}

/// Whatever satisfies the rounding relation is `sqrt_bits_of`.
pub proof fn lemma_sqrt_bits_of(g: u64, r: u64)
    requires
        sqrt_rounds_to(g, r),
    ensures
        sqrt_bits_of(g) == r,
{
    let rc = choose|rr: u64| sqrt_rounds_to(g, rr);
    assert(sqrt_rounds_to(g, rc));
    lemma_sqrt_rounds_unique(g, rc, r);
}

/// Integer square root by bisection: the unique `s` with
/// `s * s <= m < (s + 1) * (s + 1)`.
fn isqrt_u128(m: u128) -> (s: u128)
    requires
        m < 0x400_0000_0000_0000_0000_0000_0000u128,
    ensures
        s * s <= m,
        m < (s + 1) * (s + 1),
        s < 0x20_0000_0000_0000,
{
    let mut lo: u128 = 0;
    let mut hi: u128 = 0x20_0000_0000_0000;
    while lo + 1 < hi
        invariant
            lo < hi <= 0x20_0000_0000_0000,
            lo * lo <= m,
            m < hi * hi,
        decreases hi - lo,
    {
        let mid: u128 = lo + (hi - lo) / 2;
        assert(lo < mid < hi);
        assert(mid * mid < 0x400_0000_0000_0000_0000_0000_0000) by (nonlinear_arith)
            requires
                mid < 0x20_0000_0000_0000u128,
        ;
        if mid * mid <= m {
            lo = mid;
        } else {
            hi = mid;
        }
    }
    assert(hi == lo + 1);
    assert(lo < 0x20_0000_0000_0000) by (nonlinear_arith)
        requires
            lo * lo <= m,
            m < 0x400_0000_0000_0000_0000_0000_0000u128,
    ;
    lo
}

/// Bit pattern of the double-precision square root of the integer `g`,
/// computed and proved correct in integer arithmetic alone: the result is
/// the representable double nearest to the exact root.
pub fn sqrt_to_bits(g: u64) -> (r: u64)
    ensures
        sqrt_rounds_to(g, r),
        r == sqrt_bits_of(g),
        r < INF_BITS,
        g == 0 ==> r == 0,
{
    if g == 0 {
        proof {
            lemma_sqrt_bits_of(0, 0);
        }
        return 0;
    }
    // k: the largest power with 4^k <= g, tracked through p == 4^k.
    let mut k: u64 = 0;
    let mut p: u64 = 1;
    while p <= g / 4
        invariant
            g >= 1,
            k <= 31,
            1 <= p,
            p == pow4(k as nat),
            p <= g,
        decreases g - p,
    {
        proof {
            lemma_fundamental_div_mod(g as int, 4);
            if k + 1 >= 32 {
                lemma_pow4_mono(32, (k + 1) as nat);
                lemma_pow4_values();
                assert(false);
            }
        }
        p = p * 4;
        k = k + 1;
    }
    proof {
        lemma_fundamental_div_mod(g as int, 4);
        assert(g < 4 * pow4(k as nat));
        if k > 52 {
            lemma_pow4_mono(53, k as nat);
            lemma_pow4_values();
            assert(false);
        }
    }
    // m == g * 4^(52 - k), which puts the root in [2^52, 2^53).
    let shifts: u64 = 52 - k;
    let mut m: u128 = g as u128;
    let mut i: u64 = 0;
    proof {
        lemma_pow4_pos((52 - k) as nat);
    }
    while i < shifts
        invariant
            i <= shifts,
            shifts == 52 - k,
            k <= 52,
            g >= 1,
            g < pow4((k + 1) as nat),
            m == g * pow4(i as nat),
        decreases shifts - i,
    {
        proof {
            lemma_pow4_pos((52 - k) as nat);
            lemma_pow4_pos(i as nat);
            lemma_pow4_mono((i + 1) as nat, (52 - k) as nat);
            lemma_mul_inequality(pow4((i + 1) as nat), pow4((52 - k) as nat), g as int);
            lemma_mul_strict_inequality(g as int, pow4((k + 1) as nat), pow4((52 - k) as nat));
            lemma_pow4_mul_collapse(k as nat);
            assert(g * pow4((i + 1) as nat) == pow4((i + 1) as nat) * g) by (nonlinear_arith);
            assert(pow4((52 - k) as nat) * g == g * pow4((52 - k) as nat)) by (nonlinear_arith);
            assert(g * pow4((i + 1) as nat) == 4 * (g * pow4(i as nat))) by (nonlinear_arith)
                requires
                    pow4((i + 1) as nat) == 4 * pow4(i as nat),
            ;
        }
        m = m * 4;
        i = i + 1;
    }
    proof {
        lemma_pow4_pos((52 - k) as nat);
        lemma_mul_strict_inequality(g as int, pow4((k + 1) as nat), pow4((52 - k) as nat));
        lemma_mul_inequality(pow4(k as nat), g as int, pow4((52 - k) as nat));
        lemma_pow4_mul_collapse(k as nat);
        assert(pow4((52 - k) as nat) * g == g * pow4((52 - k) as nat)) by (nonlinear_arith);
        assert(pow4((52 - k) as nat) * pow4(k as nat) == pow4(k as nat) * pow4((52 - k) as nat))
            by (nonlinear_arith);
    }
    // Now 4^52 <= m < 4^53.
    let s: u128 = isqrt_u128(m);
    proof {
        lemma_pow4_values();
        assert(s >= 0x10_0000_0000_0000) by (nonlinear_arith)
            requires
                m < (s + 1) * (s + 1),
                m >= 0x100_0000_0000_0000_0000_0000_0000u128,
        ;
    }
    let n: u128 = if m - s * s > s {
        s + 1
    } else {
        s
    };
    let mant: u64 = (n - 0x10_0000_0000_0000) as u64;
    let r: u64 = (1023 + k) * 0x10_0000_0000_0000 + mant;
    proof {
        let mi: int = m as int;
        let si: int = s as int;
        let ni: int = n as int;
        assert((2 * ni - 1) * (2 * ni - 1) < 4 * mi && 4 * mi < (2 * ni + 1) * (2 * ni + 1))
            by (nonlinear_arith)
            requires
                si >= 1,
                si * si <= mi,
                mi < (si + 1) * (si + 1),
                ni == if mi - si * si > si { si + 1 } else { si },
        ;
        assert(sqrt_witness(g, r, k as nat, n as int));
    }
    proof {
        lemma_sqrt_bits_of(g, r);
    }
    r
}

/// The two fixed powers the scaling proofs need, by unfolding.
proof fn lemma_pow4_values()
    ensures
        pow4(32) == 0x1_0000_0000_0000_0000,
        pow4(52) == 0x100_0000_0000_0000_0000_0000_0000,
        pow4(53) == 0x400_0000_0000_0000_0000_0000_0000,
{
    reveal_with_fuel(pow4, 55);
}

/// `pow4(53) == pow4(k + 1) * pow4(52 - k)` for `k <= 52`, in the shape the
/// scaling proofs need.
proof fn lemma_pow4_mul_collapse(k: nat)
    requires
        k <= 52,
    ensures
        pow4((k + 1) as nat) * pow4((52 - k) as nat) == pow4(53),
        pow4(k as nat) * pow4((52 - k) as nat) == pow4(52),
        pow4(53) == 0x400_0000_0000_0000_0000_0000_0000,
        pow4(52) == 0x100_0000_0000_0000_0000_0000_0000,
{
    lemma_pow4_adds((k + 1) as nat, (52 - k) as nat);
    lemma_pow4_adds(k as nat, (52 - k) as nat);
    lemma_pow4_values();
}

proof fn lemma_pow4_adds(a: nat, b: nat)
    ensures
        pow4(a + b) == pow4(a) * pow4(b),
    decreases a,
{
    if a == 0 {
        assert(pow4(b) == 1 * pow4(b));
    } else {
        lemma_pow4_adds((a - 1) as nat, b);
        assert(pow4(((a - 1) + b) as nat) == pow4((a - 1) as nat) * pow4(b));
        assert(pow4(a + b) == 4 * pow4(((a - 1) + b) as nat));
        assert(4 * (pow4((a - 1) as nat) * pow4(b)) == (4 * pow4((a - 1) as nat)) * pow4(b))
            by (nonlinear_arith);
    }
}

pub uninterp spec fn add_bits(a: u64, b: u64) -> u64;

/// Relies on `rustc_apfloat`'s IEEE-754 double addition (`Float::add_r` with
/// round-to-nearest-ties-to-even, the mode hardware doubles use): the result
/// depends on the two operands alone, and the sum of two doubles that are
/// non-negative (sign bit clear, at or below +infinity) is again
/// non-negative.
#[verifier::external_body]
pub(crate) fn add_f64_bits(a: u64, b: u64) -> (r: u64)
    ensures
        r == add_bits(a, b),
        a <= INF_BITS && b <= INF_BITS ==> r <= INF_BITS,
{
    let x = rustc_apfloat::ieee::Double::from_bits(a as u128);
    let y = rustc_apfloat::ieee::Double::from_bits(b as u128);
    let sum = x.add_r(y, rustc_apfloat::Round::NearestTiesToEven).value;
    sum.to_bits() as u64
}

} // verus!
