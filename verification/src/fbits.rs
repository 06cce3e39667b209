//! IEEE 754 single-precision values seen through their bit patterns.
//!
//! The converter never holds a float: positions, colors and emissive
//! scalars travel as `u32` bit patterns, and equality, ordering and
//! multiplication of the encoded values are plain integer functions of
//! the bits, implemented and verified here. Multiplication follows
//! IEEE 754 round-to-nearest, ties to even; every NaN operand or
//! invalid product yields the canonical quiet NaN pattern.

use vstd::prelude::*;
use vstd::arithmetic::power2::{
    pow2, lemma_pow2_unfold, lemma_pow2_strictly_increases, lemma_pow2_adds, lemma_pow2_pos,
    lemma2_to64, lemma2_to64_rest,
};
use vstd::arithmetic::mul::{lemma_mul_inequality, lemma_mul_strict_inequality};
use vstd::arithmetic::div_mod::{
    lemma_div_nonincreasing, lemma_div_is_ordered, lemma_div_is_ordered_by_denominator,
    lemma_div_multiples_vanish, lemma_multiply_divide_lt, lemma_basic_div, lemma_small_mod,
};

verus! {

/// True when `bits` encodes a NaN: exponent all ones, mantissa non-zero.
pub open spec fn spec_is_nan(bits: u32) -> bool {
    (bits >> 23) & 0xff == 255 && bits & 0x007f_ffff != 0
}

/// The magnitude part of the pattern (everything but the sign bit).
pub open spec fn spec_magnitude(bits: u32) -> u32 {
    bits & 0x7fff_ffff
}

/// The numeric order key of a non-NaN pattern: IEEE 754 ordering of
/// finite and infinite values coincides with the order of this integer,
/// and both zero patterns map to key 0.
pub open spec fn spec_key(bits: u32) -> int {
    if bits & 0x8000_0000 == 0 {
        spec_magnitude(bits) as int
    } else {
        -(spec_magnitude(bits) as int)
    }
}

/// Exact float equality on bit patterns: NaN equals nothing, the two
/// zeros are equal, everything else is equal only to its own pattern.
pub open spec fn spec_eq(a: u32, b: u32) -> bool {
    !spec_is_nan(a) && !spec_is_nan(b) && spec_key(a) == spec_key(b)
}

/// Exact float `<` on bit patterns: false whenever either side is NaN.
pub open spec fn spec_lt(a: u32, b: u32) -> bool {
    !spec_is_nan(a) && !spec_is_nan(b) && spec_key(a) < spec_key(b)
}

/// Exact float `<=` on bit patterns.
pub open spec fn spec_le(a: u32, b: u32) -> bool {
    spec_lt(a, b) || spec_eq(a, b)
}

pub fn is_nan(bits: u32) -> (r: bool)
    ensures
        r == spec_is_nan(bits),
{
    (bits >> 23) & 0xff == 255 && bits & 0x007f_ffff != 0
}

/// Equal patterns denote equal values; unequal non-NaN patterns denote
/// equal values only when both are zeros of opposite sign.
pub fn eq_bits(a: u32, b: u32) -> (r: bool)
    ensures
        r == spec_eq(a, b),
{
    if is_nan(a) || is_nan(b) {
        false
    } else if a == b {
        true
    } else {
        let r = (a & 0x7fff_ffff) == 0 && (b & 0x7fff_ffff) == 0;
        proof {
            if spec_key(a) == spec_key(b) {
                lemma_key_eq(a, b);
            }
        }
        r
    }
}

pub fn lt_bits(a: u32, b: u32) -> (r: bool)
    ensures
        r == spec_lt(a, b),
{
    if is_nan(a) || is_nan(b) {
        return false;
    }
    let ma = a & 0x7fff_ffff;
    let mb = b & 0x7fff_ffff;
    let sa = a & 0x8000_0000 != 0;
    let sb = b & 0x8000_0000 != 0;
    if !sa && !sb {
        ma < mb
    } else if sa && sb {
        mb < ma
    } else if sa {
        // negative vs. non-negative: less unless both are zeros
        !(ma == 0 && mb == 0)
    } else {
        false
    }
}

/// Two non-NaN patterns with the same key are the same pattern or two zeros.
proof fn lemma_key_eq(a: u32, b: u32)
    requires
        spec_key(a) == spec_key(b),
        a != b,
    ensures
        spec_magnitude(a) == 0 && spec_magnitude(b) == 0,
{
    if !(spec_magnitude(a) == 0 && spec_magnitude(b) == 0) {
        if (a & 0x8000_0000 == 0) == (b & 0x8000_0000 == 0) {
            assert(spec_magnitude(a) == spec_magnitude(b));
            assert(a == b) by (bit_vector)
                requires
                    a & 0x7fff_ffff == b & 0x7fff_ffff,
                    (a & 0x8000_0000 == 0) == (b & 0x8000_0000 == 0),
            ;
        } else {
            assert(spec_magnitude(a) == 0 && spec_magnitude(b) == 0);
        }
    }
}

/// True when `bits` encodes an infinity: exponent all ones, mantissa zero.
pub open spec fn spec_is_inf(bits: u32) -> bool {
    (bits >> 23) & 0xff == 255 && bits & 0x007f_ffff == 0
}

pub fn is_inf(bits: u32) -> (r: bool)
    ensures
        r == spec_is_inf(bits),
{
    (bits >> 23) & 0xff == 255 && bits & 0x007f_ffff == 0
}

/// The integer significand of a finite pattern: the mantissa, with the
/// hidden bit added for normal numbers.
pub open spec fn spec_sig(bits: u32) -> nat {
    if (bits >> 23) & 0xff == 0 {
        (bits & 0x007f_ffff) as nat
    } else {
        (bits & 0x007f_ffff) as nat + 0x80_0000
    }
}

/// The power-of-two exponent of a finite pattern, scaled so that the
/// encoded value is `spec_sig(bits) * 2^spec_exp(bits)`.
pub open spec fn spec_exp(bits: u32) -> int {
    if (bits >> 23) & 0xff == 0 {
        -149
    } else {
        ((bits >> 23) & 0xff) - 150
    }
}

/// Floor of the base-two logarithm.
pub open spec fn spec_log2(n: nat) -> nat
    decreases n,
{
    if n <= 1 {
        0
    } else {
        1 + spec_log2(n / 2)
    }
}

pub proof fn lemma_log2_bounds(n: nat)
    requires
        n >= 1,
    ensures
        pow2(spec_log2(n)) <= n < pow2(spec_log2(n) + 1),
    decreases n,
{
    if n <= 1 {
        assert(pow2(0) == 1 && pow2(1) == 2) by {
            lemma2_to64();
        }
    } else {
        lemma_log2_bounds(n / 2);
        lemma_pow2_unfold(spec_log2(n));
        lemma_pow2_unfold(spec_log2(n) + 1);
    }
}

/// The magnitude bits (no sign) for the already rounded value
/// `q * 2^e2`, where `q < 2^24` and `q < 2^23` only with `e2 == -149`.
pub open spec fn spec_pack(q: nat, e2: int) -> u32 {
    if q == 0 {
        0
    } else if q < 0x80_0000 {
        q as u32
    } else if e2 + 150 >= 255 {
        0x7f80_0000
    } else {
        (((e2 + 150) * 0x80_0000) + (q - 0x80_0000)) as u32
    }
}

/// Round the positive product `sig * 2^e` to the nearest representable
/// single-precision magnitude, ties to even, and pack it.
pub open spec fn spec_round_product(sig: nat, e: int) -> u32
    recommends
        1 <= sig < 0x1_0000_0000_0000,
{
    let p = spec_log2(sig) as int;
    let shn = p - 23;
    let shd = -149 - e;
    let sh = if shn >= shd {
        shn
    } else {
        shd
    };
    if sh <= 0 {
        spec_pack(sig * pow2((-sh) as nat), e + sh)
    } else {
        let q0 = sig / pow2(sh as nat);
        let rem = sig % pow2(sh as nat);
        let half = pow2((sh - 1) as nat);
        let q = if rem > half || (rem == half && q0 % 2 == 1) {
            q0 + 1
        } else {
            q0
        };
        if q == 0x100_0000 {
            spec_pack(0x80_0000, e + sh + 1)
        } else {
            spec_pack(q, e + sh)
        }
    }
}

/// The product of the two encoded values, rounded to nearest with ties
/// to even. Any NaN operand, and an infinity times a zero, give the
/// canonical quiet NaN pattern `0x7fc0_0000`.
pub open spec fn spec_mul(a: u32, b: u32) -> u32 {
    let s: u32 = if (a & 0x8000_0000 == 0) == (b & 0x8000_0000 == 0) {
        0
    } else {
        0x8000_0000
    };
    if spec_is_nan(a) || spec_is_nan(b) {
        0x7fc0_0000
    } else if spec_is_inf(a) || spec_is_inf(b) {
        if spec_magnitude(a) == 0 || spec_magnitude(b) == 0 {
            0x7fc0_0000
        } else {
            (s + 0x7f80_0000) as u32
        }
    } else if spec_magnitude(a) == 0 || spec_magnitude(b) == 0 {
        s
    } else {
        (s + spec_round_product(spec_sig(a) * spec_sig(b), spec_exp(a) + spec_exp(b))) as u32
    }
}

/// `2^k` as an executable value.
pub fn pow2_u64(k: u64) -> (r: u64)
    requires
        k <= 63,
    ensures
        r == pow2(k as nat),
{
    let mut i: u64 = 0;
    let mut r: u64 = 1;
    proof {
        lemma2_to64();
    }
    while i < k
        invariant
            i <= k <= 63,
            r == pow2(i as nat),
        decreases k - i,
    {
        proof {
            lemma_pow2_unfold(i as nat + 1);
            if (i as nat) + 1 < 64 {
                lemma_pow2_strictly_increases(i as nat + 1, 64);
            }
            lemma2_to64();
        }
        r = r * 2;
        i = i + 1;
    }
    r
}

/// Floor of the base-two logarithm, executable.
pub fn log2_u64(n: u64) -> (r: u64)
    requires
        n >= 1,
    ensures
        r == spec_log2(n as nat),
        r <= 63,
{
    let mut x = n;
    let mut r: u64 = 0;
    proof {
        lemma_log2_bounds(n as nat);
        if spec_log2(n as nat) >= 64 {
            lemma_pow2_le(64, spec_log2(n as nat));
            lemma2_to64();
        }
    }
    while x > 1
        invariant
            x >= 1,
            spec_log2(n as nat) == r + spec_log2(x as nat),
            r <= spec_log2(n as nat) <= 63,
        decreases x,
    {
        x = x / 2;
        r = r + 1;
    }
    r
}

/// The IEEE 754 single-precision product of the two encoded values,
/// computed on the bit patterns.
pub fn mul_bits(a: u32, b: u32) -> (r: u32)
    ensures
        r == spec_mul(a, b),
{
    let s: u32 = if (a & 0x8000_0000 == 0) == (b & 0x8000_0000 == 0) {
        0
    } else {
        0x8000_0000
    };
    if is_nan(a) || is_nan(b) {
        return 0x7fc0_0000;
    }
    if is_inf(a) || is_inf(b) {
        if a & 0x7fff_ffff == 0 || b & 0x7fff_ffff == 0 {
            return 0x7fc0_0000;
        }
        return s + 0x7f80_0000;
    }
    if a & 0x7fff_ffff == 0 || b & 0x7fff_ffff == 0 {
        return s;
    }
    proof {
        assert(((a >> 23) & 0xff == 0 && a & 0x007f_ffff == 0) ==> a & 0x7fff_ffff == 0)
            by (bit_vector);
        assert(((b >> 23) & 0xff == 0 && b & 0x007f_ffff == 0) ==> b & 0x7fff_ffff == 0)
            by (bit_vector);
    }
    let sig_a = sig_of(a);
    let sig_b = sig_of(b);
    let exp_a = exp_of(a);
    let exp_b = exp_of(b);
    proof {
        assert(sig_a * sig_b < 0x1_0000_0000_0000 && 1 <= sig_a * sig_b) by (nonlinear_arith)
            requires
                1 <= sig_a < 0x100_0000,
                1 <= sig_b < 0x100_0000,
        ;
    }
    let sig: u64 = sig_a * sig_b;
    let e: i64 = exp_a + exp_b;
    s + round_product(sig, e)
}

/// The significand of a finite pattern, executable.
pub(crate) fn sig_of(bits: u32) -> (r: u64)
    ensures
        r == spec_sig(bits),
        r < 0x100_0000,
{
    let m = bits & 0x007f_ffff;
    proof {
        assert(bits & 0x007f_ffff < 0x80_0000) by (bit_vector);
    }
    if (bits >> 23) & 0xff == 0 {
        m as u64
    } else {
        m as u64 + 0x80_0000
    }
}

/// The exponent of a finite pattern, executable.
pub(crate) fn exp_of(bits: u32) -> (r: i64)
    requires
        (bits >> 23) & 0xff != 255,
    ensures
        r == spec_exp(bits),
        -149 <= r <= 104,
{
    let be = (bits >> 23) & 0xff;
    proof {
        assert((bits >> 23) & 0xff < 256) by (bit_vector);
    }
    if be == 0 {
        -149
    } else {
        be as i64 - 150
    }
}

/// Round and pack the positive product `sig * 2^e`, executable.
fn round_product(sig: u64, e: i64) -> (r: u32)
    requires
        1 <= sig < 0x1_0000_0000_0000,
        -298 <= e <= 208,
    ensures
        r == spec_round_product(sig as nat, e as int),
        r <= 0x7f80_0000,
{
    let p = log2_u64(sig) as i64;
    proof {
        lemma_log2_bounds(sig as nat);
        if spec_log2(sig as nat) >= 48 {
            lemma_pow2_le(48, spec_log2(sig as nat));
            lemma2_to64_rest();
            assert(false);
        }
    }
    let shn: i64 = p - 23;
    let shd: i64 = -149 - e;
    let sh: i64 = if shn >= shd {
        shn
    } else {
        shd
    };
    if sh <= 0 {
        let pw = pow2_u64((-sh) as u64);
        proof {
            lemma_pow2_pos((-sh) as nat);
            // sig * 2^(-sh) < 2^(p + 1) * 2^(-sh) = 2^(p + 1 - sh) <= 2^24
            lemma_pow2_adds((p + 1) as nat, (-sh) as nat);
            lemma_mul_strict_inequality(sig as int, pow2((p + 1) as nat) as int, pw as int);
            if p + 1 - sh < 24 {
                lemma_pow2_strictly_increases((p + 1 - sh) as nat, 24);
            }
            lemma2_to64();
            assert(sig * pw < 0x100_0000);
            if sh == shn {
                // sig * 2^(-sh) >= 2^p * 2^(23 - p) = 2^23
                lemma_pow2_adds(p as nat, (-sh) as nat);
                lemma_mul_inequality(pow2(p as nat) as int, sig as int, pw as int);
                assert(sig * pw >= 0x80_0000);
            }
        }
        let q = sig * pw;
        pack(q, e + sh)
    } else if sh >= 49 {
        // The product is far below half the smallest subnormal.
        proof {
            lemma_round_tiny(sig as nat, e as int, sh as int);
        }
        0
    } else {
        let d = pow2_u64(sh as u64);
        let half = pow2_u64((sh - 1) as u64);
        proof {
            lemma_pow2_pos(sh as nat);
            lemma_pow2_pos((sh - 1) as nat);
        }
        let q0 = sig / d;
        let rem = sig % d;
        proof {
            lemma_pow2_unfold(sh as nat);
            assert(half >= 1 && d == 2 * half);
            // q0 < 2^24
            if p <= 23 {
                if p + 1 < 24 {
                    lemma_pow2_strictly_increases((p + 1) as nat, 24);
                }
                lemma2_to64();
                lemma_div_nonincreasing(sig as int, d as int);
                assert(q0 < 0x100_0000);
            } else {
                // sig < 2^(p + 1) = 2^(sh') * 2^24 for sh' = p - 23 <= sh
                lemma_pow2_adds((p - 23) as nat, 24);
                lemma2_to64();
                if p - 23 < sh {
                    lemma_pow2_strictly_increases((p - 23) as nat, sh as nat);
                }
                lemma_div_is_ordered_by_denominator(sig as int, pow2((p - 23) as nat) as int, d as int);
                lemma_multiply_divide_lt(sig as int, pow2((p - 23) as nat) as int, 0x100_0000);
                assert(q0 < 0x100_0000);
            }
            // when the shift keeps 24 bits, the quotient keeps the top bit
            if sh == shn {
                lemma_pow2_adds((p - 23) as nat, 23);
                lemma_div_is_ordered(pow2(p as nat) as int, sig as int, d as int);
                lemma_div_multiples_vanish(0x80_0000, d as int);
                assert(q0 >= 0x80_0000);
            }
        }
        let q: u64 = if rem > half || (rem == half && q0 % 2 == 1) {
            q0 + 1
        } else {
            q0
        };
        if q == 0x100_0000 {
            pack(0x80_0000, e + sh + 1)
        } else {
            pack(q, e + sh)
        }
    }
}

/// Monotonicity of `pow2`, allowing equal exponents.
proof fn lemma_pow2_le(e1: nat, e2: nat)
    requires
        e1 <= e2,
    ensures
        pow2(e1) <= pow2(e2),
{
    if e1 < e2 {
        lemma_pow2_strictly_increases(e1, e2);
    }
}

/// When the shift is 49 or more the product rounds to zero.
proof fn lemma_round_tiny(sig: nat, e: int, sh: int)
    requires
        1 <= sig < 0x1_0000_0000_0000,
        sh == if spec_log2(sig) - 23 >= -149 - e {
            spec_log2(sig) - 23
        } else {
            -149 - e
        },
        sh >= 49,
    ensures
        spec_round_product(sig, e) == 0,
{
    lemma_log2_bounds(sig);
    assert(pow2(48) == 0x1_0000_0000_0000) by {
        lemma2_to64_rest();
    }
    if spec_log2(sig) >= 48 {
        lemma_pow2_le(48, spec_log2(sig));
        assert(false);
    }
    // sig < 2^48 <= 2^(sh - 1), so the quotient and the rounding bit are zero
    lemma_pow2_le(48, (sh - 1) as nat);
    lemma_pow2_unfold(sh as nat);
    let d = pow2(sh as nat);
    let half = pow2((sh - 1) as nat);
    assert(sig < half);
    assert(d == 2 * half);
    assert(sig / d == 0 && sig % d == sig) by {
        lemma_basic_div(sig as int, d as int);
        lemma_small_mod(sig, d);
    }
}

/// Pack the rounded magnitude `q * 2^e2`, executable.
fn pack(q: u64, e2: i64) -> (r: u32)
    requires
        q < 0x100_0000,
        -149 <= e2 <= 300,
        0 < q < 0x80_0000 ==> e2 == -149,
    ensures
        r == spec_pack(q as nat, e2 as int),
        r <= 0x7f80_0000,
{
    if q == 0 {
        0
    } else if q < 0x80_0000 {
        q as u32
    } else if e2 + 150 >= 255 {
        0x7f80_0000
    } else {
        (((e2 + 150) as u32) * 0x80_0000) + (q as u32 - 0x80_0000)
    }
}

} // verus!
