//! Human-readable byte sizes and the small aggregations the asset
//! catalog listing needs.
//!
//! `bytes_to_readable` reproduces binary-prefix formatting with two
//! decimal places entirely in integer arithmetic: the byte count is
//! first rounded to 53 bits of precision, exactly as a conversion to a
//! double-precision float rounds it, and the quotient by the chosen
//! power of 1024 is then rounded to hundredths, to nearest with ties
//! to even.

use vstd::prelude::*;
use vstd::arithmetic::power2::pow2;
use vstd::string::StringExecFns;
use crate::fbits::{spec_log2, log2_u64, pow2_u64, lemma_log2_bounds};
use crate::segment::{spec_digit_char, spec_dec_chars};
use vstd::arithmetic::power2::{lemma_pow2_adds, lemma_pow2_pos, lemma2_to64, lemma2_to64_rest};
use vstd::arithmetic::div_mod::lemma_multiply_divide_lt;

verus! {

/// `b` rounded to 53 significant bits, to nearest with ties to even:
/// the value a conversion to a double-precision float yields.
pub open spec fn spec_round53(b: nat) -> nat {
    if b < 0x20_0000_0000_0000 {
        b
    } else {
        let k = (spec_log2(b) - 52) as nat;
        let q = b / pow2(k);
        let r = b % pow2(k);
        let half = pow2((k - 1) as nat);
        let q2 = if r > half || (r == half && q % 2 == 1) {
            q + 1
        } else {
            q
        };
        q2 * pow2(k)
    }
}

/// The unit step: how many times the value is divided by 1024, at most
/// six times.
pub open spec fn spec_unit_index(v: nat) -> nat {
    if v < 0x400 {
        0
    } else if v < 0x10_0000 {
        1
    } else if v < 0x4000_0000 {
        2
    } else if v < 0x100_0000_0000 {
        3
    } else if v < 0x4_0000_0000_0000 {
        4
    } else if v < 0x1000_0000_0000_0000 {
        5
    } else {
        6
    }
}

/// Division rounded to nearest, ties to even.
pub open spec fn spec_rne(n: nat, d: nat) -> nat
    recommends
        d >= 1,
{
    let q = n / d;
    let r = n % d;
    if 2 * r > d || (2 * r == d && q % 2 == 1) {
        q + 1
    } else {
        q
    }
}

/// The unit suffix for each step.
pub open spec fn spec_unit_chars(i: nat) -> Seq<char> {
    if i == 0 {
        "B"@
    } else if i == 1 {
        "KB"@
    } else if i == 2 {
        "MB"@
    } else if i == 3 {
        "GB"@
    } else if i == 4 {
        "TB"@
    } else if i == 5 {
        "PB"@
    } else {
        "EB"@
    }
}

/// The hundredths of the scaled value.
pub open spec fn spec_cents(b: nat) -> nat {
    spec_rne(spec_round53(b) * 100, pow2(10 * spec_unit_index(spec_round53(b))))
}

/// The rendered size: the scaled value with two decimal places, a
/// space, and the unit suffix.
pub open spec fn spec_bytes_readable(b: nat) -> Seq<char> {
    let cents = spec_cents(b);
    spec_dec_chars(cents / 100) + "."@ + seq![spec_digit_char((cents % 100) / 10)] + seq![
        spec_digit_char(cents % 10),
    ] + " "@ + spec_unit_chars(spec_unit_index(spec_round53(b)))
}

/// Round to 53 significant bits, executable.
fn round53(b: u64) -> (r: u128)
    ensures
        r == spec_round53(b as nat),
        r <= 0x1_0000_0000_0000_0000,
{
    if b < 0x20_0000_0000_0000 {
        b as u128
    } else {
        let lg = log2_u64(b);
        proof {
            lemma_log2_bounds(b as nat);
            assert(pow2(53) == 0x20_0000_0000_0000) by {
                lemma2_to64_rest();
            }
            if spec_log2(b as nat) < 53 {
                vstd::arithmetic::power2::lemma_pow2_strictly_increases(
                    spec_log2(b as nat) + 1,
                    53,
                );
            }
        }
        let k = lg - 52;
        let pw = pow2_u64(k);
        proof {
            lemma_pow2_pos(k as nat);
            lemma_pow2_pos((k - 1) as nat);
        }
        let half = pow2_u64(k - 1);
        let q = b / pw;
        let r = b % pw;
        proof {
            lemma_pow2_adds(k as nat, 53);
            lemma_multiply_divide_lt(b as int, pw as int, pow2(53) as int);
        }
        let q2: u64 = if r > half || (r == half && q % 2 == 1) {
            q + 1
        } else {
            q
        };
        proof {
            assert((q2 as int) * (pw as int) <= 0x20_0000_0000_0000 * (pw as int))
                by (nonlinear_arith)
                requires
                    q2 <= 0x20_0000_0000_0000,
                    pw >= 1,
            ;
            assert(0x20_0000_0000_0000 * (pw as int) == pow2(53) * pow2(k as nat)) by {
                lemma2_to64_rest();
            }
            lemma_pow2_adds(53, k as nat);
            if 53 + k < 64 {
                vstd::arithmetic::power2::lemma_pow2_strictly_increases((53 + k) as nat, 64);
            }
            lemma2_to64();
        }
        (q2 as u128) * (pw as u128)
    }
}

/// Division rounded to nearest, ties to even, executable.
fn rne_u128(n: u128, d: u128) -> (r: u128)
    requires
        1 <= d <= 0x1000_0000_0000_0000,
        n <= 0x1000_0000_0000_0000_0000,
    ensures
        r == spec_rne(n as nat, d as nat),
{
    let q = n / d;
    let r = n % d;
    if 2 * r > d || (2 * r == d && q % 2 == 1) {
        q + 1
    } else {
        q
    }
}

/// Format a byte count with binary prefixes and two decimal places.
pub fn bytes_to_readable(bytes: u64) -> (r: String)
    ensures
        r@ == spec_bytes_readable(bytes as nat),
{
    let r53 = round53(bytes);
    let i: u64 = if r53 < 0x400 {
        0
    } else if r53 < 0x10_0000 {
        1
    } else if r53 < 0x4000_0000 {
        2
    } else if r53 < 0x100_0000_0000 {
        3
    } else if r53 < 0x4_0000_0000_0000 {
        4
    } else if r53 < 0x1000_0000_0000_0000 {
        5
    } else {
        6
    };
    let d = pow2_u64(10 * i);
    proof {
        lemma_pow2_pos((10 * i) as nat);
    }
    proof {
        lemma2_to64();
        lemma2_to64_rest();
        if 10 * i < 63 {
            vstd::arithmetic::power2::lemma_pow2_strictly_increases((10 * i) as nat, 63);
        }
    }
    let cents = rne_u128(r53 * 100, d as u128);
    proof {
        let dd = d as int;
        let v = r53 as int;
        if i < 6 {
            lemma_pow2_adds((10 * i) as nat, 10);
            assert(v < dd * 1024);
            assert(v * 100 < dd * 102400) by (nonlinear_arith)
                requires
                    v < dd * 1024,
                    dd >= 1,
            ;
            lemma_multiply_divide_lt(v * 100, dd, 102400);
        } else {
            lemma_pow2_adds(60, 4);
            assert(v <= dd * 16);
            assert(v * 100 <= dd * 1600) by (nonlinear_arith)
                requires
                    v <= dd * 16,
                    dd >= 1,
            ;
            vstd::arithmetic::div_mod::lemma_multiply_divide_le(v * 100, dd, 1600);
        }
        assert(cents <= 102401);
    }
    let cents64 = cents as u64;
    let mut s = String::new();
    crate::segment::push_dec_str(&mut s, cents64 / 100);
    s.append(".");
    s.append(crate::segment::digit_str(((cents64 % 100) / 10) as u8));
    s.append(crate::segment::digit_str((cents64 % 10) as u8));
    s.append(" ");
    if i == 0 {
        s.append("B");
    } else if i == 1 {
        s.append("KB");
    } else if i == 2 {
        s.append("MB");
    } else if i == 3 {
        s.append("GB");
    } else if i == 4 {
        s.append("TB");
    } else if i == 5 {
        s.append("PB");
    } else {
        s.append("EB");
    }
    proof {
        assert(s@ =~= spec_bytes_readable(bytes as nat));
    }
    s
}

/// The longest length in a column of entries.
pub open spec fn spec_max_len(s: Seq<usize>) -> nat
    decreases s.len(),
{
    if s.len() == 0 {
        0
    } else if s.last() as nat >= spec_max_len(s.drop_last()) {
        s.last() as nat
    } else {
        spec_max_len(s.drop_last())
    }
}

/// The longest length in a column of entries, executable.
pub fn max_len(lengths: &Vec<usize>) -> (r: usize)
    ensures
        r == spec_max_len(lengths@),
{
    let mut m: usize = 0;
    let mut i: usize = 0;
    while i < lengths.len()
        invariant
            i <= lengths@.len(),
            m == spec_max_len(lengths@.take(i as int)),
        decreases lengths@.len() - i,
    {
        proof {
            assert(lengths@.take(i as int + 1).drop_last() =~= lengths@.take(i as int));
            assert(lengths@.take(i as int + 1).last() == lengths@[i as int]);
        }
        if lengths[i] > m {
            m = lengths[i];
        }
        i = i + 1;
    }
    proof {
        assert(lengths@.take(lengths@.len() as int) =~= lengths@);
    }
    m
}

/// The total of a column of sizes.
pub open spec fn spec_sum(s: Seq<u64>) -> nat
    decreases s.len(),
{
    if s.len() == 0 {
        0
    } else {
        spec_sum(s.drop_last()) + s.last() as nat
    }
}

/// The total of a column of sizes; `None` when it cannot be carried in
/// 64 bits.
pub fn sum_sizes(sizes: &Vec<u64>) -> (r: Option<u64>)
    ensures
        match r {
            Some(t) => t == spec_sum(sizes@),
            None => spec_sum(sizes@) > u64::MAX,
        },
{
    let mut t: u64 = 0;
    let mut i: usize = 0;
    while i < sizes.len()
        invariant
            i <= sizes@.len(),
            t == spec_sum(sizes@.take(i as int)),
        decreases sizes@.len() - i,
    {
        proof {
            assert(sizes@.take(i as int + 1).drop_last() =~= sizes@.take(i as int));
            assert(sizes@.take(i as int + 1).last() == sizes@[i as int]);
        }
        if t > u64::MAX - sizes[i] {
            proof {
                lemma_sum_prefix(sizes@, i as int);
            }
            return None;
        }
        t = t + sizes[i];
        i = i + 1;
    }
    proof {
        assert(sizes@.take(sizes@.len() as int) =~= sizes@);
    }
    Some(t)
}

/// A prefix of the sizes never exceeds the whole total.
proof fn lemma_sum_prefix(s: Seq<u64>, i: int)
    requires
        0 <= i <= s.len(),
    ensures
        spec_sum(s.take(i)) + (if i < s.len() {
            s[i] as nat
        } else {
            0
        }) <= spec_sum(s),
    decreases s.len() - i,
{
    if i < s.len() {
        lemma_sum_prefix(s, i + 1);
        assert(s.take(i + 1).drop_last() =~= s.take(i));
        assert(s.take(i + 1).last() == s[i]);
    } else {
        assert(s.take(i) =~= s);
    }
}

} // verus!
