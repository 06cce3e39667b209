//! Exact decimal rendering of integers and of IEEE 754 single-precision
//! bit patterns.
//!
//! A finite single-precision value is `m * 2^e` for an integer
//! significand `m` and exponent `e`. Its exact decimal expansion is
//! obtained on a little-endian vector of decimal digits: `e` doublings
//! for a non-negative exponent, or `-e` multiplications by five together
//! with a decimal point placed `-e` digits from the right for a negative
//! one, since `m / 2^k == m * 5^k / 10^k`. The expansion is exact, never
//! rounded, so the rendered text reads back as the same value.

use vstd::prelude::*;

verus! {

/// Every element is a decimal digit.
pub open spec fn digits_ok(s: Seq<u8>) -> bool {
    forall|i: int| 0 <= i < s.len() ==> s[i] < 10
}

/// The little-endian decimal digits of `n`; empty for zero.
pub open spec fn digits_of(n: nat) -> Seq<u8>
    decreases n,
{
    if n == 0 {
        Seq::empty()
    } else {
        seq![(n % 10) as u8] + digits_of(n / 10)
    }
}

/// One pass of long multiplication: the digits of
/// `f * value(s) + carry`, little-endian.
pub open spec fn spec_scale(s: Seq<u8>, f: nat, carry: nat) -> Seq<u8>
    decreases s.len(),
{
    if s.len() == 0 {
        digits_of(carry)
    } else {
        seq![(((s[0] as nat) * f + carry) % 10) as u8]
            + spec_scale(s.drop_first(), f, ((s[0] as nat) * f + carry) / 10)
    }
}

/// `k` passes of multiplication by `f`.
pub open spec fn spec_scale_iter(s: Seq<u8>, f: nat, k: nat) -> Seq<u8>
    decreases k,
{
    if k == 0 {
        s
    } else {
        spec_scale_iter(spec_scale(s, f, 0), f, (k - 1) as nat)
    }
}

/// Drop low-order zero digits as long as they sit behind the decimal
/// point; returns the remaining digits and point position.
pub open spec fn spec_strip(s: Seq<u8>, t: nat) -> (Seq<u8>, nat)
    decreases t,
{
    if t > 0 && s.len() > 0 && s[0] == 0 {
        spec_strip(s.drop_first(), (t - 1) as nat)
    } else {
        (s, t)
    }
}

/// The digit at position `i`, zero outside the vector.
pub open spec fn spec_digit_at(d: Seq<u8>, i: int) -> u8 {
    if 0 <= i < d.len() {
        d[i]
    } else {
        0
    }
}

/// ASCII for the digits at positions `hi - 1` down to `lo`.
pub open spec fn rev_digits(d: Seq<u8>, lo: int, hi: int) -> Seq<u8>
    decreases hi - lo,
{
    if hi <= lo {
        Seq::empty()
    } else {
        seq![(48 + spec_digit_at(d, hi - 1)) as u8] + rev_digits(d, lo, hi - 1)
    }
}

/// The text for digits `d` with a decimal point `t` digits from the
/// right and an optional leading minus sign.
pub open spec fn spec_render(d: Seq<u8>, t: nat, neg: bool) -> Seq<u8> {
    let sign: Seq<u8> = if neg {
        seq![45u8]
    } else {
        Seq::empty()
    };
    let ip: Seq<u8> = if d.len() <= t {
        seq![48u8]
    } else {
        rev_digits(d, t as int, d.len() as int)
    };
    let fp: Seq<u8> = if t == 0 {
        Seq::empty()
    } else {
        seq![46u8] + rev_digits(d, 0, t as int)
    };
    sign + ip + fp
}

/// The exact decimal text of the finite value `bits` encodes.
pub open spec fn spec_decimal(bits: u32) -> Seq<u8> {
    let neg = bits & 0x8000_0000 != 0;
    if bits & 0x7fff_ffff == 0 {
        if neg {
            seq![45u8, 48u8]
        } else {
            seq![48u8]
        }
    } else {
        let m = crate::fbits::spec_sig(bits);
        let e = crate::fbits::spec_exp(bits);
        if e >= 0 {
            spec_render(spec_scale_iter(digits_of(m), 2, e as nat), 0, neg)
        } else {
            let st = spec_strip(spec_scale_iter(digits_of(m), 5, (-e) as nat), (-e) as nat);
            spec_render(st.0, st.1, neg)
        }
    }
}

/// The ASCII decimal text of `n`.
pub open spec fn spec_dec_u64(n: nat) -> Seq<u8> {
    if n == 0 {
        seq![48u8]
    } else {
        rev_digits(digits_of(n), 0, digits_of(n).len() as int)
    }
}

/// Splitting a reversed digit range at `mid` splits its text.
proof fn lemma_rev_digits_split(d: Seq<u8>, lo: int, mid: int, hi: int)
    requires
        lo <= mid <= hi,
    ensures
        rev_digits(d, lo, hi) == rev_digits(d, mid, hi) + rev_digits(d, lo, mid),
    decreases hi - mid,
{
    if hi <= mid {
        assert(rev_digits(d, mid, hi) + rev_digits(d, lo, mid) =~= rev_digits(d, lo, hi));
    } else {
        lemma_rev_digits_split(d, lo, mid, hi - 1);
        assert(seq![(48 + spec_digit_at(d, hi - 1)) as u8]
            + (rev_digits(d, mid, hi - 1) + rev_digits(d, lo, mid))
            =~= (seq![(48 + spec_digit_at(d, hi - 1)) as u8] + rev_digits(d, mid, hi - 1))
            + rev_digits(d, lo, mid));
    }
}

/// The little-endian decimal digits of `n`, executable.
fn digits_of_u64(n: u64) -> (r: Vec<u8>)
    ensures
        r@ == digits_of(n as nat),
        digits_ok(r@),
{
    let mut v: Vec<u8> = Vec::new();
    let mut x = n;
    while x > 0
        invariant
            digits_of(n as nat) == v@ + digits_of(x as nat),
            digits_ok(v@),
        decreases x,
    {
        let dg = (x % 10) as u8;
        proof {
            assert(digits_of(x as nat) == seq![dg] + digits_of((x / 10) as nat));
            assert(v@ + digits_of(x as nat) =~= (v@ + seq![dg]) + digits_of((x / 10) as nat));
            assert(v@.push(dg) =~= v@ + seq![dg]);
        }
        v.push(dg);
        x = x / 10;
    }
    proof {
        assert(v@ + digits_of(x as nat) =~= v@);
    }
    v
}

/// One multiplication pass over the digits, executable.
fn scale_digits(d: Vec<u8>, f: u8) -> (r: Vec<u8>)
    requires
        digits_ok(d@),
        2 <= f <= 5,
    ensures
        r@ == spec_scale(d@, f as nat, 0),
        digits_ok(r@),
{
    let mut out: Vec<u8> = Vec::new();
    let mut carry: u8 = 0;
    let mut i: usize = 0;
    proof {
        assert(d@.skip(0) =~= d@);
        assert(Seq::<u8>::empty() + spec_scale(d@, f as nat, 0) =~= spec_scale(d@, f as nat, 0));
    }
    while i < d.len()
        invariant
            i <= d.len(),
            carry <= 4,
            2 <= f <= 5,
            digits_ok(d@),
            digits_ok(out@),
            spec_scale(d@, f as nat, 0) == out@ + spec_scale(
                d@.skip(i as int),
                f as nat,
                carry as nat,
            ),
        decreases d.len() - i,
    {
        proof {
            assert(d@[i as int] < 10);
            assert(d@[i as int] * f + carry <= 49) by (nonlinear_arith)
                requires
                    d@[i as int] < 10,
                    f <= 5,
                    carry <= 4,
            ;
        }
        let t = d[i] * f + carry;
        proof {
            let tail = d@.skip(i as int);
            assert(tail[0] == d@[i as int]);
            assert(tail.drop_first() =~= d@.skip(i as int + 1));
            assert(spec_scale(tail, f as nat, carry as nat) == seq![(t % 10)]
                + spec_scale(d@.skip(i as int + 1), f as nat, (t / 10) as nat));
            assert(out@ + spec_scale(tail, f as nat, carry as nat) =~= (out@ + seq![(t % 10)])
                + spec_scale(d@.skip(i as int + 1), f as nat, (t / 10) as nat));
            assert(out@.push(t % 10) =~= out@ + seq![(t % 10)]);
        }
        out.push(t % 10);
        carry = t / 10;
        i = i + 1;
    }
    proof {
        assert(d@.skip(i as int) =~= Seq::<u8>::empty());
    }
    if carry > 0 {
        proof {
            assert(digits_of(carry as nat) =~= seq![carry] + digits_of(0));
            assert(spec_scale(Seq::<u8>::empty(), f as nat, carry as nat) =~= seq![carry]);
            assert(out@.push(carry) =~= out@ + seq![carry]);
        }
        out.push(carry);
    } else {
        proof {
            assert(out@ + spec_scale(Seq::<u8>::empty(), f as nat, 0) =~= out@);
        }
    }
    out
}

/// `k` multiplication passes, executable.
fn scale_iter(d: Vec<u8>, f: u8, k: u64) -> (r: Vec<u8>)
    requires
        digits_ok(d@),
        2 <= f <= 5,
    ensures
        r@ == spec_scale_iter(d@, f as nat, k as nat),
        digits_ok(r@),
{
    let ghost orig = d@;
    let mut cur = d;
    let mut j: u64 = 0;
    while j < k
        invariant
            j <= k,
            2 <= f <= 5,
            digits_ok(cur@),
            spec_scale_iter(orig, f as nat, k as nat) == spec_scale_iter(
                cur@,
                f as nat,
                (k - j) as nat,
            ),
        decreases k - j,
    {
        cur = scale_digits(cur, f);
        j = j + 1;
    }
    cur
}

/// Strip fractional trailing zeros, executable.
fn strip_zeros(d: Vec<u8>, t: u64) -> (r: (Vec<u8>, u64))
    requires
        digits_ok(d@),
    ensures
        r.0@ == spec_strip(d@, t as nat).0,
        r.1 == spec_strip(d@, t as nat).1,
        r.1 <= t,
        digits_ok(r.0@),
{
    let ghost od = d@;
    let ghost ot = t as nat;
    let mut v = d;
    let mut t2 = t;
    while t2 > 0 && v.len() > 0 && v[0] == 0
        invariant
            t2 <= t,
            digits_ok(v@),
            spec_strip(od, ot) == spec_strip(v@, t2 as nat),
        decreases t2,
    {
        proof {
            assert(v@.remove(0) =~= v@.drop_first());
        }
        v.remove(0);
        t2 = t2 - 1;
    }
    (v, t2)
}

/// Render digits with a decimal point `t` digits from the right,
/// executable.
fn render_digits(d: &Vec<u8>, t: usize, neg: bool) -> (r: Vec<u8>)
    requires
        digits_ok(d@),
    ensures
        r@ == spec_render(d@, t as nat, neg),
{
    let mut out: Vec<u8> = Vec::new();
    let ghost sign: Seq<u8> = if neg {
        seq![45u8]
    } else {
        Seq::empty()
    };
    if neg {
        out.push(45);
        proof {
            assert(out@ =~= sign);
        }
    }
    if d.len() <= t {
        out.push(48);
        proof {
            assert(out@ =~= sign + seq![48u8]);
        }
    } else {
        let mut i: usize = d.len();
        while i > t
            invariant
                t <= i <= d.len(),
                digits_ok(d@),
                out@ == sign + rev_digits(d@, i as int, d@.len() as int),
            decreases i,
        {
            proof {
                assert(d@[i - 1] < 10);
                lemma_rev_digits_split(d@, i - 1, i as int, d@.len() as int);
                assert(rev_digits(d@, i - 1, i - 1) =~= Seq::<u8>::empty());
                assert(rev_digits(d@, i - 1, i as int) =~= seq![(48 + d@[i - 1]) as u8]);
                assert((sign + rev_digits(d@, i as int, d@.len() as int)).push(
                    (48 + d@[i - 1]) as u8,
                ) =~= sign + rev_digits(d@, i - 1, d@.len() as int));
            }
            let c = 48 + d[i - 1];
            out.push(c);
            i = i - 1;
        }
    }
    let ghost ip: Seq<u8> = if d@.len() <= t {
        seq![48u8]
    } else {
        rev_digits(d@, t as int, d@.len() as int)
    };
    proof {
        assert(out@ == sign + ip);
    }
    if t > 0 {
        out.push(46);
        proof {
            assert(out@ =~= sign + ip + seq![46u8] + rev_digits(d@, t as int, t as int));
        }
        let mut i: usize = t;
        while i > 0
            invariant
                i <= t,
                digits_ok(d@),
                out@ == sign + ip + seq![46u8] + rev_digits(d@, i as int, t as int),
            decreases i,
        {
            proof {
                lemma_rev_digits_split(d@, i - 1, i as int, t as int);
                assert(rev_digits(d@, i - 1, i - 1) =~= Seq::<u8>::empty());
                assert(rev_digits(d@, i - 1, i as int) =~= seq![
                    (48 + spec_digit_at(d@, i - 1)) as u8,
                ]);
                assert((sign + ip + seq![46u8] + rev_digits(d@, i as int, t as int)).push(
                    (48 + spec_digit_at(d@, i - 1)) as u8,
                ) =~= sign + ip + seq![46u8] + rev_digits(d@, i - 1, t as int));
            }
            let c: u8 = if i - 1 < d.len() {
                proof {
                    assert(d@[i - 1] < 10);
                }
                48 + d[i - 1]
            } else {
                48
            };
            out.push(c);
            i = i - 1;
        }
        proof {
            assert(out@ =~= sign + ip + (seq![46u8] + rev_digits(d@, 0, t as int)));
        }
    } else {
        proof {
            assert(out@ =~= sign + ip + Seq::<u8>::empty());
        }
    }
    out
}

/// The exact decimal text of the finite value `bits` encodes,
/// executable.
pub fn decimal_bits(bits: u32) -> (r: Vec<u8>)
    requires
        !crate::fbits::spec_is_nan(bits),
        !crate::fbits::spec_is_inf(bits),
    ensures
        r@ == spec_decimal(bits),
{
    let neg = bits & 0x8000_0000 != 0;
    if bits & 0x7fff_ffff == 0 {
        let mut out: Vec<u8> = Vec::new();
        if neg {
            out.push(45);
        }
        out.push(48);
        proof {
            if neg {
                assert(out@ =~= seq![45u8, 48u8]);
            } else {
                assert(out@ =~= seq![48u8]);
            }
        }
        out
    } else {
        let m = crate::fbits::sig_of(bits);
        let e = crate::fbits::exp_of(bits);
        let digits0 = digits_of_u64(m);
        if e >= 0 {
            let d = scale_iter(digits0, 2, e as u64);
            render_digits(&d, 0, neg)
        } else {
            let k = (-e) as u64;
            let d = scale_iter(digits0, 5, k);
            let st = strip_zeros(d, k);
            render_digits(&st.0, st.1 as usize, neg)
        }
    }
}

/// Append the ASCII decimal text of `n`, executable.
pub fn push_dec_u64(out: &mut Vec<u8>, n: u64)
    ensures
        final(out)@ == old(out)@ + spec_dec_u64(n as nat),
{
    if n == 0 {
        proof {
            assert(old(out)@.push(48u8) =~= old(out)@ + seq![48u8]);
        }
        out.push(48);
    } else {
        let d = digits_of_u64(n);
        let ghost base = out@;
        let mut i: usize = d.len();
        while i > 0
            invariant
                i <= d.len(),
                digits_ok(d@),
                out@ == base + rev_digits(d@, i as int, d@.len() as int),
            decreases i,
        {
            proof {
                assert(d@[i - 1] < 10);
                lemma_rev_digits_split(d@, i - 1, i as int, d@.len() as int);
                assert(rev_digits(d@, i - 1, i - 1) =~= Seq::<u8>::empty());
                assert(rev_digits(d@, i - 1, i as int) =~= seq![(48 + d@[i - 1]) as u8]);
                assert((base + rev_digits(d@, i as int, d@.len() as int)).push(
                    (48 + d@[i - 1]) as u8,
                ) =~= base + rev_digits(d@, i - 1, d@.len() as int));
            }
            let c = 48 + d[i - 1];
            out.push(c);
            i = i - 1;
        }
    }
}

} // verus!
