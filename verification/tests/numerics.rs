//! Tests of the bit-pattern float operations, the exact decimal
//! renderer, and the human-readable size formatting, held against the
//! hardware float operations they model.

use rpo_glb::decimal::decimal_bits;
use rpo_glb::fbits::{eq_bits, is_inf, is_nan, lt_bits, mul_bits};
use rpo_glb::readable::{bytes_to_readable, max_len, sum_sizes};

fn sample_values() -> Vec<f32> {
    vec![
        0.0,
        -0.0,
        1.0,
        -1.0,
        1.5,
        -1.5,
        0.1,
        0.25,
        5.0,
        2.5,
        1.25,
        3.0,
        -3.75,
        16777215.0,
        16777216.0,
        16777218.0,
        1.0e10,
        -1.0e10,
        3.4e38,
        f32::MAX,
        f32::MIN_POSITIVE,
        1.0e-40,
        f32::from_bits(1),
        f32::from_bits(0x0000_0400),
        -1.0e-40,
        1.0e38,
        f32::INFINITY,
        f32::NEG_INFINITY,
        f32::NAN,
        0.3333333,
        1024.0,
        -1024.5,
    ]
}

#[test]
fn multiplication_matches_hardware() {
    for &a in &sample_values() {
        for &b in &sample_values() {
            let p = a * b;
            if a.is_nan() || b.is_nan() || p.is_nan() {
                // NaN results carry a canonical payload here
                assert!(is_nan(mul_bits(a.to_bits(), b.to_bits())));
            } else {
                assert_eq!(
                    mul_bits(a.to_bits(), b.to_bits()),
                    p.to_bits(),
                    "product of {a:?} and {b:?}"
                );
            }
        }
    }
}

#[test]
fn multiplication_rounds_to_nearest_even() {
    // products straddling the 24-bit significand boundary
    let a = 16777217.0f64; // not representable in f32
    let x = 8388609.0f32; // 2^23 + 1
    let y = 2.0f32;
    assert_eq!(mul_bits(x.to_bits(), y.to_bits()), (x * y).to_bits());
    let m = 4097.0f32;
    assert_eq!(mul_bits(m.to_bits(), m.to_bits()), (m * m).to_bits());
    assert!(a as f32 == 16777216.0);
}

#[test]
fn multiplication_overflow_and_underflow() {
    let big = f32::MAX;
    assert!(is_inf(mul_bits(big.to_bits(), 2.0f32.to_bits())));
    assert_eq!(
        mul_bits(big.to_bits(), (-2.0f32).to_bits()),
        f32::NEG_INFINITY.to_bits()
    );
    let tiny = f32::from_bits(1);
    assert_eq!(
        mul_bits(tiny.to_bits(), 0.25f32.to_bits()),
        (tiny * 0.25).to_bits()
    );
    assert_eq!(
        mul_bits(tiny.to_bits(), 0.5f32.to_bits()),
        (tiny * 0.5).to_bits()
    );
}

#[test]
fn comparison_matches_hardware() {
    for &a in &sample_values() {
        for &b in &sample_values() {
            assert_eq!(
                eq_bits(a.to_bits(), b.to_bits()),
                a == b,
                "equality of {a:?} and {b:?}"
            );
            assert_eq!(
                lt_bits(a.to_bits(), b.to_bits()),
                a < b,
                "ordering of {a:?} and {b:?}"
            );
        }
    }
}

#[test]
fn nan_classification() {
    assert!(is_nan(f32::NAN.to_bits()));
    assert!(!is_nan(f32::INFINITY.to_bits()));
    assert!(is_inf(f32::INFINITY.to_bits()));
    assert!(is_inf(f32::NEG_INFINITY.to_bits()));
    assert!(!is_inf(1.0f32.to_bits()));
    assert!(!is_nan(0.0f32.to_bits()));
}

#[test]
fn decimal_is_exact_text() {
    assert_eq!(decimal_bits(1.5f32.to_bits()), b"1.5");
    assert_eq!(decimal_bits(0.5f32.to_bits()), b"0.5");
    assert_eq!(decimal_bits(2.0f32.to_bits()), b"2");
    assert_eq!(decimal_bits((-2.5f32).to_bits()), b"-2.5");
    assert_eq!(decimal_bits(0.0f32.to_bits()), b"0");
    assert_eq!(decimal_bits((-0.0f32).to_bits()), b"-0");
    assert_eq!(decimal_bits(100.0f32.to_bits()), b"100");
    assert_eq!(
        decimal_bits(0.1f32.to_bits()),
        b"0.100000001490116119384765625"
    );
}

#[test]
fn decimal_reads_back_to_the_same_value() {
    for &a in &sample_values() {
        if a.is_nan() || a.is_infinite() {
            continue;
        }
        let text = String::from_utf8(decimal_bits(a.to_bits())).unwrap();
        let back: f32 = text.parse().unwrap();
        assert_eq!(back.to_bits(), a.to_bits(), "decimal text {text} of {a:?}");
    }
}

/// The formatting `bytes_to_readable` reproduces, written with the
/// float arithmetic it replaces.
fn readable_reference(bytes: u64) -> String {
    let units = ["B", "KB", "MB", "GB", "TB", "PB", "EB"];
    let mut value = bytes as f64;
    let mut i = 0;
    while value >= 1024.0 && i < units.len() - 1 {
        value /= 1024.0;
        i += 1;
    }
    format!("{:.2} {}", value, units[i])
}

#[test]
fn readable_sizes_exact_values() {
    assert_eq!(bytes_to_readable(0), "0.00 B");
    assert_eq!(bytes_to_readable(123), "123.00 B");
    assert_eq!(bytes_to_readable(1023), "1023.00 B");
    assert_eq!(bytes_to_readable(1024), "1.00 KB");
    assert_eq!(bytes_to_readable(1536), "1.50 KB");
    assert_eq!(bytes_to_readable(1048576), "1.00 MB");
    assert_eq!(bytes_to_readable(1073741824), "1.00 GB");
    assert_eq!(bytes_to_readable(1125899906842624), "1.00 PB");
}

#[test]
fn readable_sizes_match_float_formatting() {
    let cases = [
        0u64,
        1,
        999,
        1024,
        1025,
        1536,
        10_000,
        1_048_575,
        1_048_576,
        5_000_000,
        123_456_789,
        1_073_741_824,
        999_999_999_999,
        1_099_511_627_776,
        1_125_899_906_842_624,
        9_007_199_254_740_993,
        u64::MAX,
        u64::MAX - 1023,
        1 << 60,
        (1 << 60) - 1,
    ];
    for &b in &cases {
        assert_eq!(bytes_to_readable(b), readable_reference(b), "bytes {b}");
    }
}

#[test]
fn column_aggregates() {
    assert_eq!(max_len(&vec![]), 0);
    assert_eq!(max_len(&vec![3, 9, 4]), 9);
    assert_eq!(sum_sizes(&vec![]), Some(0));
    assert_eq!(sum_sizes(&vec![1, 2, 3]), Some(6));
    assert_eq!(sum_sizes(&vec![u64::MAX, 1]), None);
}
