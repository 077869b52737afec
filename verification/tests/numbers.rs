use fastembed::float::{
    byte_to_single, divide_by_double, double_of_integer, double_quotient_u32, narrow,
    single_to_usize,
};
use fastembed::integer::low_bits_of;
use fastembed::text::{decimal_text, is_before, joined, same_text};

const DOUBLES: [f64; 24] = [
    0.0,
    -0.0,
    1.0,
    -1.0,
    0.5,
    0.875,
    255.0,
    512.0,
    1e-50,
    1e-45,
    7.006492321624085e-46,
    1.401298464324817e-45,
    1.1754943508222875e-38,
    1.1754942807573643e-38,
    3.4028234663852886e38,
    3.4028235677973366e38,
    1e39,
    1e30,
    16777217.0,
    16777219.0,
    0.1,
    f64::INFINITY,
    f64::NEG_INFINITY,
    5e-324,
];

#[test]
fn doubles_narrow_to_singles() {
    for double in DOUBLES {
        assert_eq!(narrow(double.to_bits()), (double as f32).to_bits(), "{double}");
    }
}

#[test]
fn singles_become_lengths() {
    for single in [
        0.0f32, -0.0, 0.9, 1.0, -3.0, 511.99, 512.0, 1e10, 1e30, 3e38, 1.8446744e19, 1.8446742e19,
        f32::INFINITY, f32::NEG_INFINITY, f32::NAN,
    ] {
        assert_eq!(single_to_usize(single.to_bits()), single as usize, "{single}");
    }
}

#[test]
fn edges_are_divided_by_doubles() {
    for n in [0u32, 1, 7, 224, 383, u32::MAX] {
        for double in DOUBLES {
            assert_eq!(
                divide_by_double(n, double.to_bits()),
                (n as f64 / double) as u32,
                "{n} {double}"
            );
        }
        assert_eq!(
            divide_by_double(n, f64::NAN.to_bits()),
            (n as f64 / f64::NAN) as u32
        );
    }
}

#[test]
fn integers_become_doubles() {
    for n in [
        0u64,
        1,
        0x20_0000_0000_0000,
        0x20_0000_0000_0001,
        0x20_0000_0000_0003,
        u64::MAX,
        18446744065119617025,
    ] {
        assert_eq!(double_of_integer(n), n as f64 as u128);
    }
}

#[test]
fn quotients_are_rounded_to_doubles() {
    for (n, d) in [
        (0u64, 1u64),
        (1, 3),
        (2, 3),
        (640 * 224, 480),
        (18446744065119617025, 4294967295),
        (18446744065119617024, 4294967291),
        (9007199254740993, 1),
        (4294967295, 4294967294),
    ] {
        let rounded = double_of_integer(n);
        assert_eq!(
            double_quotient_u32(rounded, d),
            (n as f64 / d as f64) as u32,
            "{n} {d}"
        );
    }
}

#[test]
fn bytes_are_exact_as_singles() {
    for byte in 0..=255u8 {
        assert_eq!(byte_to_single(byte), (byte as f32).to_bits());
        assert_eq!(single_to_usize(byte_to_single(byte)), byte as usize);
    }
}

#[test]
fn integers_are_cut_to_their_low_bits() {
    assert_eq!(low_bits_of(7), 7);
    assert_eq!(low_bits_of(0x1_0000_0007), 7);
    assert_eq!(low_bits_of(u64::MAX), u32::MAX);
}

#[test]
fn texts_are_ordered_by_their_bytes() {
    let texts = ["", "a", "ab", "b", "model-00001", "model-00002", "z", "é", "日", "𝄞"];
    for (i, a) in texts.iter().enumerate() {
        for (j, b) in texts.iter().enumerate() {
            assert_eq!(is_before(a, b), a < b);
            assert_eq!(is_before(a, b), i < j);
            assert_eq!(same_text(a, b), i == j);
        }
    }
}

#[test]
fn numbers_are_written_in_decimal() {
    for n in [0, 7, 10, 99, 100, 4294967296, usize::MAX] {
        assert_eq!(decimal_text(n), n.to_string());
    }
    assert_eq!(joined("a", "b"), "ab");
}
