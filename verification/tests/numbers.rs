use rtop::figure::{append_aligned, append_fixed, append_size, nearest_quotient, repeat};
use rtop::number::{append_decimal, append_two_digits, parse_u64, parse_usize};
use rtop::reading::{Reading, EIGHTY_FIVE, FORTY, HUNDRED, NINETY, SEVENTY, ZERO};
use rtop::text::chars_of;

fn reading(value: f32) -> Reading {
    Reading { bits: value.to_bits() }
}

fn samples() -> Vec<f32> {
    let mut list = vec![
        0.0, -0.0, 0.04, 0.05, 0.15, 0.25, 0.35, 0.45, 0.5, 0.95, 1.0, 1.5, 2.5, 3.45, 9.95, 9.96, 12.34,
        39.999, 40.0, 69.95, 70.0, 85.0, 89.95, 90.0, 99.94, 99.95, 99.96, 100.0, 123.456, 1000.0, 65535.5,
        -1.0, -0.04, -12.75, 1.0e-10, 1.0e10, 3.0e20, f32::MAX, f32::MIN, f32::MIN_POSITIVE, 1.0e-45,
        f32::INFINITY, f32::NEG_INFINITY, f32::NAN,
    ];
    let mut bits: u32 = 12345;
    for _ in 0..2000 {
        bits = bits.wrapping_mul(1664525).wrapping_add(1013904223);
        list.push(f32::from_bits(bits));
        list.push((bits % 1_000_000) as f32 / 1000.0);
        list.push((bits % 4000) as f32 / 40.0);
    }
    list
}

#[test]
fn reading_numbers() {
    assert_eq!(parse_u64(&chars_of("42")), Some(42));
    assert_eq!(parse_u64(&chars_of("+7")), Some(7));
    assert_eq!(parse_u64(&chars_of("007")), Some(7));
    assert_eq!(parse_u64(&chars_of("18446744073709551615")), Some(u64::MAX));
    assert_eq!(parse_u64(&chars_of("18446744073709551616")), None);
    for text in ["", "+", "-1", "1 ", " 1", "1a", "0x10", "++1", "٣"] {
        assert_eq!(parse_u64(&chars_of(text)), text.parse::<u64>().ok(), "{text:?}");
        assert_eq!(parse_usize(&chars_of(text)), text.parse::<usize>().ok(), "{text:?}");
    }
}

#[test]
fn writing_numbers_reads_back() {
    for n in [0u64, 9, 10, 99, 100, 12345, u64::MAX] {
        let mut text = String::new();
        append_decimal(&mut text, n as u128);
        assert_eq!(text, n.to_string());
        assert_eq!(parse_u64(&chars_of(&text)), Some(n));
    }
    for n in [0u64, 5, 12, 100] {
        let mut text = "c".to_string();
        append_two_digits(&mut text, n);
        assert_eq!(text, format!("c{n:02}"));
    }
}

#[test]
fn rounding_to_nearest() {
    assert_eq!(nearest_quotient(5, 2), 2);
    assert_eq!(nearest_quotient(7, 2), 4);
    assert_eq!(nearest_quotient(1, 3), 0);
    assert_eq!(nearest_quotient(2, 3), 1);
    assert_eq!(nearest_quotient(u128::MAX, 1), u128::MAX);
}

#[test]
fn readings_as_text() {
    for value in samples() {
        for decimals in 0..3u32 {
            let mut text = String::new();
            append_fixed(&mut text, reading(value), 0, decimals);
            assert_eq!(text, format!("{:.*}", decimals as usize, value), "{value}");
        }
        let mut shifted = String::new();
        append_fixed(&mut shifted, reading(value), 10, 1);
        assert_eq!(shifted, format!("{:.1}", value / 1024.0), "{value}");
    }
}

#[test]
fn readings_aligned() {
    for value in samples() {
        let mut text = String::new();
        append_aligned(&mut text, reading(value), 1, 5);
        assert_eq!(text, format!("{value:>5.1}"));
        let mut short = "x".to_string();
        append_aligned(&mut short, reading(value), 0, 4);
        assert_eq!(short, format!("x{value:>4.0}"));
    }
    assert_eq!(repeat('⠄', 3), "⠄⠄⠄");
    assert_eq!(repeat('x', 0), "");
}

#[test]
fn sizes_as_text() {
    let mut sizes = vec![
        0u64,
        1,
        1 << 30,
        53_687_091,
        53_687_092,
        17_179_869_184,
        659_706_976_665,
        659_706_976_666,
        (1 << 53) - 1,
        1 << 53,
        (1 << 53) + 1,
        (1 << 60) + 129,
        u64::MAX,
        u64::MAX - 1024,
    ];
    let mut n: u64 = 99;
    for _ in 0..2000 {
        n = n.wrapping_mul(6364136223846793005).wrapping_add(1442695040888963407);
        sizes.push(n);
        sizes.push(n >> 20);
    }
    for bytes in sizes {
        let mut gb = String::new();
        append_size(&mut gb, bytes, 30, 1);
        assert_eq!(gb, format!("{:.1}", bytes as f64 / (1024.0 * 1024.0 * 1024.0)), "{bytes}");
        let mut t = String::new();
        append_size(&mut t, bytes, 40, 2);
        assert_eq!(t, format!("{:.2}", bytes as f64 / (1024.0 * 1024.0 * 1024.0 * 1024.0)), "{bytes}");
    }
}

#[test]
fn order_of_readings() {
    let values = samples();
    for a in values.iter().take(300) {
        for b in values.iter().take(300) {
            let (x, y) = (reading(*a), reading(*b));
            assert_eq!(x.less(y), a < b, "{a} {b}");
            assert_eq!(x.no_more(y), a <= b, "{a} {b}");
            if !a.is_nan() || !b.is_nan() {
                let smaller = f32::from_bits(x.smaller(y).bits);
                assert!(smaller == a.min(*b), "{a} {b}");
            }
        }
        assert_eq!(reading(*a).not_a_number(), a.is_nan());
        let clamped = f32::from_bits(reading(*a).clamped().bits);
        assert!(a.is_nan() || clamped == a.clamp(0.0, 100.0));
    }
}

#[test]
fn thresholds_are_their_numbers() {
    assert_eq!(f32::from_bits(ZERO), 0.0);
    assert_eq!(f32::from_bits(FORTY), 40.0);
    assert_eq!(f32::from_bits(SEVENTY), 70.0);
    assert_eq!(f32::from_bits(EIGHTY_FIVE), 85.0);
    assert_eq!(f32::from_bits(NINETY), 90.0);
    assert_eq!(f32::from_bits(HUNDRED), 100.0);
    assert!(reading(90.0).at_least(NINETY));
    assert!(!reading(89.99).at_least(NINETY));
    assert!(!reading(f32::NAN).at_least(ZERO));
}
