use breezy_cosmic::bytes::{read_u32, read_u64};
use breezy_cosmic::ieee::{
    Single, DOUBLE_FIFTEEN, DOUBLE_ONE, DOUBLE_ONE_AND_A_HALF, DOUBLE_ZERO, SINGLE_INFINITY,
    SINGLE_MINUS_ONE, SINGLE_ONE, SINGLE_ZERO,
};
use breezy_cosmic::ppm::encode_ppm;
use breezy_cosmic::render::{DEAD_ZONE_DEGREES, FALLBACK_FOV_DEGREES};
use breezy_cosmic::text::{
    contains, find, find_char, first_word, parse_int_or_zero, push_integer, push_natural, rfind,
    split_pair, strip_prefix, to_chars, to_text, trim, trim_parens, trim_trailing,
};

fn single(x: f32) -> Single {
    Single { bits: x.to_bits() }
}

#[test]
fn constants_are_the_numbers_they_name() {
    assert_eq!(DOUBLE_ZERO, 0.0f64.to_bits());
    assert_eq!(DOUBLE_ONE, 1.0f64.to_bits());
    assert_eq!(DOUBLE_ONE_AND_A_HALF, 1.5f64.to_bits());
    assert_eq!(DOUBLE_FIFTEEN, 15.0f64.to_bits());
    assert_eq!(SINGLE_ZERO, 0.0f32.to_bits());
    assert_eq!(SINGLE_ONE, 1.0f32.to_bits());
    assert_eq!(SINGLE_MINUS_ONE, (-1.0f32).to_bits());
    assert_eq!(SINGLE_INFINITY, f32::INFINITY.to_bits());
    assert_eq!(DEAD_ZONE_DEGREES, 0.4f32.to_bits());
    assert_eq!(FALLBACK_FOV_DEGREES, 46.0f32.to_bits());
}

#[test]
fn comparison_and_negation_are_those_of_the_numbers() {
    let samples = [
        0.0f32,
        -0.0,
        1.0,
        -1.0,
        0.4,
        1.5e-42,
        -1.5e-42,
        f32::MAX,
        f32::MIN,
        f32::MIN_POSITIVE,
        f32::INFINITY,
        f32::NEG_INFINITY,
        f32::NAN,
        -f32::NAN,
    ];
    for a in samples {
        assert_eq!(single(a).negate(), single(-a));
        assert_eq!(single(a).negate().negate(), single(a));
        for b in samples {
            assert_eq!(single(a).less_than(single(b)), a < b, "{} < {}", a, b);
        }
    }
}

#[test]
fn trimming() {
    let t = |s: &str| to_text(trim(&to_chars(s)));
    assert_eq!(t("  a b\t\n"), "a b");
    assert_eq!(t(" \u{a0}\u{3000}"), "");
    assert_eq!(t("\u{85}x\u{2028}"), "x");
    assert_eq!(t("\u{200b}x"), "\u{200b}x");
    for c in (0..=0x10ffffu32).filter_map(char::from_u32) {
        assert_eq!(breezy_cosmic::text::is_white(c), c.is_whitespace(), "{:?}", c);
    }
}

#[test]
fn searching_and_splitting() {
    let s = to_chars("one@ two@ three");
    let at = to_chars("@ ");
    assert_eq!(find(&s, &at), Some(3));
    assert_eq!(rfind(&s, &at), Some(8));
    assert_eq!(find(&at, &s), None);
    assert_eq!(rfind(&at, &s), None);
    assert_eq!(find(&s, &[]), Some(0));
    assert_eq!(rfind(&s, &[]), Some(15));
    assert!(contains(&s, &to_chars("three")));
    assert!(!contains(&s, &to_chars("Three")));
    assert_eq!(find_char(&s, 't', 6), Some(10));
    assert_eq!(to_text(first_word(&s)), "one@");
    assert_eq!(to_text(trim_trailing(&to_chars("a::"), ':')), "a");
    assert_eq!(to_text(trim_parens(&to_chars("((a)b)"))), "a)b");
    let pair = to_chars("12x34");
    let (a, b) = split_pair(&pair, 'x').unwrap();
    assert_eq!((to_text(a), to_text(b)), ("12".to_string(), "34".to_string()));
    assert!(split_pair(&to_chars("1x2x3"), 'x').is_none());
    assert!(split_pair(&to_chars("12"), 'x').is_none());
    let make = to_chars("Make: LG");
    assert_eq!(to_text(strip_prefix(&make, &to_chars("Make: ")).unwrap()), "LG");
    assert!(strip_prefix(&make, &to_chars("Model: ")).is_none());
}

#[test]
fn integers_are_read_and_written() {
    for s in [
        "0", "-0", "+5", "-17", "2147483647", "2147483648", "-2147483648", "-2147483649", "",
        "+", "-", "1 ", "0x10", "99999999999999999999", "--1", "٣",
    ] {
        assert_eq!(parse_int_or_zero(&to_chars(s)), s.parse::<i32>().unwrap_or(0), "{:?}", s);
    }
    for n in [0, 7, 10, -1, 1920, -1080, i32::MAX, i32::MIN] {
        let mut s = String::from("<");
        push_integer(&mut s, n);
        assert_eq!(s, format!("<{}", n));
        assert_eq!(parse_int_or_zero(&to_chars(&s[1..])), n);
    }
    let mut s = String::new();
    push_natural(&mut s, u64::MAX);
    assert_eq!(s, "18446744073709551615");
}

#[test]
fn little_endian_numbers() {
    let data = [0xffu8, 0x50, 0x41, 0x43, 0x42, 1, 2, 3, 4, 5];
    assert_eq!(read_u32(&data, 1), 0x42434150);
    assert_eq!(read_u64(&data, 2), 0x0504030201424341);
}

#[test]
fn pixmaps() {
    let pixels = [1u8, 2, 3, 4, 5, 6, 7, 8];
    assert_eq!(encode_ppm(2, 1, &pixels), b"P6\n2 1\n255\n\x01\x02\x03\x05\x06\x07");
    assert_eq!(encode_ppm(1920, 0, &[]), b"P6\n1920 0\n255\n");
    assert_eq!(encode_ppm(1, 1, &[9, 8, 7]), b"P6\n1 1\n255\n\x09\x08\x07");
}
