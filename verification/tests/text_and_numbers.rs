use jetx_scraper::double::{Double, FIVE, ONE, THREE, TWO, ZERO};
use jetx_scraper::event::Amount;
use jetx_scraper::number::{is_decimal_text, parse_integer, to_numeral};
use jetx_scraper::text::{chars_of, is_whitespace, same_text, split, string_of, trim};

fn double(x: f64) -> Double {
    Double { bits: x.to_bits() }
}

#[test]
fn split_keeps_empty_pieces() {
    assert_eq!(split("", '_'), vec![""]);
    assert_eq!(split("a", '_'), vec!["a"]);
    assert_eq!(split("_a__b_", '_'), vec!["", "a", "", "b", ""]);
    assert_eq!(split("gr\u{fc}n,\u{1F600}", ','), vec!["gr\u{fc}n", "\u{1F600}"]);
}

#[test]
fn joined_pieces_give_the_text_back() {
    for s in ["", ",", "a,b", ",,x", "no separator", "x,"] {
        assert_eq!(split(s, ',').join(","), s);
    }
}

#[test]
fn whitespace_is_that_of_unicode() {
    let mut n: u32 = 0;
    while n <= 0x10FFFF {
        if let Some(c) = char::from_u32(n) {
            assert_eq!(is_whitespace(c), c.is_whitespace(), "{:x}", n);
        }
        n += 1;
    }
}

#[test]
fn trim_takes_off_both_ends() {
    assert_eq!(trim("  a b\t\r\n"), "a b");
    assert_eq!(trim("\u{3000}x\u{a0}"), "x");
    assert_eq!(trim(" \n "), "");
    assert_eq!(trim(""), "");
    assert_eq!(trim(&trim("  a ")), trim("  a "));
}

#[test]
fn texts_are_compared_by_their_characters() {
    assert!(same_text("gBoard", "gBoard"));
    assert!(!same_text("gBoard", "gboard"));
    assert!(!same_text("", " "));
    let v = chars_of("a\u{e9}b");
    assert_eq!(v, vec!['a', '\u{e9}', 'b']);
    assert_eq!(string_of(&v, 1, 3), "\u{e9}b");
    assert_eq!(string_of(&v, 2, 2), "");
}

#[test]
fn integers_are_read_as_the_standard_library_reads_them() {
    for s in ["0", "+0", "-0", "255", "256", "+", "", "1F", "1f", " 1", "1_0", "0007", "99999999999999999999"] {
        assert_eq!(parse_integer(s, 10, 255), s.parse::<u8>().ok().map(u64::from), "{}", s);
        assert_eq!(parse_integer(s, 16, u64::MAX), u64::from_str_radix(s, 16).ok(), "{}", s);
    }
    assert_eq!(parse_integer("FFFFFFFFFFFFFFFF", 16, u64::MAX), Some(u64::MAX));
    assert_eq!(parse_integer("10000000000000000", 16, u64::MAX), None);
    assert_eq!(parse_integer("zz", 36, u64::MAX), Some(1295));
}

#[test]
fn numerals_are_written_in_upper_case() {
    for n in [0u64, 9, 10, 15, 16, 255, 0xDEADBEEF, u64::MAX] {
        assert_eq!(to_numeral(n, 16), format!("{:X}", n));
        assert_eq!(to_numeral(n, 10), format!("{}", n));
        assert_eq!(parse_integer(&to_numeral(n, 16), 16, u64::MAX), Some(n));
    }
}

#[test]
fn decimals_are_those_of_the_standard_library() {
    let texts = [
        "", "+", "-", ".", "+.", "1", "1.", ".5", "-1.25", "+3", "1e5", "1E-5", "1.e+3", ".5e2",
        "1e", "1e+", "e5", ".e5", "1.2.3", "1..2", "--1", "+-1", "inf", "-INF", "Infinity", "infinit",
        "nan", "NaN", "-nan", "1_000", " 1", "1 ", "0x10", "1e5.0", "1e5e5", "12a", "\u{661}", "1f",
        "infinityx", "00012.50", "1e400", "-0",
    ];
    for s in texts {
        assert_eq!(is_decimal_text(s), s.parse::<f64>().is_ok(), "{:?}", s);
        assert_eq!(Amount::parse(s).is_some(), s.parse::<f64>().is_ok(), "{:?}", s);
    }
    assert_eq!(Amount::parse("1.50").unwrap().as_str(), "1.50");
}

#[test]
fn doubles_are_ordered_as_the_numbers_that_they_encode() {
    let values = [
        f64::NEG_INFINITY, f64::MIN, -2.5, -1.0, -f64::MIN_POSITIVE, -5e-324, -0.0, 0.0, 5e-324,
        f64::MIN_POSITIVE, 0.5, 1.0, 1.0000000000000002, 1.9999, 2.0, 3.0, 5.0, 1e300, f64::MAX,
        f64::INFINITY, f64::NAN,
    ];
    for a in values {
        assert_eq!(double(a).nan(), a.is_nan());
        for b in values {
            assert_eq!(double(a).below(double(b)), a < b, "{} {}", a, b);
            assert_eq!(double(a).same(double(b)), a == b, "{} {}", a, b);
        }
    }
}

#[test]
fn named_doubles_encode_their_numbers() {
    assert_eq!(ZERO, 0.0f64.to_bits());
    assert_eq!(ONE, 1.0f64.to_bits());
    assert_eq!(TWO, 2.0f64.to_bits());
    assert_eq!(THREE, 3.0f64.to_bits());
    assert_eq!(FIVE, 5.0f64.to_bits());
}
