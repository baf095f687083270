use cutsvg::Num;

fn text(n: &Num) -> String {
    String::from_utf8(n.to_text()).unwrap()
}

fn round_trip(s: &str) -> Option<String> {
    Num::parse(s.as_bytes()).map(|n| text(&n))
}

#[test]
fn parses_canonical_texts() {
    assert_eq!(Num::parse(b"0"), Some(Num::Finite { negative: false, digits: 0, exp: 0 }));
    assert_eq!(Num::parse(b"-0"), Some(Num::Finite { negative: true, digits: 0, exp: 0 }));
    assert_eq!(Num::parse(b"5"), Some(Num::Finite { negative: false, digits: 5, exp: 0 }));
    assert_eq!(Num::parse(b"1500"), Some(Num::Finite { negative: false, digits: 15, exp: 2 }));
    assert_eq!(Num::parse(b"0.1"), Some(Num::Finite { negative: false, digits: 1, exp: -1 }));
    assert_eq!(Num::parse(b"-0.025"), Some(Num::Finite { negative: true, digits: 25, exp: -3 }));
    assert_eq!(Num::parse(b"123.456"), Some(Num::Finite { negative: false, digits: 123456, exp: -3 }));
    assert_eq!(Num::parse(b"NaN"), Some(Num::NaN));
    assert_eq!(Num::parse(b"inf"), Some(Num::Infinite { negative: false }));
    assert_eq!(Num::parse(b"-inf"), Some(Num::Infinite { negative: true }));
}

#[test]
fn refuses_other_texts() {
    for s in [
        "", "-", "00", "01", "-01", "1.", ".5", "1.50", "0.0", "1e5", "+1", "1.2.3", "abc", "- 1", "1 ",
        "--1", "Inf", "nan", "18446744073709551616", "0.18446744073709551616",
    ] {
        assert_eq!(Num::parse(s.as_bytes()), None, "{:?}", s);
    }
}

#[test]
fn largest_digit_string_is_accepted() {
    assert_eq!(
        Num::parse(b"18446744073709551615"),
        Some(Num::Finite { negative: false, digits: 18446744073709551615, exp: 0 })
    );
}

#[test]
fn exponent_limit() {
    let at_limit = format!("1{}", "0".repeat(400));
    let past_limit = format!("1{}", "0".repeat(401));
    assert_eq!(Num::parse(at_limit.as_bytes()), Some(Num::Finite { negative: false, digits: 1, exp: 400 }));
    assert_eq!(Num::parse(past_limit.as_bytes()), None);
    let small = format!("0.{}1", "0".repeat(399));
    assert_eq!(Num::parse(small.as_bytes()), Some(Num::Finite { negative: false, digits: 1, exp: -400 }));
}

#[test]
fn prints_numbers() {
    assert_eq!(text(&Num::Finite { negative: false, digits: 15, exp: 2 }), "1500");
    assert_eq!(text(&Num::Finite { negative: true, digits: 25, exp: -3 }), "-0.025");
    assert_eq!(text(&Num::Finite { negative: false, digits: 123456, exp: -3 }), "123.456");
    assert_eq!(text(&Num::Finite { negative: false, digits: 7, exp: -1 }), "0.7");
    assert_eq!(text(&Num::Finite { negative: true, digits: 0, exp: 0 }), "-0");
    assert_eq!(text(&Num::Infinite { negative: true }), "-inf");
    assert_eq!(text(&Num::NaN), "NaN");
}

#[test]
fn doubles_print_as_their_display() {
    let samples = [
        0.0, -0.0, 1.0, -1.0, 0.1, 0.2, 0.3, 1.5, 10.0, 100.0, 1e21, 1e-7, 123456.789, -2.5e-3,
        f64::MAX, f64::MIN, f64::MIN_POSITIVE, 5e-324, f64::EPSILON, 9007199254740993.0, std::f64::consts::PI,
        f64::INFINITY, f64::NEG_INFINITY, f64::NAN,
    ];
    for x in samples {
        let shown = format!("{}", x);
        assert_eq!(round_trip(&shown), Some(shown.clone()), "{}", shown);
    }
}

#[test]
fn text_parses_back() {
    let nums = [
        Num::Finite { negative: false, digits: 1, exp: 0 },
        Num::Finite { negative: true, digits: 31, exp: 5 },
        Num::Finite { negative: false, digits: 987654321, exp: -20 },
        Num::Finite { negative: false, digits: 4, exp: -400 },
        Num::Finite { negative: false, digits: 18446744073709551615, exp: 400 },
        Num::Infinite { negative: false },
        Num::NaN,
    ];
    for n in nums {
        assert_eq!(Num::parse(&n.to_text()), Some(n));
    }
}

#[test]
fn any_digits_and_exponent_print_canonically() {
    assert_eq!(text(&Num::Finite { negative: false, digits: 0, exp: 5 }), "0");
    assert_eq!(text(&Num::Finite { negative: true, digits: 0, exp: -3 }), "-0");
    assert_eq!(text(&Num::Finite { negative: false, digits: 1500, exp: -2 }), "15");
    assert_eq!(text(&Num::Finite { negative: false, digits: 120, exp: 0 }), "120");
    assert_eq!(text(&Num::Finite { negative: false, digits: 1200, exp: -3 }), "1.2");
}
