use status_agent::numeral::Numeral;

fn admitted(text: &str) -> bool {
    Numeral::parse(text.as_bytes()).is_some()
}

#[test]
fn whole_numbers_are_numerals() {
    assert!(admitted("0"));
    assert!(admitted("7"));
    assert!(admitted("10"));
    assert!(admitted("1234567890"));
    assert!(admitted("-0"));
    assert!(admitted("-15"));
}

#[test]
fn fractions_are_numerals() {
    assert!(admitted("0.52"));
    assert!(admitted("12.5"));
    assert!(admitted("100.0"));
    assert!(admitted("-3.25"));
    assert!(admitted("0.000001"));
    assert!(admitted("1.00"));
}

#[test]
fn exponents_are_numerals() {
    assert!(admitted("1e5"));
    assert!(admitted("1E5"));
    assert!(admitted("1e+5"));
    assert!(admitted("1e-7"));
    assert!(admitted("1.5e-7"));
    assert!(admitted("-2.5E+10"));
    assert!(admitted("0e0"));
    assert!(admitted("1e007"));
}

#[test]
fn leading_zero_is_refused() {
    assert!(!admitted("01"));
    assert!(!admitted("00"));
    assert!(!admitted("-01"));
    assert!(!admitted("00.5"));
}

#[test]
fn missing_digits_are_refused() {
    assert!(!admitted(""));
    assert!(!admitted("-"));
    assert!(!admitted("."));
    assert!(!admitted(".5"));
    assert!(!admitted("1."));
    assert!(!admitted("-.5"));
    assert!(!admitted("1e"));
    assert!(!admitted("1e+"));
    assert!(!admitted("1e-"));
    assert!(!admitted("e5"));
    assert!(!admitted("1.e5"));
}

#[test]
fn what_is_no_number_is_refused() {
    assert!(!admitted("null"));
    assert!(!admitted("NaN"));
    assert!(!admitted("inf"));
    assert!(!admitted("true"));
    assert!(!admitted("+1"));
    assert!(!admitted("--1"));
    assert!(!admitted("1.2.3"));
    assert!(!admitted("1e5e5"));
    assert!(!admitted("1e5.5"));
    assert!(!admitted("0x10"));
    assert!(!admitted("1,5"));
    assert!(!admitted("1_000"));
}

#[test]
fn white_space_and_trailing_bytes_are_refused() {
    assert!(!admitted(" 1"));
    assert!(!admitted("1 "));
    assert!(!admitted("1\n"));
    assert!(!admitted("1.5,\"cpu\":0"));
    assert!(!admitted("1}"));
    assert!(!admitted("1.5\""));
}

#[test]
fn bytes_that_are_no_text_are_refused() {
    assert!(Numeral::parse(&[0x31, 0xff]).is_none());
    assert!(Numeral::parse(&[0xff]).is_none());
    assert!(Numeral::parse(&[0x00]).is_none());
}

#[test]
fn numeral_keeps_its_text() {
    for text in ["0", "0.52", "-12.5e-3", "100.0", "1E+5"] {
        let numeral = Numeral::parse(text.as_bytes()).unwrap();
        assert_eq!(numeral.as_bytes(), text.as_bytes());
    }
}

#[test]
fn floats_rendered_as_json_are_numerals() {
    let values = [
        0.0f64, 0.52, 1.0, 12.5, 99.99, 100.0, 1e-7, 1.5e-7, 1e21, 123456789.125, -3.75,
        f64::MIN_POSITIVE, f64::MAX, 0.1 + 0.2,
    ];
    for value in values {
        let text = serde_json::to_string(&value).unwrap();
        let numeral = Numeral::parse(text.as_bytes());
        assert!(numeral.is_some(), "{}", text);
        let back: f64 = serde_json::from_slice(numeral.unwrap().as_bytes()).unwrap();
        assert_eq!(back, value);
    }
}

#[test]
fn single_precision_shares_rendered_as_json_are_numerals() {
    for share in [0.0f32, 3.7, 12.345678, 50.0, 99.9, 100.0] {
        let text = serde_json::to_string(&(share as f64)).unwrap();
        assert!(admitted(&text), "{}", text);
    }
}

#[test]
fn floats_that_are_no_numbers_are_refused() {
    for value in [f64::NAN, f64::INFINITY, f64::NEG_INFINITY] {
        let text = serde_json::to_string(&value).unwrap();
        assert_eq!(text, "null");
        assert!(!admitted(&text));
    }
}

#[test]
fn numeral_is_admitted_exactly_when_it_parses_as_a_json_number() {
    let texts = [
        "0", "-0", "1", "01", "1.", "1.0", ".1", "1e1", "1e", "1E-1", "-", "", "1.5e+3", "abc",
        "1a", "12.50", "1..0", "-1.0e-0", "9007199254740993", "+0",
    ];
    for text in texts {
        let parsed: Result<serde_json::Value, _> = serde_json::from_str(text);
        let is_number = matches!(parsed, Ok(serde_json::Value::Number(_)));
        assert_eq!(admitted(text), is_number, "{:?}", text);
    }
}
