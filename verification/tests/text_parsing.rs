use rust_o_mapper::text::{
    chars_are, chars_of, is_float_literal, parse_bool, parse_usize, push_decimal,
    push_zero_padded, same_text, split_pieces, string_from_chars, string_is, text_to_i32,
    text_to_i64, text_to_u32, trim_chars,
};

fn s(t: &str) -> String {
    t.to_string()
}

#[test]
fn reads_u32_like_str_parse() {
    assert_eq!(text_to_u32(&s("42")), Some(42));
    assert_eq!(text_to_u32(&s("+42")), Some(42));
    assert_eq!(text_to_u32(&s("4294967295")), Some(u32::MAX));
    assert_eq!(text_to_u32(&s("4294967296")), None);
    assert_eq!(text_to_u32(&s("-1")), None);
    assert_eq!(text_to_u32(&s("")), None);
    assert_eq!(text_to_u32(&s("+")), None);
    assert_eq!(text_to_u32(&s(" 1")), None);
    for t in ["0", "7", "+9", "123456", "99999999999", "-0", "1a", "", "+"] {
        assert_eq!(text_to_u32(&s(t)), t.parse::<u32>().ok(), "text {:?}", t);
    }
}

#[test]
fn reads_signed_integers_like_str_parse() {
    assert_eq!(text_to_i32(&s("-2147483648")), Some(i32::MIN));
    assert_eq!(text_to_i32(&s("2147483648")), None);
    assert_eq!(text_to_i64(&s("-5")), Some(-5));
    assert_eq!(text_to_i64(&s("9223372036854775807")), Some(i64::MAX));
    assert_eq!(text_to_i64(&s("-9223372036854775809")), None);
    for t in ["-1", "+1", "-", "--1", "12", "-0", "1 "] {
        assert_eq!(text_to_i32(&s(t)), t.parse::<i32>().ok(), "text {:?}", t);
        assert_eq!(text_to_i64(&s(t)), t.parse::<i64>().ok(), "text {:?}", t);
    }
}

#[test]
fn reads_booleans_exactly() {
    assert_eq!(parse_bool(&s("true")), Some(true));
    assert_eq!(parse_bool(&s("false")), Some(false));
    assert_eq!(parse_bool(&s("True")), None);
    assert_eq!(parse_bool(&s("1")), None);
}

#[test]
fn recognizes_float_literals_like_str_parse() {
    let cases = [
        "0.5", "1e3", "-inf", "NaN", ".5", "5.", "+1.5E-3", "Infinity", "0", "1", "", "1e", "abc",
        "1.2.3", "e5", ".", "-", "+.5", "1e+", "1E-07", "inF", "nan1", "0x10", " 1",
    ];
    for t in cases {
        assert_eq!(is_float_literal(&s(t)), t.parse::<f32>().is_ok(), "text {:?}", t);
    }
}

#[test]
fn splits_on_white_space_and_on_semicolons() {
    let pieces = split_pieces(&chars_of("  12 -3\t1 "), true);
    let texts: Vec<String> = pieces.iter().map(|p| p.iter().collect()).collect();
    assert_eq!(texts, vec!["12", "-3", "1"]);
    let pieces = split_pieces(&chars_of("1 2;;3 4 1;"), false);
    let texts: Vec<String> = pieces.iter().map(|p| p.iter().collect()).collect();
    assert_eq!(texts, vec!["1 2", "3 4 1"]);
}

#[test]
fn trims_and_compares_text() {
    let t = trim_chars(&chars_of("  -1 \n"));
    assert!(chars_are(&t, "-1"));
    assert!(!chars_are(&t, "-1 "));
    assert_eq!(string_from_chars(&t), "-1");
    assert!(string_is(&s("abc"), "abc"));
    assert!(!string_is(&s("abc"), "ab"));
    assert!(same_text(&s("x"), &s("x")));
    assert_eq!(parse_usize(&chars_of("17")), Some(17));
    assert_eq!(parse_usize(&chars_of("-1")), None);
}

#[test]
fn writes_decimal_numbers() {
    let mut out = String::new();
    push_decimal(&mut out, 0);
    out.push_str("|");
    push_decimal(&mut out, 1234567890);
    out.push_str("|");
    push_zero_padded(&mut out, 5, 6);
    out.push_str("|");
    push_zero_padded(&mut out, 1234567, 6);
    assert_eq!(out, "0|1234567890|000005|1234567");
}
