use shoji_probe::text::append_bool;
use shoji_probe::text::append_bracketed;
use shoji_probe::text::append_decimal;
use shoji_probe::text::characters;
use shoji_probe::text::parse_number;
use shoji_probe::text::same_text;
use shoji_probe::text::stamp;

fn decimal(n: u64) -> String {
    let mut out = String::new();
    append_decimal(&mut out, n);
    out
}

#[test]
fn stamp_pads_to_seven_columns() {
    for seconds in [0.0f64, 1.5, 9.9995, 12.3456, 999.9994, 12345.678] {
        let text = format!("{:.3}", seconds);
        assert_eq!(stamp(Some(&text)), format!("[{:7.3}s]", seconds));
    }
    assert_eq!(stamp(Some("1.500")), "[  1.500s]");
    assert_eq!(stamp(Some("12345.678")), "[12345.678s]");
}

#[test]
fn stamp_before_the_start_reads_zero() {
    assert_eq!(stamp(None), format!("[{:7.3}s]", 0.0f64));
    assert_eq!(stamp(None), "[  0.000s]");
}

#[test]
fn decimal_is_what_std_prints() {
    for n in [0u64, 7, 9, 10, 42, 100, 4294967295, 4278190080, u64::MAX] {
        assert_eq!(decimal(n), n.to_string());
    }
}

#[test]
fn decimal_appends_to_what_is_there() {
    let mut out = "#".to_string();
    append_decimal(&mut out, 305);
    assert_eq!(out, "#305");
}

#[test]
fn decimal_reads_back() {
    for n in [0u64, 5, 10, 99, 1234567, u64::MAX] {
        assert_eq!(parse_number(&decimal(n)), Some(n));
    }
}

#[test]
fn numbers_are_read_as_std_reads_them() {
    let inputs = [
        "", "0", "7", "007", "+7", "+", "++7", "-7", "-0", " 7", "7 ", "1_000", "1.5", "x", "7x",
        "\u{663}", "18446744073709551615", "18446744073709551616", "+18446744073709551615",
        "99999999999999999999999999", "000000000000000000000000000012",
    ];
    for input in inputs {
        assert_eq!(parse_number(input), input.parse::<u64>().ok(), "{}", input);
    }
}

#[test]
fn lists_are_bracketed() {
    let mut out = "x=".to_string();
    append_bracketed(&mut out, &vec![]);
    assert_eq!(out, "x=[]");
    let mut out = String::new();
    append_bracketed(&mut out, &vec!["a".to_string()]);
    assert_eq!(out, "[a]");
    let mut out = String::new();
    append_bracketed(&mut out, &vec!["a".to_string(), "b".to_string(), "c".to_string()]);
    assert_eq!(out, "[a, b, c]");
}

#[test]
fn truth_values_are_spelled_out() {
    let mut out = String::new();
    append_bool(&mut out, true);
    append_bool(&mut out, false);
    assert_eq!(out, "truefalse");
}

#[test]
fn texts_are_compared_by_characters() {
    assert!(same_text("wl_seat", "wl_seat"));
    assert!(!same_text("wl_seat", "wl_sea"));
    assert!(same_text("", ""));
    assert_eq!(characters("a\u{e9}b"), vec!['a', '\u{e9}', 'b']);
}
