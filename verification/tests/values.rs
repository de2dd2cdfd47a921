use toml_comment::fmt_value;
use toml_comment::text::{chars_of, same_text, trimmed_equals};
use toml_comment::value::{TomlDate, TomlDatetime, TomlOffset, TomlTime, TomlValue, UtcOffset};

fn string(s: &str) -> TomlValue {
    TomlValue::String(s.to_string())
}

#[test]
fn string_plain_is_quoted() {
    assert_eq!(fmt_value(&string("hello")), "\"hello\"");
    assert_eq!(fmt_value(&string("")), "\"\"");
}

#[test]
fn string_escapes_backslash_and_quote() {
    assert_eq!(fmt_value(&string("a\\b")), "\"a\\\\b\"");
    assert_eq!(fmt_value(&string("say \"hi\"")), "\"say \\\"hi\\\"\"");
    assert_eq!(fmt_value(&string("\\\"")), "\"\\\\\\\"\"");
    assert_eq!(fmt_value(&string("tab\there é")), "\"tab\there é\"");
}

#[test]
fn distinct_strings_stay_distinct() {
    // "\\\"" and "\"\\" differ, and so do their texts.
    assert_ne!(fmt_value(&string("\\\"")), fmt_value(&string("\"\\")));
}

#[test]
fn integers_in_decimal() {
    assert_eq!(fmt_value(&TomlValue::Integer(0)), "0");
    assert_eq!(fmt_value(&TomlValue::Integer(42)), "42");
    assert_eq!(fmt_value(&TomlValue::Integer(-7)), "-7");
    assert_eq!(fmt_value(&TomlValue::Integer(1000)), "1000");
    assert_eq!(fmt_value(&TomlValue::Integer(i64::MAX)), "9223372036854775807");
    assert_eq!(fmt_value(&TomlValue::Integer(i64::MIN)), "-9223372036854775808");
}

#[test]
fn floats_always_have_a_point() {
    assert_eq!(fmt_value(&TomlValue::Float(1.0f64.to_string())), "1.0");
    assert_eq!(fmt_value(&TomlValue::Float(0.75f64.to_string())), "0.75");
    assert_eq!(fmt_value(&TomlValue::Float((-3.0f64).to_string())), "-3.0");
    assert_eq!(fmt_value(&TomlValue::Float(1e20f64.to_string())), "100000000000000000000.0");
    assert_eq!(fmt_value(&TomlValue::Float(f64::INFINITY.to_string())), "inf.0");
    assert_eq!(fmt_value(&TomlValue::Float(f64::NAN.to_string())), "NaN.0");
}

#[test]
fn booleans() {
    assert_eq!(fmt_value(&TomlValue::Boolean(true)), "true");
    assert_eq!(fmt_value(&TomlValue::Boolean(false)), "false");
}

#[test]
fn arrays_are_bracketed_and_comma_separated() {
    assert_eq!(fmt_value(&TomlValue::Array(vec![])), "[]");
    assert_eq!(fmt_value(&TomlValue::Array(vec![TomlValue::Integer(1)])), "[1]");
    assert_eq!(
        fmt_value(&TomlValue::Array(vec![
            TomlValue::Integer(1),
            string("x"),
            TomlValue::Array(vec![TomlValue::Boolean(true), TomlValue::Boolean(false)]),
        ])),
        "[1, \"x\", [true, false]]"
    );
}

#[test]
fn tables_are_inline() {
    assert_eq!(fmt_value(&TomlValue::Table(vec![])), "{  }");
    assert_eq!(
        fmt_value(&TomlValue::Table(vec![
            ("host".to_string(), string("0.0.0.0")),
            ("port".to_string(), TomlValue::Integer(3000)),
        ])),
        "{ host = \"0.0.0.0\", port = 3000 }"
    );
    assert_eq!(
        fmt_value(&TomlValue::Table(vec![(
            "inner".to_string(),
            TomlValue::Table(vec![("a".to_string(), TomlValue::Array(vec![]))]),
        )])),
        "{ inner = { a = [] } }"
    );
}

fn date(year: u16, month: u8, day: u8) -> Option<TomlDate> {
    Some(TomlDate { year, month, day })
}

fn time(hour: u8, minute: u8, second: u8, nanosecond: u32) -> Option<TomlTime> {
    Some(TomlTime { hour, minute, second, nanosecond })
}

#[test]
fn datetimes_as_toml_writes_them() {
    let offset_dt = TomlDatetime {
        date: date(1979, 5, 27),
        time: time(7, 32, 0, 0),
        offset: Some(TomlOffset::Z),
    };
    assert_eq!(fmt_value(&TomlValue::Datetime(offset_dt)), "1979-05-27T07:32:00Z");
    let custom = TomlDatetime {
        date: date(1979, 5, 27),
        time: time(0, 32, 0, 999_999_000),
        offset: Some(TomlOffset::Custom(UtcOffset::new(-420).unwrap())),
    };
    assert_eq!(fmt_value(&TomlValue::Datetime(custom)), "1979-05-27T00:32:00.999999-07:00");
    let local_date = TomlDatetime { date: date(2024, 1, 2), time: None, offset: None };
    assert_eq!(fmt_value(&TomlValue::Datetime(local_date)), "2024-01-02");
    let local_time = TomlDatetime { date: None, time: time(23, 5, 9, 500_000_000), offset: None };
    assert_eq!(fmt_value(&TomlValue::Datetime(local_time)), "23:05:09.5");
}

#[test]
fn offsets_refuse_only_the_least_minute_count() {
    assert!(UtcOffset::new(i16::MIN).is_none());
    assert_eq!(UtcOffset::new(i16::MIN + 1).unwrap().minutes(), i16::MIN + 1);
    assert_eq!(UtcOffset::new(90).unwrap().minutes(), 90);
}

#[test]
fn text_helpers() {
    assert_eq!(chars_of("héllo"), vec!['h', 'é', 'l', 'l', 'o']);
    assert!(same_text("abc", "abc"));
    assert!(!same_text("abc", "abd"));
    assert!(trimmed_equals("  inline\n", "inline"));
    assert!(trimmed_equals("\u{3000}inline\u{a0}", "inline"));
    assert!(!trimmed_equals("in line", "inline"));
    assert!(!trimmed_equals("", "inline"));
    assert!(trimmed_equals("   ", ""));
}

#[test]
fn values_stay_on_one_line() {
    let v = TomlValue::Table(vec![
        ("a".to_string(), TomlValue::Array(vec![string("x y"), TomlValue::Float(2.5f64.to_string())])),
        (
            "when".to_string(),
            TomlValue::Datetime(TomlDatetime {
                date: date(2000, 1, 1),
                time: time(1, 2, 3, 4),
                offset: Some(TomlOffset::Custom(UtcOffset::new(330).unwrap())),
            }),
        ),
    ]);
    let text = fmt_value(&v);
    assert_eq!(text, "{ a = [\"x y\", 2.5], when = 2000-01-01T01:02:03.000000004+05:30 }");
    assert!(!text.contains('\n') && !text.contains('\r'));
    // A line break inside a string is not escaped, as before.
    assert_eq!(fmt_value(&string("a\nb")), "\"a\nb\"");
}

#[test]
fn written_strings_read_back() {
    for s in ["plain", "a\\b", "say \"hi\"", "\\\"", "tab\there", "é ✓", ""] {
        let doc = format!("k = {}\n", fmt_value(&string(s)));
        let parsed: toml::Value = toml::from_str(&doc).unwrap();
        assert_eq!(parsed.get("k").and_then(|v| v.as_str()), Some(s), "{}", doc);
    }
}
