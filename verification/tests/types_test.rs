use rdb::record::Row;
use rdb::types::strings::is_string;
use rdb::types::{is_bool_text, is_float, is_valid_data, verdict};

#[test]
fn every_tag_takes_a_value_of_its_type() {
    assert_eq!(is_valid_data("anything", "string"), Ok(()));
    assert_eq!(is_valid_data("-42", "int"), Ok(()));
    assert_eq!(is_valid_data("42", "uint"), Ok(()));
    assert_eq!(is_valid_data("4.2e1", "float"), Ok(()));
    assert_eq!(is_valid_data("TRUE", "bool"), Ok(()));
    assert_eq!(is_valid_data("False", "bool"), Ok(()));
    assert_eq!(is_valid_data("1", "bool"), Ok(()));
    assert_eq!(is_valid_data("0", "bool"), Ok(()));
    assert_eq!(is_valid_data("2024-02-29 23:59:59", "date"), Ok(()));
    assert_eq!(is_valid_data("1700000000", "timestamp"), Ok(()));
    assert_eq!(is_valid_data("{\"id\": [1, 2]}", "json"), Ok(()));
}

#[test]
fn every_tag_refuses_a_value_of_another_type() {
    assert_eq!(is_valid_data("abc", "int").unwrap_err(), "invalid digit found in string");
    assert_eq!(is_valid_data("", "int").unwrap_err(), "cannot parse integer from empty string");
    assert_eq!(
        is_valid_data("9223372036854775808", "int").unwrap_err(),
        "number too large to fit in target type"
    );
    assert_eq!(is_valid_data("-1", "uint").unwrap_err(), "invalid digit found in string");
    assert_eq!(is_valid_data("-1", "timestamp").unwrap_err(), "invalid digit found in string");
    assert_eq!(is_valid_data("abc", "float").unwrap_err(), "invalid float literal");
    assert_eq!(is_valid_data("", "float").unwrap_err(), "cannot parse float from empty string");
    assert_eq!(is_valid_data("yes", "bool").unwrap_err(), "not a boolean value");
    assert!(is_valid_data("2024-02-30 00:00:00", "date").is_err());
    assert!(is_valid_data("2024-02-29", "date").is_err());
    assert!(is_valid_data("{\"id\": ", "json").is_err());
    assert_eq!(is_valid_data("1", "number").unwrap_err(), "provided invalid type");
    assert_eq!(is_valid_data("1", "").unwrap_err(), "provided invalid type");
}

#[test]
fn the_messages_are_those_of_the_parsers() {
    let int_err = "abc".parse::<i64>().unwrap_err().to_string();
    assert_eq!(is_valid_data("abc", "int").unwrap_err(), int_err);
    let uint_err = "".parse::<u64>().unwrap_err().to_string();
    assert_eq!(is_valid_data("", "uint").unwrap_err(), uint_err);
    let date_err = chrono::NaiveDateTime::parse_from_str("x", "%Y-%m-%d %H:%M:%S")
        .unwrap_err()
        .to_string();
    assert_eq!(is_valid_data("x", "date").unwrap_err(), date_err);
    let json_err = serde_json::from_str::<serde_json::Value>("[1,").unwrap_err().to_string();
    assert_eq!(is_valid_data("[1,", "json").unwrap_err(), json_err);
}

#[test]
fn float_texts_are_told_as_the_float_parser_tells_them() {
    let samples = [
        "", "0", "1", "-1", "+1", "1.", ".1", ".", "+", "-", "1.5", "-1.5e10", "1e5", "1E5",
        "1e+5", "1e-5", "1e", "1e+", "e5", ".e5", "1.e5", ".5e5", "1..2", "1.2.3", "inf", "-inf",
        "+INF", "Infinity", "-iNfInItY", "infinit", "infinityy", "nan", "NaN", "-nan", "+NAN",
        "nana", " 1", "1 ", "1_000", "0x10", "1f", "１", "1e5.5", "--1", "+-1", "1e++5", "00.00",
        "123456789012345678901234567890", "1e999999", ".0e0", "5.", "+.", "-.e1", "in", "na",
        "1e5e5", "١", "1,5",
    ];
    for sample in samples {
        let expected = sample.parse::<f64>();
        assert_eq!(is_float(sample), expected.is_ok(), "sample {:?}", sample);
        match expected {
            Ok(_) => assert_eq!(is_valid_data(sample, "float"), Ok(())),
            Err(err) => {
                assert_eq!(is_valid_data(sample, "float").unwrap_err(), err.to_string())
            }
        }
    }
}

#[test]
fn truth_values_go_by_the_lowered_text() {
    assert_eq!(is_bool_text("1", "1"), true);
    assert_eq!(is_bool_text("TRUE", "true"), true);
    assert_eq!(is_bool_text("TRUE", "TRUE"), false);
    assert_eq!(is_bool_text("2", "2"), false);
    assert_eq!(verdict(None), Ok(()));
    assert_eq!(verdict(Some("why".to_string())), Err("why".to_string()));
}

#[test]
fn text_is_told_from_other_bytes() {
    let mut text: &[u8] = "h\u{e9}llo".as_bytes();
    assert_eq!(is_string(&mut text), true);
    assert_eq!(text.len(), 0);
    let bytes = [0x66u8, 0xff, 0x67];
    let mut other: &[u8] = &bytes;
    assert_eq!(is_string(&mut other), false);
    assert_eq!(other.len(), 3);
}

#[test]
fn a_row_comes_back_from_its_bytes() {
    let mut row = Row::new();
    row.set_value("h\u{e9}llo \u{1f600}".to_string());
    row.set_type("string".to_string());
    let bytes = row.encode();
    assert_eq!(bytes.len(), 9 + 11 + 9 + 6);
    assert_eq!(bytes[0], 1);
    assert_eq!(&bytes[1..9], &[11, 0, 0, 0, 0, 0, 0, 0]);
    assert_eq!(bytes[20], 2);
    let back = Row::decode(&bytes).unwrap();
    assert_eq!(back.value(), "h\u{e9}llo \u{1f600}");
    assert_eq!(back.type_(), "string");
    let empty = Row::decode(&[]).unwrap();
    assert_eq!(empty.value(), "");
    assert_eq!(empty.type_(), "");
}

#[test]
fn bytes_that_are_no_record_are_refused() {
    assert!(Row::decode(&[1, 0, 0]).is_none());
    assert!(Row::decode(&[3, 0, 0, 0, 0, 0, 0, 0, 0]).is_none());
    assert!(Row::decode(&[1, 2, 0, 0, 0, 0, 0, 0, 0, b'a']).is_none());
    assert!(Row::decode(&[1, 1, 0, 0, 0, 0, 0, 0, 0, 0xff]).is_none());
    assert!(Row::decode(&[1, 255, 255, 255, 255, 255, 255, 255, 255, b'a']).is_none());
    let only_type = Row::decode(&[2, 1, 0, 0, 0, 0, 0, 0, 0, b'x']).unwrap();
    assert_eq!(only_type.value(), "");
    assert_eq!(only_type.type_(), "x");
}

#[test]
fn a_later_record_overrides_an_earlier_one() {
    let mut first = Row::new();
    first.set_value("1".to_string());
    first.set_type("int".to_string());
    let mut second = first.clone();
    second.set_value("two".to_string());
    let mut bytes = first.encode();
    bytes.extend_from_slice(&second.encode());
    let back = Row::decode(&bytes).unwrap();
    assert_eq!(back.value(), "two");
    assert_eq!(back.type_(), "int");
}

#[test]
fn integers_are_an_optional_sign_and_digits_within_the_type() {
    let signed = [
        ("0", true),
        ("+5", true),
        ("-5", true),
        ("-0", true),
        ("0005", true),
        ("9223372036854775807", true),
        ("9223372036854775808", false),
        ("-9223372036854775808", true),
        ("-9223372036854775809", false),
        ("00000000000000000000000000000007", true),
        ("", false),
        ("+", false),
        ("-", false),
        ("--5", false),
        ("+-5", false),
        ("5 ", false),
        (" 5", false),
        ("5_000", false),
        ("5.0", false),
        ("٥", false),
    ];
    for (text, valid) in signed {
        assert_eq!(is_valid_data(text, "int").is_ok(), valid, "int {:?}", text);
        assert_eq!(text.parse::<i64>().is_ok(), valid, "i64 {:?}", text);
    }
    let unsigned = [
        ("0", true),
        ("+5", true),
        ("-5", false),
        ("-0", false),
        ("0005", true),
        ("18446744073709551615", true),
        ("18446744073709551616", false),
        ("", false),
        ("+", false),
        ("-", false),
        ("++5", false),
        ("5 ", false),
        ("٥", false),
    ];
    for (text, valid) in unsigned {
        assert_eq!(is_valid_data(text, "uint").is_ok(), valid, "uint {:?}", text);
        assert_eq!(is_valid_data(text, "timestamp").is_ok(), valid, "timestamp {:?}", text);
    }
}
