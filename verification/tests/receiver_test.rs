use rdb::http::message_for;
use rdb::http::receiver::{deserialize, get_header, Framer};
use rdb::text::trim;

fn framed(header: &str, body: &[u8]) -> Vec<u8> {
    let mut stream = vec![1u8];
    stream.extend_from_slice(header.as_bytes());
    stream.push(23);
    stream.push(2);
    stream.extend_from_slice(body);
    stream.push(23);
    stream
}

#[test]
fn one_header_section_and_one_body_section() {
    let header = "req: add_row\nrud: X\ndb: d\ntable: t\nkey: k\ntype: string";
    let stream = framed(header, b"hello");
    let (head, body) = deserialize(&stream, "client").unwrap();
    assert_eq!(body, "hello");
    let (req, fields) = get_header(head);
    assert_eq!(req, "add_row");
    assert_eq!(fields.rud, "X");
    assert_eq!(fields.db, "d");
    assert_eq!(fields.table, "t");
    assert_eq!(fields.key, "k");
    assert_eq!(fields._type, "string");
}

#[test]
fn a_stream_that_ends_early_names_the_connection() {
    let mut stream = framed("req: get_row", b"x");
    stream.pop();
    assert_eq!(deserialize(&stream, "client-7").unwrap_err(), "client-7");
    assert_eq!(deserialize(&[], "c").unwrap_err(), "c");
}

#[test]
fn the_body_is_trimmed_and_bad_bytes_are_replaced() {
    let stream = framed("a", b" \n hi there\t\r\n");
    let (head, body) = deserialize(&stream, "c").unwrap();
    assert_eq!(head, "a");
    assert_eq!(body, "hi there");
    let stream = framed("h\u{e9}", &[0x61, 0xff, 0x62]);
    let (head, body) = deserialize(&stream, "c").unwrap();
    assert_eq!(head, "h\u{e9}");
    assert_eq!(body, "a\u{fffd}b");
    let stream = framed("", "\u{3000}x\u{2003}".as_bytes());
    assert_eq!(deserialize(&stream, "c").unwrap().1, "x");
}

#[test]
fn bytes_outside_a_section_are_dropped_and_later_bytes_are_not_read() {
    let mut stream = vec![7u8, 8];
    stream.extend_from_slice(&framed("head", b"body"));
    stream.extend_from_slice(&framed("next", b"more"));
    let (head, body) = deserialize(&stream, "c").unwrap();
    assert_eq!(head, "head");
    assert_eq!(body, "body");
}

#[test]
fn closing_without_an_open_section_counts_too() {
    let stream = [23u8, 23];
    let (head, body) = deserialize(&stream, "c").unwrap();
    assert_eq!(head, "");
    assert_eq!(body, "");
    let stream = [1u8, 2, b'x', 23, b'y', 23];
    let (head, body) = deserialize(&stream, "c").unwrap();
    assert_eq!(head, "x");
    assert_eq!(body, "xy");
}

#[test]
fn the_framer_takes_one_byte_at_a_time() {
    let mut framer = Framer::new();
    assert_eq!(framer.is_complete(), false);
    for byte in framed("req: get_row", b"  b  ") {
        assert_eq!(framer.is_complete(), false);
        framer.push(byte);
    }
    assert_eq!(framer.is_complete(), true);
    framer.push(b'z');
    let (head, body) = framer.into_parts();
    assert_eq!(head, "req: get_row");
    assert_eq!(body, "b");
}

#[test]
fn header_lines_without_a_value_or_with_an_unknown_name_are_passed_over() {
    let (req, fields) =
        get_header("req:\nrud: 1 2\nfoo: bar\n\ndb: \ntable: t\nkey".to_string());
    assert_eq!(req, "");
    assert_eq!(fields.rud, "1");
    assert_eq!(fields.db, "");
    assert_eq!(fields.table, "t");
    assert_eq!(fields.key, "");
    assert_eq!(fields._type, "");
}

#[test]
fn header_lines_are_split_at_any_white_space() {
    let (req, fields) = get_header(
        "  req:   get_row\r\nrud:\tX\r\n\tdb:  d \ntable:\u{a0}t\nkey:k\ntype: a\u{3000}b".to_string(),
    );
    assert_eq!(req, "get_row");
    assert_eq!(fields.rud, "X");
    assert_eq!(fields.db, "d");
    assert_eq!(fields.table, "t");
    assert_eq!(fields.key, "");
    assert_eq!(fields._type, "a");
}

#[test]
fn a_later_header_line_overrides_an_earlier_one() {
    let (req, fields) = get_header("req: a\nreq: b\nkey: 1\nkey: 2\n".to_string());
    assert_eq!(req, "b");
    assert_eq!(fields.key, "2");
    let (req, _) = get_header(String::new());
    assert_eq!(req, "");
}

#[test]
fn a_reply_carries_the_correlation_id() {
    assert_eq!(message_for("X", "hello"), "rud: X\nhello");
}

#[test]
fn the_body_loses_every_kind_of_white_space_at_its_ends() {
    let white: Vec<char> = vec![
        '\u{9}', '\u{a}', '\u{b}', '\u{c}', '\u{d}', '\u{20}', '\u{85}', '\u{a0}', '\u{1680}',
        '\u{2000}', '\u{2001}', '\u{2002}', '\u{2003}', '\u{2004}', '\u{2005}', '\u{2006}',
        '\u{2007}', '\u{2008}', '\u{2009}', '\u{200a}', '\u{2028}', '\u{2029}', '\u{202f}',
        '\u{205f}', '\u{3000}',
    ];
    let mut code: u32 = 0;
    while code <= 0x10ffff {
        if let Some(c) = char::from_u32(code) {
            assert_eq!(c.is_whitespace(), white.contains(&c), "code point {:x}", code);
        }
        code += 1;
    }
    let ends: String = white.iter().collect();
    let text = format!("{}in the\u{a0}middle{}", ends, ends);
    let stream = framed("", text.as_bytes());
    assert_eq!(deserialize(&stream, "c").unwrap().1, "in the\u{a0}middle");
    let stream = framed("", "\u{200b}x\u{feff}".as_bytes());
    assert_eq!(deserialize(&stream, "c").unwrap().1, "\u{200b}x\u{feff}");
}

#[test]
fn trimming_strips_both_ends_and_nothing_else() {
    let samples = [
        "",
        " ",
        "\t\n\r ",
        "x",
        " x",
        "x ",
        "  a b  ",
        "\u{3000}a\u{a0}b\u{2028}",
        "\u{200b} x \u{200b}",
        "\n\n line one\nline two \n",
        "\u{85}\u{1680}h\u{e9}llo\u{205f}\u{202f}",
    ];
    for sample in samples {
        assert_eq!(trim(sample), sample.trim(), "sample {:?}", sample);
    }
}
