//! Type tags of rows and the check of a value against its tag.

pub mod strings;

use crate::text::{chars_of, same};
use vstd::prelude::*;

verus! {

/// What parsing `data` as a signed 64-bit integer complains of, if
/// anything.
pub uninterp spec fn int_fault(data: Seq<char>) -> Option<Seq<char>>;

/// What parsing `data` as an unsigned 64-bit integer complains of, if
/// anything.
pub uninterp spec fn uint_fault(data: Seq<char>) -> Option<Seq<char>>;

/// What parsing `data` as a date and time of the form
/// `%Y-%m-%d %H:%M:%S` complains of, if anything.
pub uninterp spec fn date_fault(data: Seq<char>) -> Option<Seq<char>>;

/// What parsing `data` as JSON complains of, if anything.
pub uninterp spec fn json_fault(data: Seq<char>) -> Option<Seq<char>>;

/// `data` in lower case.
pub uninterp spec fn lowered(data: Seq<char>) -> Seq<char>;

/// The text of an optional string.
pub open spec fn fault_text(fault: Option<String>) -> Option<Seq<char>> {
    match fault {
        Some(text) => Some(text@),
        None => None,
    }
}

/// The number that a run of digits stands for.
pub open spec fn digits_value(s: Seq<char>) -> nat
    decreases s.len(),
{
    if s.len() == 0 {
        0
    } else {
        digits_value(s.drop_last()) * 10 + (s.last() as nat - '0' as nat) as nat
    }
}

/// Whether `s` is one digit or more and nothing else.
pub open spec fn all_digits(s: Seq<char>) -> bool {
    s.len() > 0 && digits(s) == s.len()
}

/// Whether `s` is written as a signed 64-bit integer: an optional sign,
/// then digits only, and the number is one that the type holds.
pub open spec fn is_int_text(s: Seq<char>) -> bool {
    &&& all_digits(unsigned(s))
    &&& if s[0] == '-' {
        digits_value(unsigned(s)) <= 0x8000_0000_0000_0000
    } else {
        digits_value(unsigned(s)) <= 0x7fff_ffff_ffff_ffff
    }
}

/// Whether `s` is written as an unsigned 64-bit integer: an optional plus
/// sign, then digits only, and the number is one that the type holds.
pub open spec fn is_uint_text(s: Seq<char>) -> bool {
    &&& s.len() > 0
    &&& s[0] != '-'
    &&& all_digits(unsigned(s))
    &&& digits_value(unsigned(s)) <= 0xffff_ffff_ffff_ffff
}

/// Calls `str::parse` for an `i64`: `None` if `data` is such a number,
/// that is an optional sign and digits that stay within the type; else
/// the message of the error.
#[verifier::external_body]
fn parse_int(data: &str) -> (fault: Option<String>)
    ensures
        fault_text(fault) == int_fault(data@),
        fault is None <==> is_int_text(data@),
{
    match data.parse::<i64>() {
        Ok(_) => None,
        Err(err) => Some(err.to_string()),
    }
}

/// Calls `str::parse` for a `u64`: `None` if `data` is such a number, that
/// is an optional plus sign and digits that stay within the type; else the
/// message of the error.
#[verifier::external_body]
fn parse_uint(data: &str) -> (fault: Option<String>)
    ensures
        fault_text(fault) == uint_fault(data@),
        fault is None <==> is_uint_text(data@),
{
    match data.parse::<u64>() {
        Ok(_) => None,
        Err(err) => Some(err.to_string()),
    }
}

/// Calls `chrono::NaiveDateTime::parse_from_str` with the format
/// `%Y-%m-%d %H:%M:%S`: `None` if `data` is such a date and time, else the
/// message of the error. Which it is depends on the text alone.
#[verifier::external_body]
fn parse_date(data: &str) -> (fault: Option<String>)
    ensures
        fault_text(fault) == date_fault(data@),
{
    match chrono::NaiveDateTime::parse_from_str(data, "%Y-%m-%d %H:%M:%S") {
        Ok(_) => None,
        Err(err) => Some(err.to_string()),
    }
}

/// Calls `serde_json::from_str` for a `serde_json::Value`: `None` if
/// `data` is JSON, else the message of the error. Which it is depends on
/// the text alone.
#[verifier::external_body]
fn parse_json(data: &str) -> (fault: Option<String>)
    ensures
        fault_text(fault) == json_fault(data@),
{
    match serde_json::from_str::<serde_json::Value>(data) {
        Ok(_) => None,
        Err(err) => Some(err.to_string()),
    }
}

/// Calls `str::to_lowercase`. The result is a function of the text alone.
#[verifier::external_body]
fn lower_case(data: &str) -> (low: String)
    ensures
        low@ == lowered(data@),
{
    data.to_lowercase()
}

/// Whether `c` is one of the digits `0` to `9`.
pub open spec fn is_digit(c: char) -> bool {
    '0' <= c <= '9'
}

/// Whether `c` is a plus or a minus sign.
pub open spec fn is_sign(c: char) -> bool {
    c == '+' || c == '-'
}

/// Length of the run of digits that `s` starts with.
pub open spec fn digits(s: Seq<char>) -> nat
    decreases s.len(),
{
    if s.len() > 0 && is_digit(s[0]) {
        1 + digits(s.drop_first())
    } else {
        0
    }
}

/// `s` without its sign, if it starts with one.
pub open spec fn unsigned(s: Seq<char>) -> Seq<char> {
    if s.len() > 0 && is_sign(s[0]) {
        s.drop_first()
    } else {
        s
    }
}

/// Whether `s` is `low` but for the case of its letters; `up` is `low` in
/// capitals.
pub open spec fn is_word(s: Seq<char>, low: Seq<char>, up: Seq<char>) -> bool {
    &&& s.len() == low.len()
    &&& forall|i: int| 0 <= i < s.len() ==> s[i] == low[i] || s[i] == up[i]
}

/// Whether `s` is an exponent: `e` or `E`, an optional sign, and one digit
/// or more.
pub open spec fn is_exponent(s: Seq<char>) -> bool {
    &&& s.len() > 0
    &&& s[0] == 'e' || s[0] == 'E'
    &&& unsigned(s.drop_first()).len() > 0
    &&& digits(unsigned(s.drop_first())) == unsigned(s.drop_first()).len()
}

/// Whether `s` is a decimal number: digits with at most one point among
/// them, at least one digit in all, and an optional exponent.
pub open spec fn is_number(s: Seq<char>) -> bool {
    let whole = digits(s);
    let rest = s.skip(whole as int);
    if rest.len() > 0 && rest[0] == '.' {
        let frac = digits(rest.drop_first());
        let tail = rest.drop_first().skip(frac as int);
        whole + frac > 0 && (tail.len() == 0 || is_exponent(tail))
    } else {
        whole > 0 && (rest.len() == 0 || is_exponent(rest))
    }
}

/// Whether `s` is written as a floating-point number: an optional sign,
/// then `inf`, `infinity` or `nan` in any case, or a decimal number.
pub open spec fn is_float_text(s: Seq<char>) -> bool {
    let body = unsigned(s);
    ||| is_word(body, "inf"@, "INF"@)
    ||| is_word(body, "infinity"@, "INFINITY"@)
    ||| is_word(body, "nan"@, "NAN"@)
    ||| is_number(body)
}

/// What is wrong with `data` as a floating-point number, if anything.
pub open spec fn float_fault(data: Seq<char>) -> Option<Seq<char>> {
    if data.len() == 0 {
        Some("cannot parse float from empty string"@)
    } else if is_float_text(data) {
        None
    } else {
        Some("invalid float literal"@)
    }
}

/// The end of the run of digits that starts at `from`.
fn digit_run(chars: &Vec<char>, from: usize) -> (to: usize)
    requires
        from <= chars.len(),
    ensures
        to == from + digits(chars@.skip(from as int)),
        from <= to <= chars.len(),
{
    let mut to = from;
    while to < chars.len() && '0' <= chars[to] && chars[to] <= '9'
        invariant
            from <= to <= chars.len(),
            from + digits(chars@.skip(from as int)) == to + digits(chars@.skip(to as int)),
        decreases chars.len() - to,
    {
        proof {
            assert(chars@.skip(to as int)[0] == chars@[to as int]);
            assert(chars@.skip(to as int).drop_first() == chars@.skip(to as int + 1));
        }
        to += 1;
    }
    proof {
        if to < chars.len() {
            assert(chars@.skip(to as int)[0] == chars@[to as int]);
        }
    }
    to
}

/// Whether `chars` from `from` on is `low` but for the case of its
/// letters.
fn word_at(chars: &Vec<char>, from: usize, low: &str, up: &str) -> (r: bool)
    requires
        from <= chars.len(),
        low@.len() == up@.len(),
    ensures
        r == is_word(chars@.skip(from as int), low@, up@),
{
    let ghost s = chars@.skip(from as int);
    let small = chars_of(low);
    let large = chars_of(up);
    if chars.len() - from != small.len() {
        return false;
    }
    let mut i: usize = 0;
    while i < small.len()
        invariant
            i <= small.len(),
            small@ == low@,
            large@ == up@,
            small.len() == large.len(),
            from + small.len() == chars.len(),
            s == chars@.skip(from as int),
            forall|j: int| 0 <= j < i ==> s[j] == small@[j] || s[j] == large@[j],
        decreases small.len() - i,
    {
        let c = chars[from + i];
        assert(s[i as int] == c);
        if c != small[i] && c != large[i] {
            return false;
        }
        i += 1;
    }
    true
}

/// Whether `chars` from `from` on is an exponent.
fn exponent_at(chars: &Vec<char>, from: usize) -> (r: bool)
    requires
        from <= chars.len(),
    ensures
        r == is_exponent(chars@.skip(from as int)),
{
    let ghost s = chars@.skip(from as int);
    if from >= chars.len() {
        return false;
    }
    assert(s[0] == chars@[from as int]);
    if chars[from] != 'e' && chars[from] != 'E' {
        return false;
    }
    let mut at = from + 1;
    proof {
        assert(s.drop_first() == chars@.skip(at as int));
        if at < chars.len() {
            assert(chars@.skip(at as int)[0] == chars@[at as int]);
            assert(chars@.skip(at as int).drop_first() == chars@.skip(at as int + 1));
        }
    }
    if at < chars.len() && (chars[at] == '+' || chars[at] == '-') {
        at += 1;
    }
    let end = digit_run(chars, at);
    at < chars.len() && end == chars.len()
}

/// Whether `chars` from `from` on is a decimal number.
fn number_at(chars: &Vec<char>, from: usize) -> (r: bool)
    requires
        from <= chars.len(),
    ensures
        r == is_number(chars@.skip(from as int)),
{
    let ghost s = chars@.skip(from as int);
    let whole_end = digit_run(chars, from);
    proof {
        assert(s.skip(whole_end - from) == chars@.skip(whole_end as int));
        if whole_end < chars.len() {
            assert(chars@.skip(whole_end as int)[0] == chars@[whole_end as int]);
            assert(chars@.skip(whole_end as int).drop_first() == chars@.skip(whole_end + 1));
        }
    }
    if whole_end < chars.len() && chars[whole_end] == '.' {
        let frac_end = digit_run(chars, whole_end + 1);
        proof {
            assert(chars@.skip(whole_end + 1).skip(frac_end - whole_end - 1) == chars@.skip(
                frac_end as int,
            ));
        }
        let count = (whole_end - from) + (frac_end - whole_end - 1);
        count > 0 && (frac_end == chars.len() || exponent_at(chars, frac_end))
    } else {
        whole_end > from && (whole_end == chars.len() || exponent_at(chars, whole_end))
    }
}

/// Whether `data` is written as a floating-point number.
pub fn is_float(data: &str) -> (r: bool)
    ensures
        r == is_float_text(data@),
{
    let chars = chars_of(data);
    let mut from: usize = 0;
    proof {
        assert(chars@.skip(0) == chars@);
        if chars@.len() > 0 {
            assert(chars@.drop_first() == chars@.skip(1));
        }
        reveal_strlit("inf");
        reveal_strlit("INF");
        reveal_strlit("infinity");
        reveal_strlit("INFINITY");
        reveal_strlit("nan");
        reveal_strlit("NAN");
    }
    if chars.len() > 0 && (chars[0] == '+' || chars[0] == '-') {
        from = 1;
    }
    word_at(&chars, from, "inf", "INF") || word_at(&chars, from, "infinity", "INFINITY") || word_at(
        &chars,
        from,
        "nan",
        "NAN",
    ) || number_at(&chars, from)
}

/// Whether `data` is written as a truth value: `1`, `0`, or `true` or
/// `false` once in lower case. `low` is `data` in lower case.
pub fn is_bool_text(data: &str, low: &str) -> (r: bool)
    ensures
        r == (data@ == "1"@ || data@ == "0"@ || low@ == "false"@ || low@ == "true"@),
{
    same(data, "1") || same(data, "0") || same(low, "false") || same(low, "true")
}

/// What is wrong with `data` as a value of the type `data_type`, if
/// anything.
pub open spec fn fault_of(data: Seq<char>, data_type: Seq<char>) -> Option<Seq<char>> {
    if data_type == "string"@ {
        None
    } else if data_type == "int"@ {
        int_fault(data)
    } else if data_type == "uint"@ {
        uint_fault(data)
    } else if data_type == "float"@ {
        float_fault(data)
    } else if data_type == "bool"@ {
        if data == "1"@ || data == "0"@ || lowered(data) == "false"@ || lowered(data) == "true"@ {
            None
        } else {
            Some("not a boolean value"@)
        }
    } else if data_type == "date"@ {
        date_fault(data)
    } else if data_type == "timestamp"@ {
        uint_fault(data)
    } else if data_type == "json"@ {
        json_fault(data)
    } else {
        Some("provided invalid type"@)
    }
}

/// The verdict that goes with a fault: none is `Ok`, one is its message.
pub fn verdict(fault: Option<String>) -> (r: Result<(), String>)
    ensures
        match r {
            Ok(_) => fault is None,
            Err(why) => fault is Some && why@ == fault->0@,
        },
{
    match fault {
        None => Ok(()),
        Some(why) => Err(why),
    }
}

/// Checks a value against a type tag. The tags are `string`, `int`,
/// `uint`, `float`, `bool`, `date`, `timestamp` and `json`; any other tag
/// is refused.
pub fn is_valid_data(data: &str, data_type: &str) -> (r: Result<(), String>)
    ensures
        match r {
            Ok(_) => fault_of(data@, data_type@) is None,
            Err(why) => fault_of(data@, data_type@) == Some(why@),
        },
        data_type@ == "int"@ ==> (r is Ok <==> is_int_text(data@)),
        data_type@ == "uint"@ || data_type@ == "timestamp"@ ==> (r is Ok <==> is_uint_text(data@)),
        data_type@ == "float"@ ==> (r is Ok <==> is_float_text(data@)),
{
    proof {
        reveal_strlit("string");
        reveal_strlit("int");
        reveal_strlit("uint");
        reveal_strlit("float");
        reveal_strlit("bool");
        reveal_strlit("date");
        reveal_strlit("timestamp");
        reveal_strlit("json");
        assert("string"@.len() == 6 && "int"@.len() == 3 && "uint"@.len() == 4);
        assert("float"@.len() == 5 && "timestamp"@.len() == 9);
        assert("bool"@[0] != "uint"@[0]);
        assert("date"@[0] != "uint"@[0]);
        assert("json"@[0] != "uint"@[0]);
        assert(!is_float_text(Seq::empty())) by {
            reveal_strlit("inf");
            reveal_strlit("infinity");
            reveal_strlit("nan");
            let none = Seq::<char>::empty();
            assert(unsigned(none) == none);
            assert(digits(none) == 0);
            assert(none.skip(0) == none);
        }
    }
    if same(data_type, "string") {
        Ok(())
    } else if same(data_type, "int") {
        verdict(parse_int(data))
    } else if same(data_type, "uint") {
        verdict(parse_uint(data))
    } else if same(data_type, "float") {
        if data.as_bytes().len() == 0 {
            assert(data@.len() == 0) by {
                broadcast use vstd::utf8::encode_utf8_decode_utf8;

                assert(vstd::utf8::decode_utf8(vstd::utf8::encode_utf8(data@)) == data@);
                assert(vstd::utf8::encode_utf8(data@) == Seq::<u8>::empty());
            }
            Err("cannot parse float from empty string".to_string())
        } else if is_float(data) {
            Ok(())
        } else {
            assert(data@.len() > 0) by {
                if data@.len() == 0 {
                    assert(data@ == Seq::<char>::empty());
                    assert(vstd::utf8::encode_utf8(data@).len() == 0);
                }
            }
            Err("invalid float literal".to_string())
        }
    } else if same(data_type, "bool") {
        let low = lower_case(data);
        if is_bool_text(data, low.as_str()) {
            Ok(())
        } else {
            Err("not a boolean value".to_string())
        }
    } else if same(data_type, "date") {
        verdict(parse_date(data))
    } else if same(data_type, "timestamp") {
        verdict(parse_uint(data))
    } else if same(data_type, "json") {
        verdict(parse_json(data))
    } else {
        Err("provided invalid type".to_string())
    }
}

} // verus!
