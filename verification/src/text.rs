//! Small helpers on strings and bytes that the rest of the store shares.

use vstd::prelude::*;
use vstd::string::*;
use vstd::utf8::*;

verus! {

/// The text that lossy UTF-8 decoding yields for a byte sequence.
pub uninterp spec fn lossy_text(bytes: Seq<u8>) -> Seq<char>;

/// Code points with the Unicode property `White_Space`.
pub open spec fn is_white_space(c: char) -> bool {
    let u = c as u32;
    ||| 0x09 <= u <= 0x0D
    ||| u == 0x20
    ||| u == 0x85
    ||| u == 0xA0
    ||| u == 0x1680
    ||| 0x2000 <= u <= 0x200A
    ||| u == 0x2028
    ||| u == 0x2029
    ||| u == 0x202F
    ||| u == 0x205F
    ||| u == 0x3000
}

/// `s` without its leading white space.
pub open spec fn trim_start(s: Seq<char>) -> Seq<char>
    decreases s.len(),
{
    if s.len() > 0 && is_white_space(s[0]) {
        trim_start(s.drop_first())
    } else {
        s
    }
}

/// `s` without its trailing white space.
pub open spec fn trim_end(s: Seq<char>) -> Seq<char>
    decreases s.len(),
{
    if s.len() > 0 && is_white_space(s.last()) {
        trim_end(s.drop_last())
    } else {
        s
    }
}

/// `s` without leading and trailing white space.
pub open spec fn trimmed(s: Seq<char>) -> Seq<char> {
    trim_end(trim_start(s))
}

/// Calls `String::from_utf8_lossy`. The result is a function of the bytes
/// alone; for well-formed UTF-8 it is the text the bytes encode.
#[verifier::external_body]
pub(crate) fn utf8_lossy(bytes: &[u8]) -> (text: String)
    ensures
        text@ == lossy_text(bytes@),
        valid_utf8(bytes@) ==> text@ == decode_utf8(bytes@),
{
    String::from_utf8_lossy(bytes).into_owned()
}

/// Whether two strings hold the same text.
pub fn same(a: &str, b: &str) -> (r: bool)
    ensures
        r == (a@ == b@),
{
    broadcast use encode_utf8_decode_utf8, encode_utf8_valid_utf8;

    let x = a.as_bytes();
    let y = b.as_bytes();
    if x.len() != y.len() {
        return false;
    }
    let mut i: usize = 0;
    while i < x.len()
        invariant
            i <= x.len(),
            x.len() == y.len(),
            x@ == encode_utf8(a@),
            y@ == encode_utf8(b@),
            x@.take(i as int) == y@.take(i as int),
        decreases x.len() - i,
    {
        if x[i] != y[i] {
            return false;
        }
        proof {
            assert(x@.take(i + 1) == x@.take(i as int).push(x@[i as int]));
            assert(y@.take(i + 1) == y@.take(i as int).push(y@[i as int]));
        }
        i += 1;
    }
    proof {
        assert(x@ == x@.take(i as int));
        assert(y@ == y@.take(i as int));
        assert(decode_utf8(encode_utf8(a@)) == decode_utf8(encode_utf8(b@)));
    }
    true
}

/// `a` followed by `b`.
pub fn join(a: &str, b: &str) -> (r: String)
    ensures
        r@ == a@ + b@,
{
    let mut s = a.to_string();
    s.append(b);
    s
}

/// Index of the first `sep` in `s`, or the length of `s` if there is none.
pub open spec fn find(s: Seq<char>, sep: char) -> nat
    decreases s.len(),
{
    if s.len() == 0 || s[0] == sep {
        0
    } else {
        1 + find(s.drop_first(), sep)
    }
}

/// `find` stays within the sequence, stops on a separator and passes none.
pub proof fn lemma_find(s: Seq<char>, sep: char)
    ensures
        find(s, sep) <= s.len(),
        find(s, sep) < s.len() ==> s[find(s, sep) as int] == sep,
        forall|i: int| 0 <= i < find(s, sep) ==> s[i] != sep,
    decreases s.len(),
{
    if s.len() != 0 && s[0] != sep {
        let rest = s.drop_first();
        lemma_find(rest, sep);
        assert forall|i: int| 0 <= i < find(s, sep) implies s[i] != sep by {
            if i > 0 {
                assert(s[i] == rest[i - 1]);
            }
        }
    }
}

/// The first position at or after `from` where `chars` holds `sep`, or the
/// length of `chars` if there is none.
pub fn find_from(chars: &Vec<char>, from: usize, sep: char) -> (at: usize)
    requires
        from <= chars.len(),
    ensures
        at == from + find(chars@.skip(from as int), sep),
        from <= at <= chars.len(),
{
    let mut at = from;
    while at < chars.len() && chars[at] != sep
        invariant
            from <= at <= chars.len(),
            from + find(chars@.skip(from as int), sep) == at + find(chars@.skip(at as int), sep),
        decreases chars.len() - at,
    {
        proof {
            let here = chars@.skip(at as int);
            assert(here[0] == chars@[at as int]);
            assert(here.drop_first() == chars@.skip(at as int + 1));
        }
        at += 1;
    }
    proof {
        let here = chars@.skip(at as int);
        if at < chars.len() {
            assert(here[0] == chars@[at as int]);
        }
    }
    at
}

/// Whether `c` has the Unicode property `White_Space`.
pub fn is_white(c: char) -> (r: bool)
    ensures
        r == is_white_space(c),
{
    let u = c as u32;
    (0x09 <= u && u <= 0x0D) || u == 0x20 || u == 0x85 || u == 0xA0 || u == 0x1680 || (0x2000 <= u
        && u <= 0x200A) || u == 0x2028 || u == 0x2029 || u == 0x202F || u == 0x205F || u == 0x3000
}

/// Length of the run of white space that `s` starts with.
pub open spec fn white_run(s: Seq<char>) -> nat
    decreases s.len(),
{
    if s.len() > 0 && is_white_space(s[0]) {
        1 + white_run(s.drop_first())
    } else {
        0
    }
}

/// Length of the token that `s` starts with: the run of characters that
/// are not white space.
pub open spec fn token_run(s: Seq<char>) -> nat
    decreases s.len(),
{
    if s.len() > 0 && !is_white_space(s[0]) {
        1 + token_run(s.drop_first())
    } else {
        0
    }
}

/// The end of the run of white space that starts at `from` in
/// `chars[from..to]`.
pub fn skip_white(chars: &Vec<char>, from: usize, to: usize) -> (at: usize)
    requires
        from <= to <= chars.len(),
    ensures
        at == from + white_run(chars@.subrange(from as int, to as int)),
        from <= at <= to,
{
    let mut at = from;
    while at < to && is_white(chars[at])
        invariant
            from <= at <= to <= chars.len(),
            from + white_run(chars@.subrange(from as int, to as int)) == at + white_run(
                chars@.subrange(at as int, to as int),
            ),
        decreases to - at,
    {
        proof {
            let here = chars@.subrange(at as int, to as int);
            assert(here[0] == chars@[at as int]);
            assert(here.drop_first() == chars@.subrange(at as int + 1, to as int));
        }
        at += 1;
    }
    proof {
        let here = chars@.subrange(at as int, to as int);
        if at < to {
            assert(here[0] == chars@[at as int]);
        }
    }
    at
}

/// The end of the token that starts at `from` in `chars[from..to]`.
pub fn skip_token(chars: &Vec<char>, from: usize, to: usize) -> (at: usize)
    requires
        from <= to <= chars.len(),
    ensures
        at == from + token_run(chars@.subrange(from as int, to as int)),
        from <= at <= to,
{
    let mut at = from;
    while at < to && !is_white(chars[at])
        invariant
            from <= at <= to <= chars.len(),
            from + token_run(chars@.subrange(from as int, to as int)) == at + token_run(
                chars@.subrange(at as int, to as int),
            ),
        decreases to - at,
    {
        proof {
            let here = chars@.subrange(at as int, to as int);
            assert(here[0] == chars@[at as int]);
            assert(here.drop_first() == chars@.subrange(at as int + 1, to as int));
        }
        at += 1;
    }
    proof {
        let here = chars@.subrange(at as int, to as int);
        if at < to {
            assert(here[0] == chars@[at as int]);
        }
    }
    at
}

/// The text of `s` between two character positions.
pub fn slice_of(s: &str, from: usize, to: usize) -> (r: String)
    requires
        from <= to <= s@.len(),
    ensures
        r@ == s@.subrange(from as int, to as int),
{
    s.substring_char(from, to).to_string()
}

/// The characters of `s`, one by one.
pub fn chars_of(s: &str) -> (v: Vec<char>)
    ensures
        v@ == s@,
{
    let mut v: Vec<char> = Vec::new();
    for c in it: s.chars()
        invariant
            v@ == it.seq().take(it.index() as int),
    {
        v.push(c);
    }
    v
}

/// Leading white space is a run: what is left starts behind it.
pub proof fn lemma_trim_start(s: Seq<char>)
    ensures
        white_run(s) <= s.len(),
        trim_start(s) == s.skip(white_run(s) as int),
    decreases s.len(),
{
    if s.len() > 0 && is_white_space(s[0]) {
        lemma_trim_start(s.drop_first());
        assert(s.drop_first().skip(white_run(s.drop_first()) as int) == s.skip(
            white_run(s) as int,
        ));
    } else {
        assert(s.skip(0) == s);
    }
}

/// `s` without the white space at both ends: the characters that have the
/// Unicode property `White_Space`.
pub fn trim(s: &str) -> (text: String)
    ensures
        text@ == trimmed(s@),
{
    let chars = chars_of(s);
    let n = chars.len();
    let start = skip_white(&chars, 0, n);
    proof {
        assert(chars@.subrange(0, n as int) == s@);
        lemma_trim_start(s@);
        assert(s@.skip(start as int) == chars@.subrange(start as int, n as int));
    }
    let mut end = n;
    while end > start && is_white(chars[end - 1])
        invariant
            start <= end <= n,
            n == chars.len(),
            trim_end(chars@.subrange(start as int, n as int)) == trim_end(
                chars@.subrange(start as int, end as int),
            ),
        decreases end,
    {
        proof {
            let here = chars@.subrange(start as int, end as int);
            assert(here.last() == chars@[end - 1]);
            assert(here.drop_last() == chars@.subrange(start as int, end - 1));
        }
        end -= 1;
    }
    proof {
        let here = chars@.subrange(start as int, end as int);
        if end > start {
            assert(here.last() == chars@[end - 1]);
        }
        assert(trim_end(here) == here);
        assert(here == s@.subrange(start as int, end as int));
    }
    slice_of(s, start, end)
}

/// Whether `pat` stands in `s` at position `i`.
pub open spec fn starts_at(s: Seq<char>, pat: Seq<char>, i: int) -> bool {
    0 <= i && i + pat.len() <= s.len() && s.subrange(i, i + pat.len()) == pat
}

/// Position of the first occurrence of `pat` in `s`, or the length of `s`
/// if there is none.
pub open spec fn find_text(s: Seq<char>, pat: Seq<char>) -> nat
    decreases s.len(),
{
    if s.len() == 0 || starts_at(s, pat, 0) {
        0
    } else {
        1 + find_text(s.drop_first(), pat)
    }
}

/// Whether `pat` stands in `chars` at position `at`.
fn matches_at(chars: &Vec<char>, at: usize, pat: &Vec<char>) -> (r: bool)
    requires
        at <= chars.len(),
    ensures
        r == starts_at(chars@.skip(at as int), pat@, 0),
{
    let ghost here = chars@.skip(at as int);
    if pat.len() > chars.len() - at {
        return false;
    }
    let mut i: usize = 0;
    while i < pat.len()
        invariant
            i <= pat.len(),
            at + pat.len() <= chars.len(),
            here == chars@.skip(at as int),
            here.subrange(0, i as int) == pat@.take(i as int),
        decreases pat.len() - i,
    {
        if chars[at + i] != pat[i] {
            proof {
                assert(here.subrange(0, pat.len() as int)[i as int] == chars@[at + i]);
            }
            return false;
        }
        proof {
            assert(here.subrange(0, i + 1) == here.subrange(0, i as int).push(chars@[at + i]));
            assert(pat@.take(i + 1) == pat@.take(i as int).push(pat@[i as int]));
        }
        i += 1;
    }
    proof {
        assert(pat@.take(i as int) == pat@);
    }
    true
}

/// The first position at or after `from` where `pat` stands in `chars`,
/// or the length of `chars` if there is none.
pub fn find_text_from(chars: &Vec<char>, from: usize, pat: &Vec<char>) -> (at: usize)
    requires
        from <= chars.len(),
    ensures
        at == from + find_text(chars@.skip(from as int), pat@),
        from <= at <= chars.len(),
{
    let mut at = from;
    while at < chars.len() && !matches_at(chars, at, pat)
        invariant
            from <= at <= chars.len(),
            from + find_text(chars@.skip(from as int), pat@) == at + find_text(
                chars@.skip(at as int),
                pat@,
            ),
        decreases chars.len() - at,
    {
        proof {
            assert(chars@.skip(at as int).drop_first() == chars@.skip(at as int + 1));
        }
        at += 1;
    }
    at
}

/// The digit that stands for a number below ten.
pub open spec fn digit_char(d: nat) -> char {
    if d == 0 {
        '0'
    } else if d == 1 {
        '1'
    } else if d == 2 {
        '2'
    } else if d == 3 {
        '3'
    } else if d == 4 {
        '4'
    } else if d == 5 {
        '5'
    } else if d == 6 {
        '6'
    } else if d == 7 {
        '7'
    } else if d == 8 {
        '8'
    } else {
        '9'
    }
}

/// A number written in decimal digits.
pub open spec fn decimal_text(n: nat) -> Seq<char>
    decreases n,
{
    if n < 10 {
        seq![digit_char(n)]
    } else {
        decimal_text(n / 10).push(digit_char(n % 10))
    }
}

/// The digit that stands for a number below ten, as a string.
fn digit_str(d: u128) -> (s: &'static str)
    requires
        d < 10,
    ensures
        s@ == seq![digit_char(d as nat)],
{
    proof {
        reveal_strlit("0");
        reveal_strlit("1");
        reveal_strlit("2");
        reveal_strlit("3");
        reveal_strlit("4");
        reveal_strlit("5");
        reveal_strlit("6");
        reveal_strlit("7");
        reveal_strlit("8");
        reveal_strlit("9");
    }
    let s = if d == 0 {
        "0"
    } else if d == 1 {
        "1"
    } else if d == 2 {
        "2"
    } else if d == 3 {
        "3"
    } else if d == 4 {
        "4"
    } else if d == 5 {
        "5"
    } else if d == 6 {
        "6"
    } else if d == 7 {
        "7"
    } else if d == 8 {
        "8"
    } else {
        "9"
    };
    assert(s@ =~= seq![digit_char(d as nat)]);
    s
}

/// A number in decimal digits has one digit at least, and two at least if
/// it is ten or more.
pub proof fn lemma_decimal_len(n: nat)
    ensures
        decimal_text(n).len() >= 1,
        n >= 10 ==> decimal_text(n).len() >= 2,
    decreases n,
{
    if n >= 10 {
        lemma_decimal_len(n / 10);
    }
}

/// Two numbers below ten that have the same digit are one number.
pub proof fn lemma_digit_one_to_one(a: nat, b: nat)
    requires
        a < 10,
        b < 10,
        digit_char(a) == digit_char(b),
    ensures
        a == b,
{
}

/// Two numbers that are written alike in decimal digits are one number.
pub proof fn lemma_decimal_one_to_one(a: nat, b: nat)
    requires
        decimal_text(a) == decimal_text(b),
    ensures
        a == b,
    decreases a,
{
    lemma_decimal_len(a);
    lemma_decimal_len(b);
    if a < 10 || b < 10 {
        assert(decimal_text(a).len() == decimal_text(b).len());
        if a < 10 {
            assert(decimal_text(a).len() == 1);
        }
        if b < 10 {
            assert(decimal_text(b).len() == 1);
        }
        assert(decimal_text(a)[0] == digit_char(a));
        assert(decimal_text(b)[0] == digit_char(b));
        lemma_digit_one_to_one(a, b);
    } else {
        let front_a = decimal_text(a / 10);
        let front_b = decimal_text(b / 10);
        assert(decimal_text(a).last() == digit_char(a % 10));
        assert(decimal_text(b).last() == digit_char(b % 10));
        assert(decimal_text(a).drop_last() == front_a);
        assert(decimal_text(b).drop_last() == front_b);
        lemma_decimal_one_to_one(a / 10, b / 10);
        lemma_digit_one_to_one(a % 10, b % 10);
    }
}

/// A number written in decimal digits.
pub fn decimal(n: u128) -> (text: String)
    ensures
        text@ == decimal_text(n as nat),
    decreases n,
{
    if n < 10 {
        digit_str(n).to_string()
    } else {
        let mut text = decimal(n / 10);
        text.append(digit_str(n % 10));
        text
    }
}

/// The text that JSON writes a string as.
pub uninterp spec fn json_of_text(text: Seq<char>) -> Seq<char>;

/// Calls `simd_json::to_string` on a string: the string as JSON, quoted
/// and escaped. The call writes into memory and so does not fail; the JSON
/// depends on the string alone.
#[verifier::external_body]
pub(crate) fn text_json(text: &str) -> (json: Option<String>)
    ensures
        json is Some,
        json->0@ == json_of_text(text@),
{
    simd_json::to_string(text).ok()
}

/// Texts joined by commas.
pub open spec fn comma_joined(items: Seq<Seq<char>>) -> Seq<char>
    decreases items.len(),
{
    if items.len() == 0 {
        Seq::empty()
    } else if items.len() == 1 {
        items[0]
    } else {
        comma_joined(items.drop_last()) + ","@ + items.last()
    }
}

/// A JSON list of items that are JSON already.
pub open spec fn json_list(items: Seq<Seq<char>>) -> Seq<char> {
    "["@ + comma_joined(items) + "]"@
}

/// Each text as JSON.
pub open spec fn texts_as_json(texts: Seq<Seq<char>>) -> Seq<Seq<char>> {
    Seq::new(texts.len(), |i: int| json_of_text(texts[i]))
}

/// Calls `simd_json::to_string` on a list of strings: `[` and `]` around
/// the strings, each written as the call on it alone writes it, with
/// commas between them. The call writes into memory and so does not fail.
#[verifier::external_body]
pub(crate) fn texts_json(texts: &Vec<String>) -> (json: Option<String>)
    ensures
        json is Some,
        json->0@ == json_list(texts_as_json(Seq::new(texts@.len(), |i: int| texts@[i]@))),
{
    simd_json::to_string(texts).ok()
}

} // verus!
