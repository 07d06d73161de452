//! Rows and the bytes they are stored as.
//!
//! A stored record is a run of fields. Each field is one tag byte, the
//! length of its text as eight little-endian bytes, and the text in UTF-8.
//! Decoding merges the fields in order, so a later field of the same kind
//! overrides an earlier one and records can be appended to one another.

use vstd::bytes::*;
use vstd::prelude::*;
use vstd::slice::*;
use vstd::string::*;
use vstd::utf8::*;

verus! {

/// Tag of the field that carries a row's value.
pub const VALUE_TAG: u8 = 1;

/// Tag of the field that carries a row's type.
pub const TYPE_TAG: u8 = 2;

/// Number of bytes in front of a field's text: the tag and the length.
pub const FIELD_HEAD: usize = 9;

/// The smallest stored unit: a value and the tag of its type.
#[derive(Debug)]
pub struct Row {
    value: String,
    type_: String,
}

/// A row as plain text values.
pub struct RowView {
    pub value: Seq<char>,
    pub type_: Seq<char>,
}

impl View for Row {
    type V = RowView;

    closed spec fn view(&self) -> RowView {
        RowView { value: self.value@, type_: self.type_@ }
    }
}

impl Clone for Row {
    fn clone(&self) -> (copy: Self)
        ensures
            copy@ == self@,
    {
        Row { value: self.value.clone(), type_: self.type_.clone() }
    }
}

/// The row with an empty value and an empty type.
pub open spec fn empty_row() -> RowView {
    RowView { value: Seq::empty(), type_: Seq::empty() }
}

/// The bytes of one field.
pub open spec fn field_bytes(tag: u8, text: Seq<char>) -> Seq<u8> {
    seq![tag] + spec_u64_to_le_bytes(encode_utf8(text).len() as u64) + encode_utf8(text)
}

/// The bytes of a row: its value field, then its type field.
pub open spec fn encode_row(row: RowView) -> Seq<u8> {
    field_bytes(VALUE_TAG, row.value) + field_bytes(TYPE_TAG, row.type_)
}

/// Whether a row's texts are short enough for their lengths to be written.
pub open spec fn encodable(row: RowView) -> bool {
    encode_utf8(row.value).len() <= u64::MAX && encode_utf8(row.type_).len() <= u64::MAX
}

/// The length that the field at the front of `bytes` announces.
pub open spec fn field_len(bytes: Seq<u8>) -> nat {
    spec_u64_from_le_bytes(bytes.subrange(1, FIELD_HEAD as int)) as nat
}

/// Whether `bytes` starts with a whole, well-formed field.
pub open spec fn field_ok(bytes: Seq<u8>) -> bool {
    &&& bytes.len() >= FIELD_HEAD
    &&& bytes[0] == VALUE_TAG || bytes[0] == TYPE_TAG
    &&& FIELD_HEAD + field_len(bytes) <= bytes.len()
    &&& valid_utf8(bytes.subrange(FIELD_HEAD as int, FIELD_HEAD + field_len(bytes)))
}

/// `row` with the field at the front of `bytes` merged into it.
pub open spec fn merge_field(row: RowView, bytes: Seq<u8>) -> RowView {
    let text = decode_utf8(bytes.subrange(FIELD_HEAD as int, FIELD_HEAD + field_len(bytes)));
    if bytes[0] == VALUE_TAG {
        RowView { value: text, ..row }
    } else {
        RowView { type_: text, ..row }
    }
}

/// `row` with every field of `bytes` merged into it in order, or `None` if
/// `bytes` is not a run of well-formed fields.
pub open spec fn decode_from(row: RowView, bytes: Seq<u8>) -> Option<RowView>
    decreases bytes.len(),
{
    if bytes.len() == 0 {
        Some(row)
    } else if !field_ok(bytes) {
        None
    } else {
        decode_from(merge_field(row, bytes), bytes.skip(FIELD_HEAD + field_len(bytes)))
    }
}

/// The row that `bytes` stands for, if any.
pub open spec fn decode_row(bytes: Seq<u8>) -> Option<RowView> {
    decode_from(empty_row(), bytes)
}

/// A field in front of other bytes is well formed and merges its text.
pub proof fn lemma_field_first(tag: u8, text: Seq<char>, rest: Seq<u8>, row: RowView)
    requires
        tag == VALUE_TAG || tag == TYPE_TAG,
        encode_utf8(text).len() <= u64::MAX,
    ensures
        field_ok(field_bytes(tag, text) + rest),
        (field_bytes(tag, text) + rest).skip(
            FIELD_HEAD + field_len(field_bytes(tag, text) + rest),
        ) == rest,
        merge_field(row, field_bytes(tag, text) + rest) == if tag == VALUE_TAG {
            RowView { value: text, ..row }
        } else {
            RowView { type_: text, ..row }
        },
{
    broadcast use encode_utf8_valid_utf8, encode_utf8_decode_utf8;

    lemma_auto_spec_u64_to_from_le_bytes();
    let payload = encode_utf8(text);
    let len = payload.len() as u64;
    let all = field_bytes(tag, text) + rest;
    assert(all.subrange(1, FIELD_HEAD as int) == spec_u64_to_le_bytes(len));
    assert(field_len(all) == payload.len());
    assert(all.subrange(FIELD_HEAD as int, FIELD_HEAD + field_len(all)) == payload);
    assert(all.skip(FIELD_HEAD + field_len(all)) == rest);
    assert(all[0] == tag);
}

/// Decoding what `encode_row` wrote gives the row back.
pub proof fn lemma_decode_encode(row: RowView)
    requires
        encodable(row),
    ensures
        decode_row(encode_row(row)) == Some(row),
{
    lemma_decode_appended(empty_row(), Seq::empty(), row);
    assert(Seq::<u8>::empty() + encode_row(row) == encode_row(row));
}

/// Bytes that decode still decode with more fields behind them: the fields
/// that follow are merged into what the first bytes gave.
pub proof fn lemma_decode_concat(row: RowView, a: Seq<u8>, b: Seq<u8>)
    requires
        decode_from(row, a) is Some,
    ensures
        decode_from(row, a + b) == decode_from(decode_from(row, a)->0, b),
    decreases a.len(),
{
    if a.len() == 0 {
        assert(a + b == b);
    } else {
        let n = FIELD_HEAD + field_len(a);
        let all = a + b;
        assert(all.subrange(1, FIELD_HEAD as int) == a.subrange(1, FIELD_HEAD as int));
        assert(all.subrange(FIELD_HEAD as int, n as int) == a.subrange(FIELD_HEAD as int, n as int));
        assert(all[0] == a[0]);
        assert(all.skip(n as int) == a.skip(n as int) + b);
        lemma_decode_concat(merge_field(row, a), a.skip(n as int), b);
    }
}

/// A record appended to bytes that decode overrides both fields: the
/// result is the appended row, whatever stood before.
pub proof fn lemma_decode_appended(start: RowView, before: Seq<u8>, row: RowView)
    requires
        decode_from(start, before) is Some,
        encodable(row),
    ensures
        decode_from(start, before + encode_row(row)) == Some(row),
{
    let mid = decode_from(start, before)->0;
    lemma_decode_concat(start, before, encode_row(row));
    let second = field_bytes(TYPE_TAG, row.type_);
    lemma_field_first(VALUE_TAG, row.value, second, mid);
    let with_value = RowView { value: row.value, ..mid };
    lemma_field_first(TYPE_TAG, row.type_, Seq::empty(), with_value);
    assert(second + Seq::<u8>::empty() == second);
    let first = field_bytes(VALUE_TAG, row.value);
    assert(decode_from(mid, first + second) == decode_from(with_value, second));
    assert(decode_from(with_value, second) == decode_from(row, Seq::<u8>::empty()));
}

/// Calls `String::from_utf8`: the text that the bytes encode, or `None`
/// if they are not well-formed UTF-8.
#[verifier::external_body]
pub(crate) fn utf8_text(bytes: Vec<u8>) -> (text: Option<String>)
    ensures
        text is Some <==> valid_utf8(bytes@),
        text is Some ==> text->0@ == decode_utf8(bytes@),
{
    String::from_utf8(bytes).ok()
}

/// Appends one field to `out`.
fn put_field(out: &mut Vec<u8>, tag: u8, text: &str)
    ensures
        final(out)@ == old(out)@ + field_bytes(tag, text@),
        encode_utf8(text@).len() <= u64::MAX,
{
    let payload = text.as_bytes();
    let mut len_bytes = u64_to_le_bytes(payload.len() as u64);
    out.push(tag);
    out.append(&mut len_bytes);
    out.extend_from_slice(payload);
}

impl Row {
    /// A row with an empty value and an empty type.
    pub fn new() -> (row: Row)
        ensures
            row@ == empty_row(),
    {
        Row { value: String::new(), type_: String::new() }
    }

    /// Replaces the value.
    pub fn set_value(&mut self, value: String)
        ensures
            final(self)@ == (RowView { value: value@, ..old(self)@ }),
    {
        self.value = value;
    }

    /// Replaces the type tag.
    pub fn set_type(&mut self, type_: String)
        ensures
            final(self)@ == (RowView { type_: type_@, ..old(self)@ }),
    {
        self.type_ = type_;
    }

    /// The value.
    pub fn value(&self) -> (value: &str)
        ensures
            value@ == self@.value,
    {
        self.value.as_str()
    }

    /// The type tag.
    pub fn type_(&self) -> (type_: &str)
        ensures
            type_@ == self@.type_,
    {
        self.type_.as_str()
    }

    /// The bytes under which the row is stored.
    pub fn encode(&self) -> (bytes: Vec<u8>)
        ensures
            bytes@ == encode_row(self@),
            encodable(self@),
    {
        let mut out: Vec<u8> = Vec::new();
        put_field(&mut out, VALUE_TAG, self.value.as_str());
        put_field(&mut out, TYPE_TAG, self.type_.as_str());
        out
    }

    /// Reads a row back from stored bytes; `None` if they are no record.
    pub fn decode(bytes: &[u8]) -> (row: Option<Row>)
        ensures
            match row {
                Some(row) => decode_row(bytes@) == Some(row@),
                None => decode_row(bytes@) is None,
            },
    {
        let mut row = Row::new();
        let mut at: usize = 0;
        assert(bytes@.skip(0) == bytes@);
        while at < bytes.len()
            invariant
                at <= bytes.len(),
                decode_from(row@, bytes@.skip(at as int)) == decode_row(bytes@),
            decreases bytes.len() - at,
        {
            let ghost rest = bytes@.skip(at as int);
            if bytes.len() - at < FIELD_HEAD {
                return None;
            }
            let tag = bytes[at];
            let len = u64_from_le_bytes(slice_subrange(bytes, at + 1, at + FIELD_HEAD));
            proof {
                assert(rest[0] == bytes@[at as int]);
                assert(rest.subrange(1, FIELD_HEAD as int) == bytes@.subrange(
                    at + 1,
                    at + FIELD_HEAD,
                ));
            }
            if tag != VALUE_TAG && tag != TYPE_TAG {
                return None;
            }
            if len > (bytes.len() - at - FIELD_HEAD) as u64 {
                return None;
            }
            let from = at + FIELD_HEAD;
            let to = from + len as usize;
            proof {
                assert(rest.subrange(FIELD_HEAD as int, FIELD_HEAD + field_len(rest))
                    == bytes@.subrange(from as int, to as int));
                assert(rest.skip(FIELD_HEAD + field_len(rest)) == bytes@.skip(to as int));
            }
            match utf8_text(slice_to_vec(slice_subrange(bytes, from, to))) {
                None => {
                    return None;
                },
                Some(text) => {
                    if tag == VALUE_TAG {
                        row.value = text;
                    } else {
                        row.type_ = text;
                    }
                },
            }
            at = to;
        }
        Some(row)
    }
}

} // verus!
