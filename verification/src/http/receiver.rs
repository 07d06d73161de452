//! Turning the bytes of a connection into header and body text.

use vstd::prelude::*;
use vstd::utf8::{decode_utf8, valid_utf8};
use crate::text::{
    chars_of, find, find_from, lemma_find, same, skip_token, skip_white, slice_of, token_run,
    white_run,
};
use crate::text::{lossy_text, trim, trimmed, utf8_lossy};

verus! {

/// The headers of a request.
#[derive(Debug)]
pub struct RequestHeaders {
    /// Correlation id, sent back with the reply.
    pub rud: String,
    /// Database name.
    pub db: String,
    /// Table name.
    pub table: String,
    /// Row key.
    pub key: String,
    /// Type tag of the value.
    pub _type: String,
}

/// The headers of a request as plain text values.
pub struct HeadersView {
    pub rud: Seq<char>,
    pub db: Seq<char>,
    pub table: Seq<char>,
    pub key: Seq<char>,
    pub _type: Seq<char>,
}

impl View for RequestHeaders {
    type V = HeadersView;

    open spec fn view(&self) -> HeadersView {
        HeadersView {
            rud: self.rud@,
            db: self.db@,
            table: self.table@,
            key: self.key@,
            _type: self._type@,
        }
    }
}

impl Clone for RequestHeaders {
    fn clone(&self) -> (copy: Self)
        ensures
            copy@ == self@,
    {
        RequestHeaders {
            rud: self.rud.clone(),
            db: self.db.clone(),
            table: self.table.clone(),
            key: self.key.clone(),
            _type: self._type.clone(),
        }
    }
}

/// A parsed header: the request kind and the headers.
pub struct ParsedHeader {
    pub req: Seq<char>,
    pub head: HeadersView,
}

/// The request kind and the headers as one value.
pub open spec fn parsed_of(req: Seq<char>, head: HeadersView) -> ParsedHeader {
    ParsedHeader { req, head }
}

/// The parse of an empty header: every field empty.
pub open spec fn no_fields() -> ParsedHeader {
    ParsedHeader {
        req: Seq::empty(),
        head: HeadersView {
            rud: Seq::empty(),
            db: Seq::empty(),
            table: Seq::empty(),
            key: Seq::empty(),
            _type: Seq::empty(),
        },
    }
}

/// A line from its first token on.
pub open spec fn from_token(line: Seq<char>) -> Seq<char> {
    line.skip(white_run(line) as int)
}

/// The first token of a line: the first run of characters that are not
/// white space.
pub open spec fn line_name(line: Seq<char>) -> Seq<char> {
    from_token(line).take(token_run(from_token(line)) as int)
}

/// What follows the first token of a line.
pub open spec fn after_name(line: Seq<char>) -> Seq<char> {
    from_token(line).skip(token_run(from_token(line)) as int)
}

/// The second token of a line, empty if the line has none.
pub open spec fn line_value(line: Seq<char>) -> Seq<char> {
    line_name(after_name(line))
}

/// Whether a line has a second token.
pub open spec fn line_has_value(line: Seq<char>) -> bool {
    line_value(line).len() > 0
}

/// What one header line does to the fields read so far. A line without a
/// value and a line with an unknown name change nothing.
pub open spec fn apply_line(h: ParsedHeader, line: Seq<char>) -> ParsedHeader {
    let name = line_name(line);
    let value = line_value(line);
    if !line_has_value(line) {
        h
    } else if name == "req:"@ {
        ParsedHeader { req: value, ..h }
    } else if name == "rud:"@ {
        ParsedHeader { head: HeadersView { rud: value, ..h.head }, ..h }
    } else if name == "db:"@ {
        ParsedHeader { head: HeadersView { db: value, ..h.head }, ..h }
    } else if name == "table:"@ {
        ParsedHeader { head: HeadersView { table: value, ..h.head }, ..h }
    } else if name == "key:"@ {
        ParsedHeader { head: HeadersView { key: value, ..h.head }, ..h }
    } else if name == "type:"@ {
        ParsedHeader { head: HeadersView { _type: value, ..h.head }, ..h }
    } else {
        h
    }
}

/// The fields after every line of `text`, taken in order from `h`. Lines
/// end at a line feed; a later line overrides an earlier one.
pub open spec fn parse_lines(h: ParsedHeader, text: Seq<char>) -> ParsedHeader
    decreases text.len(),
{
    let end = find(text, '\n');
    let next = apply_line(h, text.take(end as int));
    if end >= text.len() {
        next
    } else {
        parse_lines(next, text.skip(end as int + 1))
    }
}

/// The parse of a whole header text.
pub open spec fn parse_header(text: Seq<char>) -> ParsedHeader {
    parse_lines(no_fields(), text)
}

/// Parses a header text into the request kind and the request headers.
///
/// Lines end at a line feed and are split at white space. The first token
/// of a line names a field, the second is its value; the names `req:`,
/// `rud:`, `db:`, `table:`, `key:` and `type:` are known. A line with
/// another name is passed over, and so is a line without a value.
pub fn get_header(header: String) -> (parsed: (String, RequestHeaders))
    ensures
        parsed.0@ == parse_header(header@).req,
        parsed.1@ == parse_header(header@).head,
{
    let text = header.as_str();
    let chars = chars_of(text);
    let mut req_type = String::new();
    let mut head = RequestHeaders {
        rud: String::new(),
        db: String::new(),
        table: String::new(),
        key: String::new(),
        _type: String::new(),
    };
    let mut start: usize = 0;
    let mut more = true;
    proof {
        assert(chars@.skip(0) == chars@);
        assert(parsed_of(req_type@, head@) == no_fields());
    }
    while more
        invariant
            chars@ == text@,
            text@ == header@,
            start <= chars.len(),
            more ==> parse_lines(parsed_of(req_type@, head@), chars@.skip(start as int))
                == parse_header(header@),
            !more ==> parsed_of(req_type@, head@) == parse_header(header@),
        decreases chars.len() - start + (if more { 1int } else { 0int }),
    {
        let ghost rest = chars@.skip(start as int);
        let ghost before = parsed_of(req_type@, head@);
        let end = find_from(&chars, start, '\n');
        let ghost line = rest.take(end - start);
        proof {
            lemma_find(rest, '\n');
            assert(line == chars@.subrange(start as int, end as int));
        }
        let name_from = skip_white(&chars, start, end);
        let name_to = skip_token(&chars, name_from, end);
        let value_from = skip_white(&chars, name_to, end);
        let value_to = skip_token(&chars, value_from, end);
        proof {
            assert(from_token(line) == chars@.subrange(name_from as int, end as int));
            assert(line_name(line) == chars@.subrange(name_from as int, name_to as int));
            assert(after_name(line) == chars@.subrange(name_to as int, end as int));
            assert(from_token(after_name(line)) == chars@.subrange(value_from as int, end as int));
            assert(line_value(line) == chars@.subrange(value_from as int, value_to as int));
        }
        if value_to > value_from {
            let name = slice_of(text, name_from, name_to);
            let value = slice_of(text, value_from, value_to);
            proof {
                reveal_strlit("req:");
                reveal_strlit("rud:");
                reveal_strlit("db:");
                reveal_strlit("table:");
                reveal_strlit("key:");
                reveal_strlit("type:");
            }
            if same(name.as_str(), "req:") {
                req_type = value;
            } else if same(name.as_str(), "rud:") {
                head.rud = value;
            } else if same(name.as_str(), "db:") {
                head.db = value;
            } else if same(name.as_str(), "table:") {
                head.table = value;
            } else if same(name.as_str(), "key:") {
                head.key = value;
            } else if same(name.as_str(), "type:") {
                head._type = value;
            }
        }
        proof {
            assert(parsed_of(req_type@, head@) == apply_line(before, line));
        }
        if end >= chars.len() {
            more = false;
        } else {
            proof {
                assert(rest.skip(end - start + 1) == chars@.skip(end as int + 1));
            }
            start = end + 1;
        }
    }
    (req_type, head)
}

/// Control byte that opens a header section.
pub const SOH: u8 = 1;

/// Control byte that opens a body section.
pub const STX: u8 = 2;

/// Control byte that closes the current section.
pub const ETB: u8 = 23;

/// Number of sections that make up one transaction.
pub const SECTIONS_IN_TX: usize = 2;

/// What the framer has seen so far, as plain values.
pub struct FrameState {
    pub in_header: bool,
    pub in_body: bool,
    pub sections: nat,
    pub header: Seq<u8>,
    pub body: Seq<u8>,
}

/// The state before any byte has arrived.
pub open spec fn frame_start() -> FrameState {
    FrameState {
        in_header: false,
        in_body: false,
        sections: 0,
        header: Seq::empty(),
        body: Seq::empty(),
    }
}

/// Whether `b` is one of the three control bytes.
pub open spec fn is_control(b: u8) -> bool {
    b == SOH || b == STX || b == ETB
}

/// The state after one more byte.
///
/// `SOH` and `STX` open the header and the body section. `ETB` closes the
/// header section if it is open and the body section otherwise, and counts
/// one section. Any other byte goes to each section that is open.
pub open spec fn frame_step(s: FrameState, b: u8) -> FrameState {
    if b == SOH {
        FrameState { in_header: true, ..s }
    } else if b == STX {
        FrameState { in_body: true, ..s }
    } else if b == ETB {
        if s.in_header {
            FrameState { in_header: false, sections: s.sections + 1, ..s }
        } else {
            FrameState { in_body: false, sections: s.sections + 1, ..s }
        }
    } else {
        FrameState {
            header: if s.in_header { s.header.push(b) } else { s.header },
            body: if s.in_body { s.body.push(b) } else { s.body },
            ..s
        }
    }
}

/// Whether both sections of a transaction have been closed.
pub open spec fn frame_done(s: FrameState) -> bool {
    s.sections >= SECTIONS_IN_TX
}

/// The state after the first `n` bytes of `bytes`; bytes that follow a
/// complete transaction are not looked at.
pub open spec fn frame_after(bytes: Seq<u8>, n: nat) -> FrameState
    decreases n,
{
    if n == 0 {
        frame_start()
    } else {
        let before = frame_after(bytes, (n - 1) as nat);
        if frame_done(before) {
            before
        } else {
            frame_step(before, bytes[n - 1])
        }
    }
}

/// The state after all of `bytes`.
pub open spec fn frame_of(bytes: Seq<u8>) -> FrameState {
    frame_after(bytes, bytes.len())
}

/// Once a transaction is complete, further bytes leave the state as it is.
pub proof fn lemma_frame_stays_done(bytes: Seq<u8>, n: nat, m: nat)
    requires
        n <= m,
        frame_done(frame_after(bytes, n)),
    ensures
        frame_after(bytes, m) == frame_after(bytes, n),
    decreases m,
{
    if m > n {
        lemma_frame_stays_done(bytes, n, (m - 1) as nat);
    }
}

/// The bytes of one transaction on the wire: the header section, the
/// body section, and whatever follows.
pub open spec fn transaction_bytes(header: Seq<u8>, body: Seq<u8>, rest: Seq<u8>) -> Seq<u8> {
    seq![SOH] + header + seq![ETB, STX] + body + seq![ETB] + rest
}

/// Whether no byte of `bytes` is a control byte.
pub open spec fn no_control(bytes: Seq<u8>) -> bool {
    forall|i: int| 0 <= i < bytes.len() ==> !is_control(#[trigger] bytes[i])
}

/// Inside the header section of a transaction, the header bytes read so
/// far are the header so far.
proof fn lemma_frame_in_header(header: Seq<u8>, body: Seq<u8>, rest: Seq<u8>, j: nat)
    requires
        no_control(header),
        j <= header.len(),
    ensures
        frame_after(transaction_bytes(header, body, rest), 1 + j) == (FrameState {
            in_header: true,
            in_body: false,
            sections: 0,
            header: header.take(j as int),
            body: Seq::empty(),
        }),
    decreases j,
{
    let all = transaction_bytes(header, body, rest);
    if j == 0 {
        assert(all[0] == SOH);
        assert(frame_after(all, 0) == frame_start());
        assert(header.take(0) == Seq::<u8>::empty());
    } else {
        lemma_frame_in_header(header, body, rest, (j - 1) as nat);
        assert(all[j as int] == header[j - 1]);
        assert(!is_control(header[j - 1]));
        assert(header.take(j as int) == header.take(j - 1).push(header[j - 1]));
    }
}

/// Inside the body section of a transaction, the header is whole and the
/// body bytes read so far are the body so far.
proof fn lemma_frame_in_body(header: Seq<u8>, body: Seq<u8>, rest: Seq<u8>, j: nat)
    requires
        no_control(header),
        no_control(body),
        j <= body.len(),
    ensures
        frame_after(transaction_bytes(header, body, rest), header.len() + 3 + j) == (FrameState {
            in_header: false,
            in_body: true,
            sections: 1,
            header,
            body: body.take(j as int),
        }),
    decreases j,
{
    let all = transaction_bytes(header, body, rest);
    let n = header.len();
    if j == 0 {
        lemma_frame_in_header(header, body, rest, n);
        assert(header.take(n as int) == header);
        assert(all[n as int + 1] == ETB);
        assert(all[n as int + 2] == STX);
        assert(frame_after(all, n + 2) == frame_step(frame_after(all, n + 1), ETB));
        assert(frame_after(all, n + 3) == frame_step(frame_after(all, n + 2), STX));
        assert(body.take(0) == Seq::<u8>::empty());
    } else {
        lemma_frame_in_body(header, body, rest, (j - 1) as nat);
        assert(all[n as int + 2 + j] == body[j - 1]);
        assert(!is_control(body[j - 1]));
        assert(body.take(j as int) == body.take(j - 1).push(body[j - 1]));
    }
}

/// A stream that starts with one transaction frames to the header and the
/// body of that transaction, whatever follows it, if neither holds a
/// control byte.
pub proof fn lemma_frame_of_transaction(header: Seq<u8>, body: Seq<u8>, rest: Seq<u8>)
    requires
        no_control(header),
        no_control(body),
    ensures
        frame_done(frame_of(transaction_bytes(header, body, rest))),
        frame_of(transaction_bytes(header, body, rest)).header == header,
        frame_of(transaction_bytes(header, body, rest)).body == body,
{
    let all = transaction_bytes(header, body, rest);
    let end = header.len() + 3 + body.len();
    lemma_frame_in_body(header, body, rest, body.len());
    assert(body.take(body.len() as int) == body);
    assert(all[end as int] == ETB);
    assert(frame_after(all, end + 1) == frame_step(frame_after(all, end), ETB));
    lemma_frame_stays_done(all, end + 1, all.len());
}

/// A byte-at-a-time framer for one transaction.
pub struct Framer {
    in_header: bool,
    in_body: bool,
    sections: usize,
    header: Vec<u8>,
    body: Vec<u8>,
}

impl View for Framer {
    type V = FrameState;

    closed spec fn view(&self) -> FrameState {
        FrameState {
            in_header: self.in_header,
            in_body: self.in_body,
            sections: self.sections as nat,
            header: self.header@,
            body: self.body@,
        }
    }
}

impl Framer {
    /// A framer that has seen nothing yet.
    pub fn new() -> (f: Framer)
        ensures
            f@ == frame_start(),
    {
        Framer {
            in_header: false,
            in_body: false,
            sections: 0,
            header: Vec::new(),
            body: Vec::new(),
        }
    }

    /// Whether a whole transaction has been read.
    pub fn is_complete(&self) -> (done: bool)
        ensures
            done == frame_done(self@),
    {
        self.sections >= SECTIONS_IN_TX
    }

    /// Takes in the next byte of the stream. A framer that already holds a
    /// whole transaction ignores it.
    pub fn push(&mut self, byte: u8)
        ensures
            final(self)@ == if frame_done(old(self)@) {
                old(self)@
            } else {
                frame_step(old(self)@, byte)
            },
    {
        if self.sections >= SECTIONS_IN_TX {
            return ;
        }
        if byte == SOH {
            self.in_header = true;
        } else if byte == STX {
            self.in_body = true;
        } else if byte == ETB {
            if self.in_header {
                self.in_header = false;
            } else {
                self.in_body = false;
            }
            self.sections = self.sections + 1;
        } else {
            if self.in_header {
                self.header.push(byte);
            }
            if self.in_body {
                self.body.push(byte);
            }
        }
    }

    /// The header and body text of the transaction read so far: both
    /// decoded leniently, the body also trimmed. Bytes that are well-formed
    /// UTF-8 decode to the text they encode.
    pub fn into_parts(self) -> (parts: (String, String))
        ensures
            parts.0@ == header_text(self@),
            parts.1@ == body_text(self@),
            valid_utf8(self@.header) ==> parts.0@ == decode_utf8(self@.header),
            valid_utf8(self@.body) ==> parts.1@ == trimmed(decode_utf8(self@.body)),
    {
        let head = utf8_lossy(self.header.as_slice());
        let body_raw = utf8_lossy(self.body.as_slice());
        let body = trim(body_raw.as_str());
        (head, body)
    }
}

/// The header text that a frame state stands for.
pub open spec fn header_text(s: FrameState) -> Seq<char> {
    lossy_text(s.header)
}

/// The body text that a frame state stands for.
pub open spec fn body_text(s: FrameState) -> Seq<char> {
    trimmed(lossy_text(s.body))
}

/// Reads one transaction from the bytes that a connection delivered.
///
/// Returns the header and body text once two sections have been closed.
/// If the bytes end before that, the connection is taken to be lost and
/// `address` comes back so that the caller can forget the connection.
pub fn deserialize(stream: &[u8], address: &str) -> (r: Result<(String, String), String>)
    ensures
        match r {
            Ok(parts) => {
                &&& frame_done(frame_of(stream@))
                &&& parts.0@ == header_text(frame_of(stream@))
                &&& parts.1@ == body_text(frame_of(stream@))
                &&& valid_utf8(frame_of(stream@).header) ==> parts.0@ == decode_utf8(
                    frame_of(stream@).header,
                )
                &&& valid_utf8(frame_of(stream@).body) ==> parts.1@ == trimmed(
                    decode_utf8(frame_of(stream@).body),
                )
            },
            Err(who) => !frame_done(frame_of(stream@)) && who@ == address@,
        },
{
    let mut framer = Framer::new();
    let mut i: usize = 0;
    while i < stream.len() && !framer.is_complete()
        invariant
            i <= stream.len(),
            framer@ == frame_after(stream@, i as nat),
        decreases stream.len() - i,
    {
        framer.push(stream[i]);
        i += 1;
    }
    proof {
        if frame_done(framer@) {
            lemma_frame_stays_done(stream@, i as nat, stream@.len());
        }
    }
    if framer.is_complete() {
        Ok(framer.into_parts())
    } else {
        Err(address.to_string())
    }
}

} // verus!
