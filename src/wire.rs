use vstd::prelude::*;
use vstd::utf8::{
    decode_utf8, encode_scalar, encode_utf8, valid_utf8, encode_utf8_decode_utf8,
    encode_utf8_valid_utf8,
};

use crate::frame::{Frame, FrameView};

verus! {

// ---------------------------------------------------------------------------
// Results of the outside functions the wire format relies on.
// ---------------------------------------------------------------------------

/// The JSON string literal that serde_json writes for a string.
pub uninterp spec fn json_string(s: Seq<char>) -> Seq<char>;

/// The string that serde_json reads from a JSON text, if it holds one.
pub uninterp spec fn json_string_parsed(t: Seq<char>) -> Option<Seq<char>>;

/// The JSON array of integers that serde_json writes for a byte sequence.
pub uninterp spec fn json_byte_array(b: Seq<u8>) -> Seq<char>;

/// The byte sequence that serde_json reads from a JSON text, if it holds one.
pub uninterp spec fn json_byte_array_parsed(t: Seq<char>) -> Option<Seq<u8>>;

/// The text that lossy UTF-8 decoding gives for a byte sequence.
pub uninterp spec fn utf8_lossy(b: Seq<u8>) -> Seq<char>;

#[verifier::external_type_specification]
#[verifier::external_body]
pub struct ExJsonError(serde_json::Error);

/// Relies on serde_json::to_string for a `str`: it writes the string as one JSON
/// string literal, escaping `"`, `\` and every control character (a line feed
/// becomes `\n`); writing a `str` into memory cannot fail.
#[verifier::external_body]
fn quote_string(s: &str) -> (r: Result<String, serde_json::Error>)
    ensures
        r is Ok,
        r->Ok_0@ == json_string(s@),
        forall|i: int| 0 <= i < r->Ok_0@.len() ==> r->Ok_0@[i] != '\n',
{
    serde_json::to_string(s)
}

/// Relies on serde_json::from_str for a `String`: it reads back every string
/// literal that serde_json::to_string wrote.
#[verifier::external_body]
fn unquote_string(t: &str) -> (r: Option<String>)
    ensures
        r is Some ==> json_string_parsed(t@) == Some(r->Some_0@),
        r is None ==> json_string_parsed(t@) is None,
        forall|s: Seq<char>| #[trigger] json_string(s) == t@ ==> r is Some && r->Some_0@ == s,
{
    serde_json::from_str::<String>(t).ok()
}

/// Relies on serde_json::to_string for a byte slice: a JSON array of the bytes
/// as decimal integers, written compactly (no whitespace); it cannot fail.
#[verifier::external_body]
fn byte_array_text(b: &[u8]) -> (r: Result<String, serde_json::Error>)
    ensures
        r is Ok,
        r->Ok_0@ == json_byte_array(b@),
        forall|i: int| 0 <= i < r->Ok_0@.len() ==> r->Ok_0@[i] != '\n',
{
    serde_json::to_string(b)
}

/// Relies on serde_json::from_str for a `Vec<u8>`: it reads back every array
/// that serde_json::to_string wrote for a byte slice.
#[verifier::external_body]
fn parse_byte_array(t: &str) -> (r: Option<Vec<u8>>)
    ensures
        r is Some ==> json_byte_array_parsed(t@) == Some(r->Some_0@),
        r is None ==> json_byte_array_parsed(t@) is None,
        forall|b: Seq<u8>| #[trigger] json_byte_array(b) == t@ ==> r is Some && r->Some_0@ == b,
{
    serde_json::from_str::<Vec<u8>>(t).ok()
}

/// Relies on String::from_utf8_lossy: invalid sequences are replaced, and valid
/// UTF-8 is decoded as it stands.
#[verifier::external_body]
fn lossy_text(b: &[u8]) -> (r: String)
    ensures
        r@ == utf8_lossy(b@),
        valid_utf8(b@) ==> r@ == decode_utf8(b@),
{
    String::from_utf8_lossy(b).into_owned()
}


// ---------------------------------------------------------------------------
// The line format: a unit message is its quoted tag (`"Ping"`); a message with
// a payload is `{"Tag":{"field":PAYLOAD}}`, PAYLOAD being JSON text.
// ---------------------------------------------------------------------------

pub open spec fn connect_tag() -> Seq<u8> {
    seq![67u8, 111, 110, 110, 101, 99, 116]
}

pub open spec fn disconnect_tag() -> Seq<u8> {
    seq![68u8, 105, 115, 99, 111, 110, 110, 101, 99, 116]
}

pub open spec fn text_tag() -> Seq<u8> {
    seq![84u8, 101, 120, 116]
}

pub open spec fn binary_tag() -> Seq<u8> {
    seq![66u8, 105, 110, 97, 114, 121]
}

pub open spec fn ping_tag() -> Seq<u8> {
    seq![80u8, 105, 110, 103]
}

pub open spec fn ack_tag() -> Seq<u8> {
    seq![79u8, 107]
}

pub open spec fn id_field() -> Seq<u8> {
    seq![105u8, 100]
}

pub open spec fn content_field() -> Seq<u8> {
    seq![99u8, 111, 110, 116, 101, 110, 116]
}

/// `"tag"`
pub open spec fn unit_line(tag: Seq<u8>) -> Seq<u8> {
    seq![34u8] + tag + seq![34u8]
}

/// `{"tag":{"field":`
pub open spec fn envelope_open(tag: Seq<u8>, field: Seq<u8>) -> Seq<u8> {
    seq![123u8, 34] + tag + seq![34u8, 58, 123, 34] + field + seq![34u8, 58]
}

/// `}}`
pub open spec fn envelope_close() -> Seq<u8> {
    seq![125u8, 125]
}

pub open spec fn connect_open() -> Seq<u8> {
    envelope_open(connect_tag(), id_field())
}

pub open spec fn text_open() -> Seq<u8> {
    envelope_open(text_tag(), content_field())
}

pub open spec fn binary_open() -> Seq<u8> {
    envelope_open(binary_tag(), content_field())
}

/// The line of a message, without its delimiter.
pub open spec fn encoded_line(m: FrameView) -> Seq<u8> {
    match m {
        FrameView::Connect { id } => connect_open() + encode_utf8(json_string(id)) + envelope_close(),
        FrameView::Disconnect => unit_line(disconnect_tag()),
        FrameView::Text { content } => text_open() + encode_utf8(json_string(content))
            + envelope_close(),
        FrameView::Binary { content } => binary_open() + encode_utf8(json_byte_array(content))
            + envelope_close(),
        FrameView::Ping => unit_line(ping_tag()),
        FrameView::Ack => unit_line(ack_tag()),
    }
}

/// The line delimiter, a line feed.
pub open spec fn delimiter() -> u8 {
    10
}

/// Whether no byte of `s` is the delimiter.
pub open spec fn no_delimiter(s: Seq<u8>) -> bool {
    forall|i: int| 0 <= i < s.len() ==> s[i] != delimiter()
}

/// A character other than a line feed has no delimiter byte in its UTF-8 form:
/// multi-byte forms have the high bit set in every byte.
proof fn lemma_scalar_no_delimiter(c: char)
    requires
        c != '\n',
    ensures
        no_delimiter(encode_scalar(c as u32)),
{
    let v = c as u32;
    assert(v != 10u32);
    assert(forall|b: u8| (0x80u8 | b) != 10u8 && (0xC0u8 | b) != 10u8 && (0xE0u8 | b) != 10u8
        && (0xF0u8 | b) != 10u8) by (bit_vector);
    if v <= 0x7F {
        assert((v & 0x7F) == v) by (bit_vector)
            requires
                v <= 0x7F,
        ;
    }
}

/// Text without a line feed has no delimiter byte in its UTF-8 form.
proof fn lemma_utf8_no_delimiter(t: Seq<char>)
    requires
        forall|i: int| 0 <= i < t.len() ==> t[i] != '\n',
    ensures
        no_delimiter(encode_utf8(t)),
    decreases t.len(),
{
    if t.len() > 0 {
        lemma_scalar_no_delimiter(t[0]);
        lemma_utf8_no_delimiter(t.drop_first());
        let a = encode_scalar(t[0] as u32);
        let b = encode_utf8(t.drop_first());
        assert forall|i: int| 0 <= i < (a + b).len() implies (a + b)[i] != delimiter() by {
            if i >= a.len() {
                assert((a + b)[i] == b[i - a.len()]);
            }
        }
    }
}

/// Whether `l` is `open`, then a payload, then `}}`.
pub open spec fn enveloped(l: Seq<u8>, open: Seq<u8>) -> bool {
    &&& l.len() >= open.len() + 2
    &&& l.subrange(0, open.len() as int) == open
    &&& l.subrange(l.len() - 2, l.len() as int) == envelope_close()
}

/// The payload of a line that `enveloped(l, open)`.
pub open spec fn envelope_body(l: Seq<u8>, open: Seq<u8>) -> Seq<u8> {
    l.subrange(open.len() as int, l.len() - 2)
}

/// The message that a line (without its delimiter) decodes to, if any.
pub open spec fn decoded_line(l: Seq<u8>) -> Option<FrameView> {
    if l == unit_line(disconnect_tag()) {
        Some(FrameView::Disconnect)
    } else if l == unit_line(ping_tag()) {
        Some(FrameView::Ping)
    } else if l == unit_line(ack_tag()) {
        Some(FrameView::Ack)
    } else if enveloped(l, connect_open()) {
        match json_string_parsed(utf8_lossy(envelope_body(l, connect_open()))) {
            Some(id) => Some(FrameView::Connect { id }),
            None => None,
        }
    } else if enveloped(l, text_open()) {
        match json_string_parsed(utf8_lossy(envelope_body(l, text_open()))) {
            Some(content) => Some(FrameView::Text { content }),
            None => None,
        }
    } else if enveloped(l, binary_open()) {
        match json_byte_array_parsed(utf8_lossy(envelope_body(l, binary_open()))) {
            Some(content) => Some(FrameView::Binary { content }),
            None => None,
        }
    } else {
        None
    }
}

pub open spec fn frame_option_view(r: Option<Frame>) -> Option<FrameView> {
    match r {
        Some(f) => Some(f@),
        None => None,
    }
}

fn unit_line_bytes(tag: Vec<u8>) -> (r: Vec<u8>)
    ensures
        r@ == unit_line(tag@),
{
    let mut r: Vec<u8> = Vec::new();
    r.push(34u8);
    r.extend_from_slice(tag.as_slice());
    r.push(34u8);
    assert(r@ =~= unit_line(tag@));
    r
}

fn envelope_open_bytes(tag: Vec<u8>, field: Vec<u8>) -> (r: Vec<u8>)
    ensures
        r@ == envelope_open(tag@, field@),
{
    let mut r: Vec<u8> = Vec::new();
    r.push(123u8);
    r.push(34u8);
    r.extend_from_slice(tag.as_slice());
    r.push(34u8);
    r.push(58u8);
    r.push(123u8);
    r.push(34u8);
    r.extend_from_slice(field.as_slice());
    r.push(34u8);
    r.push(58u8);
    assert(r@ =~= envelope_open(tag@, field@));
    r
}

fn connect_tag_bytes() -> (r: Vec<u8>)
    ensures
        r@ == connect_tag(),
{
    let r: Vec<u8> = vec![67u8, 111, 110, 110, 101, 99, 116];
    assert(r@ =~= connect_tag());
    r
}

fn disconnect_tag_bytes() -> (r: Vec<u8>)
    ensures
        r@ == disconnect_tag(),
{
    let r: Vec<u8> = vec![68u8, 105, 115, 99, 111, 110, 110, 101, 99, 116];
    assert(r@ =~= disconnect_tag());
    r
}

fn text_tag_bytes() -> (r: Vec<u8>)
    ensures
        r@ == text_tag(),
{
    let r: Vec<u8> = vec![84u8, 101, 120, 116];
    assert(r@ =~= text_tag());
    r
}

fn binary_tag_bytes() -> (r: Vec<u8>)
    ensures
        r@ == binary_tag(),
{
    let r: Vec<u8> = vec![66u8, 105, 110, 97, 114, 121];
    assert(r@ =~= binary_tag());
    r
}

fn ping_tag_bytes() -> (r: Vec<u8>)
    ensures
        r@ == ping_tag(),
{
    let r: Vec<u8> = vec![80u8, 105, 110, 103];
    assert(r@ =~= ping_tag());
    r
}

fn ack_tag_bytes() -> (r: Vec<u8>)
    ensures
        r@ == ack_tag(),
{
    let r: Vec<u8> = vec![79u8, 107];
    assert(r@ =~= ack_tag());
    r
}

fn id_field_bytes() -> (r: Vec<u8>)
    ensures
        r@ == id_field(),
{
    let r: Vec<u8> = vec![105u8, 100];
    assert(r@ =~= id_field());
    r
}

fn content_field_bytes() -> (r: Vec<u8>)
    ensures
        r@ == content_field(),
{
    let r: Vec<u8> = vec![99u8, 111, 110, 116, 101, 110, 116];
    assert(r@ =~= content_field());
    r
}

proof fn lemma_encoded_line_no_delimiter(m: FrameView)
    requires
        m matches FrameView::Connect { id } ==> forall|i: int| 0 <= i < json_string(id).len() ==> json_string(id)[i] != '\n',
        m matches FrameView::Text { content } ==> forall|i: int| 0 <= i < json_string(content).len() ==> json_string(content)[i] != '\n',
        m matches FrameView::Binary { content } ==> forall|i: int| 0 <= i < json_byte_array(content).len() ==> json_byte_array(content)[i] != '\n',
    ensures
        no_delimiter(encoded_line(m)),
{
    let l = encoded_line(m);
    match m {
        FrameView::Connect { id } => {
            lemma_utf8_no_delimiter(json_string(id));
            lemma_enveloped_no_delimiter(connect_open(), encode_utf8(json_string(id)));
        },
        FrameView::Text { content } => {
            lemma_utf8_no_delimiter(json_string(content));
            lemma_enveloped_no_delimiter(text_open(), encode_utf8(json_string(content)));
        },
        FrameView::Binary { content } => {
            lemma_utf8_no_delimiter(json_byte_array(content));
            lemma_enveloped_no_delimiter(binary_open(), encode_utf8(json_byte_array(content)));
        },
        _ => {
            assert forall|i: int| 0 <= i < l.len() implies l[i] != delimiter() by {}
        },
    }
}

proof fn lemma_enveloped_no_delimiter(open: Seq<u8>, p: Seq<u8>)
    requires
        no_delimiter(open),
        no_delimiter(p),
    ensures
        no_delimiter(open + p + envelope_close()),
{
    let l = open + p + envelope_close();
    assert forall|i: int| 0 <= i < l.len() implies l[i] != delimiter() by {
        if i < open.len() {
            assert(l[i] == open[i]);
        } else if i < open.len() + p.len() {
            assert(l[i] == p[i - open.len()]);
        }
    }
}

/// `open`, then the UTF-8 bytes of `payload`, then `}}`, then the delimiter.
fn enveloped_line(open: Vec<u8>, payload: &str) -> (r: Vec<u8>)
    ensures
        r@ == open@ + encode_utf8(payload@) + envelope_close() + seq![delimiter()],
{
    let mut r = open;
    r.extend_from_slice(payload.as_bytes());
    r.push(125u8);
    r.push(125u8);
    r.push(10u8);
    assert(r@ =~= open@ + encode_utf8(payload@) + envelope_close() + seq![delimiter()]);
    r
}

/// The line that carries `f` on the wire, delimiter included.
pub fn encode_frame(f: &Frame) -> (r: Vec<u8>)
    ensures
        r@ == encoded_line(f@) + seq![delimiter()],
        no_delimiter(encoded_line(f@)),
{
    match f {
        Frame::Connect { id } => {
            let q = quote_string(id.as_str());
            proof {
                lemma_encoded_line_no_delimiter(f@);
            }
            match q {
                Ok(q) => enveloped_line(envelope_open_bytes(connect_tag_bytes(), id_field_bytes()), q.as_str()),
                Err(_) => Vec::new(),
            }
        },
        Frame::Text { content } => {
            let q = quote_string(content.as_str());
            proof {
                lemma_encoded_line_no_delimiter(f@);
            }
            match q {
                Ok(q) => enveloped_line(envelope_open_bytes(text_tag_bytes(), content_field_bytes()), q.as_str()),
                Err(_) => Vec::new(),
            }
        },
        Frame::Binary { content } => {
            let q = byte_array_text(content.as_slice());
            proof {
                lemma_encoded_line_no_delimiter(f@);
            }
            match q {
                Ok(q) => enveloped_line(envelope_open_bytes(binary_tag_bytes(), content_field_bytes()), q.as_str()),
                Err(_) => Vec::new(),
            }
        },
        Frame::Disconnect => {
            proof {
                lemma_encoded_line_no_delimiter(f@);
            }
            unit_delimited(disconnect_tag_bytes())
        },
        Frame::Ping => {
            proof {
                lemma_encoded_line_no_delimiter(f@);
            }
            unit_delimited(ping_tag_bytes())
        },
        Frame::Ack => {
            proof {
                lemma_encoded_line_no_delimiter(f@);
            }
            unit_delimited(ack_tag_bytes())
        },
    }
}

fn unit_delimited(tag: Vec<u8>) -> (r: Vec<u8>)
    ensures
        r@ == unit_line(tag@) + seq![delimiter()],
{
    let mut r = unit_line_bytes(tag);
    r.push(10u8);
    r
}

fn bytes_equal(a: &[u8], b: &[u8]) -> (r: bool)
    ensures
        r == (a@ == b@),
{
    if a.len() != b.len() {
        return false;
    }
    let mut i: usize = 0;
    while i < a.len()
        invariant
            a@.len() == b@.len(),
            0 <= i <= a@.len(),
            a@.subrange(0, i as int) == b@.subrange(0, i as int),
        decreases a@.len() - i,
    {
        if a[i] != b[i] {
            assert(a@[i as int] == a@.subrange(0, i + 1)[i as int]);
            return false;
        }
        assert(a@.subrange(0, i + 1) =~= a@.subrange(0, i as int).push(a@[i as int]));
        assert(b@.subrange(0, i + 1) =~= b@.subrange(0, i as int).push(b@[i as int]));
        i = i + 1;
    }
    assert(a@ =~= a@.subrange(0, a@.len() as int));
    assert(b@ =~= b@.subrange(0, b@.len() as int));
    true
}

fn is_enveloped(l: &[u8], open: &[u8]) -> (r: bool)
    ensures
        r == enveloped(l@, open@),
{
    if l.len() < 2 || l.len() - 2 < open.len() {
        return false;
    }
    let n = l.len();
    let head = vstd::slice::slice_subrange(l, 0, open.len());
    let tail = vstd::slice::slice_subrange(l, n - 2, n);
    let close: Vec<u8> = vec![125u8, 125];
    assert(close@ =~= envelope_close());
    bytes_equal(head, open) && bytes_equal(tail, close.as_slice())
}

/// What the line of each message looks like, enough to tell the lines apart.
proof fn lemma_line_shape(m: FrameView)
    ensures
        match m {
            FrameView::Disconnect => encoded_line(m) == unit_line(disconnect_tag()),
            FrameView::Ping => encoded_line(m) == unit_line(ping_tag())
                && encoded_line(m) != unit_line(disconnect_tag()),
            FrameView::Ack => encoded_line(m) == unit_line(ack_tag())
                && encoded_line(m) != unit_line(disconnect_tag())
                && encoded_line(m) != unit_line(ping_tag()),
            FrameView::Connect { id } => {
                &&& encoded_line(m) != unit_line(disconnect_tag())
                &&& encoded_line(m) != unit_line(ping_tag())
                &&& encoded_line(m) != unit_line(ack_tag())
                &&& enveloped(encoded_line(m), connect_open())
                &&& envelope_body(encoded_line(m), connect_open()) == encode_utf8(json_string(id))
            },
            FrameView::Text { content } => {
                &&& encoded_line(m) != unit_line(disconnect_tag())
                &&& encoded_line(m) != unit_line(ping_tag())
                &&& encoded_line(m) != unit_line(ack_tag())
                &&& !enveloped(encoded_line(m), connect_open())
                &&& enveloped(encoded_line(m), text_open())
                &&& envelope_body(encoded_line(m), text_open()) == encode_utf8(json_string(content))
            },
            FrameView::Binary { content } => {
                &&& encoded_line(m) != unit_line(disconnect_tag())
                &&& encoded_line(m) != unit_line(ping_tag())
                &&& encoded_line(m) != unit_line(ack_tag())
                &&& !enveloped(encoded_line(m), connect_open())
                &&& !enveloped(encoded_line(m), text_open())
                &&& enveloped(encoded_line(m), binary_open())
                &&& envelope_body(encoded_line(m), binary_open()) == encode_utf8(json_byte_array(content))
            },
        },
{
    let l = encoded_line(m);
    match m {
        FrameView::Disconnect => {},
        FrameView::Ping => {
            assert(l.len() != unit_line(disconnect_tag()).len());
        },
        FrameView::Ack => {
            assert(l.len() != unit_line(disconnect_tag()).len());
            assert(l.len() != unit_line(ping_tag()).len());
        },
        FrameView::Connect { id } => {
            let open = connect_open();
            let p = encode_utf8(json_string(id));
            assert(l[0] == 123u8);
            assert(unit_line(disconnect_tag())[0] == 34u8);
            assert(unit_line(ping_tag())[0] == 34u8);
            assert(unit_line(ack_tag())[0] == 34u8);
            assert(l.subrange(0, open.len() as int) =~= open);
            assert(l.subrange(l.len() - 2, l.len() as int) =~= envelope_close());
            assert(envelope_body(l, open) =~= p);
        },
        FrameView::Text { content } => {
            let open = text_open();
            let p = encode_utf8(json_string(content));
            assert(l[0] == 123u8);
            assert(unit_line(disconnect_tag())[0] == 34u8);
            assert(unit_line(ping_tag())[0] == 34u8);
            assert(unit_line(ack_tag())[0] == 34u8);
            assert(l[2] == 84u8);
            assert(connect_open()[2] == 67u8);
            if enveloped(l, connect_open()) {
                assert(l.subrange(0, connect_open().len() as int)[2] == l[2]);
            }
            assert(l.subrange(0, open.len() as int) =~= open);
            assert(l.subrange(l.len() - 2, l.len() as int) =~= envelope_close());
            assert(envelope_body(l, open) =~= p);
        },
        FrameView::Binary { content } => {
            let open = binary_open();
            let p = encode_utf8(json_byte_array(content));
            assert(l[0] == 123u8);
            assert(unit_line(disconnect_tag())[0] == 34u8);
            assert(unit_line(ping_tag())[0] == 34u8);
            assert(unit_line(ack_tag())[0] == 34u8);
            assert(l[2] == 66u8);
            assert(connect_open()[2] == 67u8);
            assert(text_open()[2] == 84u8);
            if enveloped(l, connect_open()) {
                assert(l.subrange(0, connect_open().len() as int)[2] == l[2]);
            }
            if enveloped(l, text_open()) {
                assert(l.subrange(0, text_open().len() as int)[2] == l[2]);
            }
            assert(l.subrange(0, open.len() as int) =~= open);
            assert(l.subrange(l.len() - 2, l.len() as int) =~= envelope_close());
            assert(envelope_body(l, open) =~= p);
        },
    }
}

/// Decodes the UTF-8 text of a payload as a JSON string.
fn string_payload(body: &[u8]) -> (r: Option<String>)
    ensures
        match r {
            Some(v) => json_string_parsed(utf8_lossy(body@)) == Some(v@),
            None => json_string_parsed(utf8_lossy(body@)) is None,
        },
        forall|s: Seq<char>| #[trigger] encode_utf8(json_string(s)) == body@
            ==> r is Some && r->Some_0@ == s,
{
    let text = lossy_text(body);
    let r = unquote_string(text.as_str());
    proof {
        assert forall|s: Seq<char>| #[trigger] encode_utf8(json_string(s)) == body@
            implies r is Some && r->Some_0@ == s by {
            encode_utf8_valid_utf8(json_string(s));
            encode_utf8_decode_utf8(json_string(s));
            assert(json_string(s) == text@);
        }
    }
    r
}

/// Decodes the UTF-8 text of a payload as a JSON array of bytes.
fn byte_payload(body: &[u8]) -> (r: Option<Vec<u8>>)
    ensures
        match r {
            Some(v) => json_byte_array_parsed(utf8_lossy(body@)) == Some(v@),
            None => json_byte_array_parsed(utf8_lossy(body@)) is None,
        },
        forall|b: Seq<u8>| #[trigger] encode_utf8(json_byte_array(b)) == body@
            ==> r is Some && r->Some_0@ == b,
{
    let text = lossy_text(body);
    let r = parse_byte_array(text.as_str());
    proof {
        assert forall|b: Seq<u8>| #[trigger] encode_utf8(json_byte_array(b)) == body@
            implies r is Some && r->Some_0@ == b by {
            encode_utf8_valid_utf8(json_byte_array(b));
            encode_utf8_decode_utf8(json_byte_array(b));
            assert(json_byte_array(b) == text@);
        }
    }
    r
}

/// Decodes one line (without its delimiter). Every line that `encode_frame`
/// writes decodes back to the message it was written from.
pub fn decode_frame(line: &[u8]) -> (r: Option<Frame>)
    ensures
        frame_option_view(r) == decoded_line(line@),
        forall|m: FrameView| #[trigger] encoded_line(m) == line@ ==> r is Some && r->Some_0@ == m,
{
    if bytes_equal(line, unit_line_bytes(disconnect_tag_bytes()).as_slice()) {
        proof {
            assert forall|m: FrameView| #[trigger] encoded_line(m) == line@
                implies m == FrameView::Disconnect by { lemma_line_shape(m); }
        }
        return Some(Frame::Disconnect);
    }
    if bytes_equal(line, unit_line_bytes(ping_tag_bytes()).as_slice()) {
        proof {
            assert forall|m: FrameView| #[trigger] encoded_line(m) == line@
                implies m == FrameView::Ping by { lemma_line_shape(m); }
        }
        return Some(Frame::Ping);
    }
    if bytes_equal(line, unit_line_bytes(ack_tag_bytes()).as_slice()) {
        proof {
            assert forall|m: FrameView| #[trigger] encoded_line(m) == line@
                implies m == FrameView::Ack by { lemma_line_shape(m); }
        }
        return Some(Frame::Ack);
    }
    let connect = envelope_open_bytes(connect_tag_bytes(), id_field_bytes());
    if is_enveloped(line, connect.as_slice()) {
        let body = vstd::slice::slice_subrange(line, connect.len(), line.len() - 2);
        let parsed = string_payload(body);
        proof {
            assert forall|m: FrameView| #[trigger] encoded_line(m) == line@
                implies parsed is Some && (FrameView::Connect { id: parsed->Some_0@ }) == m by {
                lemma_line_shape(m);
            }
        }
        return match parsed {
            Some(id) => Some(Frame::Connect { id }),
            None => None,
        };
    }
    let text = envelope_open_bytes(text_tag_bytes(), content_field_bytes());
    if is_enveloped(line, text.as_slice()) {
        let body = vstd::slice::slice_subrange(line, text.len(), line.len() - 2);
        let parsed = string_payload(body);
        proof {
            assert forall|m: FrameView| #[trigger] encoded_line(m) == line@
                implies parsed is Some && (FrameView::Text { content: parsed->Some_0@ }) == m by {
                lemma_line_shape(m);
            }
        }
        return match parsed {
            Some(content) => Some(Frame::Text { content }),
            None => None,
        };
    }
    let binary = envelope_open_bytes(binary_tag_bytes(), content_field_bytes());
    if is_enveloped(line, binary.as_slice()) {
        let body = vstd::slice::slice_subrange(line, binary.len(), line.len() - 2);
        let parsed = byte_payload(body);
        proof {
            assert forall|m: FrameView| #[trigger] encoded_line(m) == line@
                implies parsed is Some && (FrameView::Binary { content: parsed->Some_0@ }) == m by {
                lemma_line_shape(m);
            }
        }
        return match parsed {
            Some(content) => Some(Frame::Binary { content }),
            None => None,
        };
    }
    proof {
        assert forall|m: FrameView| #[trigger] encoded_line(m) == line@ implies false by {
            lemma_line_shape(m);
        }
    }
    None
}

} // verus!
