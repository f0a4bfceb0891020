use vstd::prelude::*;
use vstd::utf8::*;

use crate::protocol::{
    MessageView, SipHeader, SipMessage, SipMethod, StatusCode, headers_view, message_headers,
    method_name,
};

verus! {

pub const HTAB: u8 = 9;
pub const LF: u8 = 10;
pub const CR: u8 = 13;
pub const SP: u8 = 32;
pub const COLON: u8 = 58;

/// How a parse that did not succeed failed.
#[derive(Debug, Clone, Copy, PartialEq, Eq, Structural)]
pub enum ParseFailure {
    /// The bytes match no message shape.
    Malformed,
    /// The bytes are a valid beginning, but end before a production that needs more.
    Incomplete,
}

/// The protocol version text `SIP/2.0`.
pub open spec fn version() -> Seq<u8> {
    seq![83u8, 73, 80, 47, 50, 46, 48]
}

pub open spec fn crlf() -> Seq<u8> {
    seq![CR, LF]
}

pub open spec fn is_alphanumeric(c: u8) -> bool {
    (48 <= c <= 57) || (65 <= c <= 90) || (97 <= c <= 122)
}

/// A byte of a header name: a letter, a digit, or one of - . ! % * _ + ` ' ~
pub open spec fn is_token_byte(c: u8) -> bool {
    is_alphanumeric(c) || c == 45 || c == 46 || c == 33 || c == 37 || c == 42 || c == 95 || c
        == 43 || c == 96 || c == 39 || c == 126
}

/// The classes of bytes that the grammar reads in runs.
#[derive(Debug, Clone, Copy, PartialEq, Eq, Structural)]
pub enum ByteClass {
    /// Header name bytes.
    Token,
    /// Reason phrase bytes: those of a token, and the space.
    Reason,
    /// Space and horizontal tab.
    Blank,
    /// Anything but a carriage return or a line feed.
    Text,
    /// Anything but a space.
    NotSpace,
    /// The decimal digits.
    Digit,
}

pub open spec fn in_class(cls: ByteClass, c: u8) -> bool {
    match cls {
        ByteClass::Token => is_token_byte(c),
        ByteClass::Reason => is_token_byte(c) || c == SP,
        ByteClass::Blank => c == SP || c == HTAB,
        ByteClass::Text => c != CR && c != LF,
        ByteClass::NotSpace => c != SP,
        ByteClass::Digit => 48 <= c <= 57,
    }
}

/// The end of the longest run of bytes of `cls` that starts at `i`.
pub open spec fn run_end(b: Seq<u8>, i: int, cls: ByteClass) -> int
    decreases b.len() - i,
{
    if 0 <= i < b.len() && in_class(cls, b[i]) {
        run_end(b, i + 1, cls)
    } else {
        i
    }
}

/// Reads the bytes `lit` at `i`; a prefix of `lit` that runs to the end is incomplete.
pub open spec fn lit_at(b: Seq<u8>, i: int, lit: Seq<u8>) -> Result<int, ParseFailure> {
    if i + lit.len() <= b.len() {
        if b.subrange(i, i + lit.len()) == lit {
            Ok(i + lit.len())
        } else {
            Err(ParseFailure::Malformed)
        }
    } else if b.subrange(i, b.len() as int) == lit.subrange(0, b.len() - i) {
        Err(ParseFailure::Incomplete)
    } else {
        Err(ParseFailure::Malformed)
    }
}

/// A line terminator at `i`: a line feed, or a carriage return and a line feed.
pub open spec fn line_end_at(b: Seq<u8>, i: int) -> Result<int, ParseFailure> {
    let n = b.len();
    if i < n && b[i] == LF {
        Ok(i + 1)
    } else if n - i >= 2 && b[i] == CR && b[i + 1] == LF {
        Ok(i + 2)
    } else if i == n || (n - i == 1 && b[i] == CR) {
        Err(ParseFailure::Incomplete)
    } else {
        Err(ParseFailure::Malformed)
    }
}

/// Skips one line terminator at `i`, if there is one.
pub open spec fn skip_line_end(b: Seq<u8>, i: int) -> int {
    match line_end_at(b, i) {
        Ok(j) => j,
        Err(_) => i,
    }
}

/// The text that the bytes from `i` to `j` encode, if they are valid UTF-8.
pub open spec fn text_of(b: Seq<u8>, i: int, j: int) -> Option<Seq<char>> {
    if valid_utf8(b.subrange(i, j)) {
        Some(decode_utf8(b.subrange(i, j)))
    } else {
        None
    }
}

/// The method that position `k` of the fixed trial order names.
pub open spec fn method_by_index(k: int) -> SipMethod {
    if k == 0 {
        SipMethod::Invite
    } else if k == 1 {
        SipMethod::Ack
    } else if k == 2 {
        SipMethod::Bye
    } else if k == 3 {
        SipMethod::Cancel
    } else if k == 4 {
        SipMethod::Register
    } else if k == 5 {
        SipMethod::Options
    } else if k == 6 {
        SipMethod::Prack
    } else if k == 7 {
        SipMethod::Subscribe
    } else if k == 8 {
        SipMethod::Notify
    } else if k == 9 {
        SipMethod::Publish
    } else if k == 10 {
        SipMethod::Info
    } else if k == 11 {
        SipMethod::Refer
    } else if k == 12 {
        SipMethod::Message
    } else {
        SipMethod::Update
    }
}

pub const METHOD_COUNT: usize = 14;

/// Tries the method names from position `k` of the trial order on: the first that
/// matches wins, and the first that runs out of input makes the read incomplete.
pub open spec fn method_from(b: Seq<u8>, i: int, k: int) -> Result<(SipMethod, int), ParseFailure>
    decreases METHOD_COUNT - k,
{
    if k < 0 || k >= METHOD_COUNT {
        Err(ParseFailure::Malformed)
    } else {
        let m = method_by_index(k);
        match lit_at(b, i, method_name(m)) {
            Ok(j) => Ok((m, j)),
            Err(ParseFailure::Incomplete) => Err(ParseFailure::Incomplete),
            Err(ParseFailure::Malformed) => method_from(b, i, k + 1),
        }
    }
}

/// A method name at `i`.
pub open spec fn method_at(b: Seq<u8>, i: int) -> Result<(SipMethod, int), ParseFailure> {
    method_from(b, i, 0)
}

/// A header line without its terminator at `i`: a token, a colon, optional blanks,
/// and the value up to the end of the line.
pub open spec fn header_at(b: Seq<u8>, i: int) -> Result<((Seq<char>, Seq<char>), int), ParseFailure> {
    let t = run_end(b, i, ByteClass::Token);
    if t == i {
        if i == b.len() {
            Err(ParseFailure::Incomplete)
        } else {
            Err(ParseFailure::Malformed)
        }
    } else if t == b.len() {
        Err(ParseFailure::Incomplete)
    } else if b[t] != COLON {
        Err(ParseFailure::Malformed)
    } else {
        let v = run_end(b, t + 1, ByteClass::Blank);
        let e = run_end(b, v, ByteClass::Text);
        match (text_of(b, i, t), text_of(b, v, e)) {
            (Some(name), Some(value)) => Ok(((name, value), e)),
            _ => Err(ParseFailure::Malformed),
        }
    }
}

/// The headers that follow a header ending at `i`, each after a line terminator; the
/// list ends, before its terminator, at the first line that is not a complete header.
/// Also gives where the list ends.
pub open spec fn headers_from(b: Seq<u8>, i: int) -> (Seq<(Seq<char>, Seq<char>)>, int)
    decreases b.len() - i,
{
    match line_end_at(b, i) {
        Ok(k) => match header_at(b, k) {
            Ok((h, e)) => if i < e <= b.len() {
                let (rest, end) = headers_from(b, e);
                (seq![h] + rest, end)
            } else {
                (Seq::empty(), i)
            },
            Err(_) => (Seq::empty(), i),
        },
        Err(_) => (Seq::empty(), i),
    }
}

/// One or more headers at `i`, then at most two line terminators; gives the headers
/// and where the body starts.
pub open spec fn header_block_at(b: Seq<u8>, i: int) -> Result<(Seq<(Seq<char>, Seq<char>)>, int), ParseFailure> {
    match header_at(b, i) {
        Err(e) => Err(e),
        Ok((h, e)) => {
            let (rest, end) = headers_from(b, e);
            Ok((seq![h] + rest, skip_line_end(b, skip_line_end(b, end))))
        },
    }
}

/// The value of three decimal digit bytes.
pub open spec fn three_digit_value(d0: u8, d1: u8, d2: u8) -> u16 {
    ((d0 - 48) * 100 + (d1 - 48) * 10 + (d2 - 48)) as u16
}

/// A status code at `i`: exactly three decimal digits.
pub open spec fn status_code_at(b: Seq<u8>, i: int) -> Result<(u16, int), ParseFailure> {
    if i + 3 <= b.len() {
        if in_class(ByteClass::Digit, b[i]) && in_class(ByteClass::Digit, b[i + 1]) && in_class(
            ByteClass::Digit,
            b[i + 2],
        ) {
            Ok((three_digit_value(b[i], b[i + 1], b[i + 2]), i + 3))
        } else {
            Err(ParseFailure::Malformed)
        }
    } else if run_end(b, i, ByteClass::Digit) == b.len() {
        Err(ParseFailure::Incomplete)
    } else {
        Err(ParseFailure::Malformed)
    }
}

/// A request: method, space, request URI (all up to the next space), space, version,
/// line terminator, header block, and the rest as the body.
pub open spec fn request_at(b: Seq<u8>) -> Result<MessageView, ParseFailure> {
    match method_at(b, 0) {
        Err(e) => Err(e),
        Ok((method, i1)) => match lit_at(b, i1, seq![SP]) {
            Err(e) => Err(e),
            Ok(i2) => {
                let i3 = run_end(b, i2, ByteClass::NotSpace);
                if i3 == b.len() {
                    Err(ParseFailure::Incomplete)
                } else {
                    match text_of(b, i2, i3) {
                        None => Err(ParseFailure::Malformed),
                        Some(uri) => match lit_at(b, i3 + 1, version()) {
                            Err(e) => Err(e),
                            Ok(i4) => match line_end_at(b, i4) {
                                Err(e) => Err(e),
                                Ok(i5) => match header_block_at(b, i5) {
                                    Err(e) => Err(e),
                                    Ok((headers, i6)) => match text_of(b, i6, b.len() as int) {
                                        None => Err(ParseFailure::Malformed),
                                        Some(body) => Ok(
                                            MessageView::Request {
                                                method,
                                                request_uri: uri,
                                                headers,
                                                body,
                                            },
                                        ),
                                    },
                                },
                            },
                        },
                    }
                }
            },
        },
    }
}

/// A response: version, space, status code, space, reason phrase, line terminator,
/// header block, and the rest as the body.
pub open spec fn response_at(b: Seq<u8>) -> Result<MessageView, ParseFailure> {
    match lit_at(b, 0, version()) {
        Err(e) => Err(e),
        Ok(i1) => match lit_at(b, i1, seq![SP]) {
            Err(e) => Err(e),
            Ok(i2) => match status_code_at(b, i2) {
                Err(e) => Err(e),
                Ok((code, i3)) => match lit_at(b, i3, seq![SP]) {
                    Err(e) => Err(e),
                    Ok(i4) => {
                        let i5 = run_end(b, i4, ByteClass::Reason);
                        if i5 == i4 {
                            if i4 == b.len() {
                                Err(ParseFailure::Incomplete)
                            } else {
                                Err(ParseFailure::Malformed)
                            }
                        } else {
                            match line_end_at(b, i5) {
                                Err(e) => Err(e),
                                Ok(i6) => match header_block_at(b, i6) {
                                    Err(e) => Err(e),
                                    Ok((headers, i7)) => match (
                                        text_of(b, i4, i5),
                                        text_of(b, i7, b.len() as int),
                                    ) {
                                        (Some(reason), Some(body)) => Ok(
                                            MessageView::Response {
                                                status_code: code,
                                                reason_phrase: reason,
                                                headers,
                                                body,
                                            },
                                        ),
                                        _ => Err(ParseFailure::Malformed),
                                    },
                                },
                            }
                        }
                    },
                },
            },
        },
    }
}

/// A whole datagram: a request, else a response, else exactly one of the two
/// keep-alive forms. Bytes after a keep-alive form make the datagram malformed.
pub open spec fn message_at(b: Seq<u8>) -> Result<MessageView, ParseFailure> {
    match request_at(b) {
        Ok(m) => Ok(m),
        Err(ParseFailure::Incomplete) => Err(ParseFailure::Incomplete),
        Err(ParseFailure::Malformed) => match response_at(b) {
            Ok(m) => Ok(m),
            Err(ParseFailure::Incomplete) => Err(ParseFailure::Incomplete),
            Err(ParseFailure::Malformed) => if b == crlf() + crlf() {
                Ok(MessageView::ClientKeepAlive)
            } else if b == crlf() {
                Ok(MessageView::ServerKeepAlive)
            } else {
                Err(ParseFailure::Malformed)
            },
        },
    }
}

/// True when every header of `hs` is of the kind read from the wire.
pub open spec fn all_read_from_wire(hs: Seq<SipHeader>) -> bool {
    forall|i: int| 0 <= i < hs.len() ==> #[trigger] hs[i] is Header
}

/// A parse result, with the message read through its view.
pub open spec fn message_result(r: Result<SipMessage<String>, ParseFailure>) -> Result<MessageView, ParseFailure> {
    match r {
        Ok(m) => Ok(m@),
        Err(e) => Err(e),
    }
}

pub open spec fn position(r: Result<usize, ParseFailure>) -> Result<int, ParseFailure> {
    match r {
        Ok(j) => Ok(j as int),
        Err(e) => Err(e),
    }
}


fn token_byte(c: u8) -> (r: bool)
    ensures
        r == is_token_byte(c),
{
    (48 <= c && c <= 57) || (65 <= c && c <= 90) || (97 <= c && c <= 122) || c == 45 || c == 46
        || c == 33 || c == 37 || c == 42 || c == 95 || c == 43 || c == 96 || c == 39 || c == 126
}

fn byte_in_class(cls: ByteClass, c: u8) -> (r: bool)
    ensures
        r == in_class(cls, c),
{
    match cls {
        ByteClass::Token => token_byte(c),
        ByteClass::Reason => token_byte(c) || c == SP,
        ByteClass::Blank => c == SP || c == HTAB,
        ByteClass::Text => c != CR && c != LF,
        ByteClass::NotSpace => c != SP,
        ByteClass::Digit => 48 <= c && c <= 57,
    }
}

/// The end of the longest run of bytes of `cls` that starts at `i`.
pub fn scan_run(b: &[u8], i: usize, cls: ByteClass) -> (j: usize)
    requires
        i <= b@.len(),
    ensures
        j == run_end(b@, i as int, cls),
        i <= j <= b@.len(),
{
    let mut j = i;
    while j < b.len() && byte_in_class(cls, b[j])
        invariant
            i <= j <= b@.len(),
            run_end(b@, i as int, cls) == run_end(b@, j as int, cls),
        decreases b@.len() - j,
    {
        j += 1;
    }
    j
}

fn match_lit(b: &[u8], i: usize, lit: &[u8]) -> (r: Result<usize, ParseFailure>)
    requires
        i <= b@.len(),
    ensures
        position(r) == lit_at(b@, i as int, lit@),
        r matches Ok(j) ==> i <= j <= b@.len(),
{
    let n = b.len();
    let mut k: usize = 0;
    while k < lit.len()
        invariant
            n == b@.len(),
            i <= b@.len(),
            k <= lit@.len(),
            i + k <= b@.len(),
            forall|t: int| 0 <= t < k ==> b@[i + t] == lit@[t],
        decreases lit@.len() - k,
    {
        if k == n - i {
            assert(b@.subrange(i as int, b@.len() as int) =~= lit@.subrange(0, b@.len() - i));
            return Err(ParseFailure::Incomplete);
        }
        if b[i + k] != lit[k] {
            proof {
                if i + lit@.len() <= b@.len() {
                    assert(b@.subrange(i as int, i + lit@.len())[k as int] != lit@[k as int]);
                } else {
                    assert(b@.subrange(i as int, b@.len() as int)[k as int] != lit@.subrange(
                        0,
                        b@.len() - i,
                    )[k as int]);
                }
            }
            return Err(ParseFailure::Malformed);
        }
        k += 1;
    }
    assert(b@.subrange(i as int, i + lit@.len()) =~= lit@);
    Ok(i + k)
}

fn line_end(b: &[u8], i: usize) -> (r: Result<usize, ParseFailure>)
    requires
        i <= b@.len(),
    ensures
        position(r) == line_end_at(b@, i as int),
        r matches Ok(j) ==> i < j <= b@.len(),
{
    let n = b.len();
    if i < n && b[i] == LF {
        Ok(i + 1)
    } else if n - i >= 2 && b[i] == CR && b[i + 1] == LF {
        Ok(i + 2)
    } else if i == n || (n - i == 1 && b[i] == CR) {
        Err(ParseFailure::Incomplete)
    } else {
        Err(ParseFailure::Malformed)
    }
}

fn skip_line(b: &[u8], i: usize) -> (j: usize)
    requires
        i <= b@.len(),
    ensures
        j == skip_line_end(b@, i as int),
        i <= j <= b@.len(),
{
    match line_end(b, i) {
        Ok(j) => j,
        Err(_) => i,
    }
}

/// Relies on std's `str::from_utf8`: it accepts exactly the valid UTF-8 byte
/// sequences, and the text it gives is the one those bytes encode.
#[verifier::external_body]
fn utf8_text(b: &[u8]) -> (r: Option<String>)
    ensures
        match r {
            Some(s) => valid_utf8(b@) && s@ == decode_utf8(b@),
            None => !valid_utf8(b@),
        },
{
    match std::str::from_utf8(b) {
        Ok(s) => Some(s.to_owned()),
        Err(_) => None,
    }
}

fn text_between(b: &[u8], i: usize, j: usize) -> (r: Option<String>)
    requires
        i <= j <= b@.len(),
    ensures
        match r {
            Some(s) => text_of(b@, i as int, j as int) == Some(s@),
            None => text_of(b@, i as int, j as int) == None::<Seq<char>>,
        },
{
    utf8_text(&b[i..j])
}

fn method_at_index(k: usize) -> (m: SipMethod)
    ensures
        m == method_by_index(k as int),
{
    match k {
        0 => SipMethod::Invite,
        1 => SipMethod::Ack,
        2 => SipMethod::Bye,
        3 => SipMethod::Cancel,
        4 => SipMethod::Register,
        5 => SipMethod::Options,
        6 => SipMethod::Prack,
        7 => SipMethod::Subscribe,
        8 => SipMethod::Notify,
        9 => SipMethod::Publish,
        10 => SipMethod::Info,
        11 => SipMethod::Refer,
        12 => SipMethod::Message,
        _ => SipMethod::Update,
    }
}

fn method_prefix(b: &[u8], i: usize) -> (r: Result<(SipMethod, usize), ParseFailure>)
    requires
        i <= b@.len(),
    ensures
        match r {
            Ok((m, j)) => method_at(b@, i as int) == Ok::<(SipMethod, int), ParseFailure>((m, j as int)) && i <= j <= b@.len(),
            Err(e) => method_at(b@, i as int) == Err::<(SipMethod, int), ParseFailure>(e),
        },
{
    let mut k: usize = 0;
    while k < METHOD_COUNT
        invariant
            i <= b@.len(),
            k <= METHOD_COUNT,
            method_at(b@, i as int) == method_from(b@, i as int, k as int),
        decreases METHOD_COUNT - k,
    {
        let m = method_at_index(k);
        match match_lit(b, i, m.name_bytes()) {
            Ok(j) => {
                return Ok((m, j));
            },
            Err(ParseFailure::Incomplete) => {
                return Err(ParseFailure::Incomplete);
            },
            Err(ParseFailure::Malformed) => {},
        }
        k += 1;
    }
    Err(ParseFailure::Malformed)
}

fn header_prefix(b: &[u8], i: usize) -> (r: Result<(SipHeader, usize), ParseFailure>)
    requires
        i <= b@.len(),
    ensures
        match r {
            Ok((h, j)) => header_at(b@, i as int) == Ok::<((Seq<char>, Seq<char>), int), ParseFailure>((h@, j as int)) && i < j <= b@.len()
                && h is Header,
            Err(e) => header_at(b@, i as int) == Err::<((Seq<char>, Seq<char>), int), ParseFailure>(e),
        },
{
    let t = scan_run(b, i, ByteClass::Token);
    if t == i {
        if i == b.len() {
            return Err(ParseFailure::Incomplete);
        } else {
            return Err(ParseFailure::Malformed);
        }
    } else if t == b.len() {
        return Err(ParseFailure::Incomplete);
    } else if b[t] != COLON {
        return Err(ParseFailure::Malformed);
    }
    let v = scan_run(b, t + 1, ByteClass::Blank);
    let e = scan_run(b, v, ByteClass::Text);
    match (text_between(b, i, t), text_between(b, v, e)) {
        (Some(name), Some(value)) => Ok((SipHeader::Header(name, value), e)),
        _ => Err(ParseFailure::Malformed),
    }
}

fn header_block(b: &[u8], i: usize) -> (r: Result<(Vec<SipHeader>, usize), ParseFailure>)
    requires
        i <= b@.len(),
    ensures
        match r {
            Ok((hs, j)) => header_block_at(b@, i as int) == Ok::<(Seq<(Seq<char>, Seq<char>)>, int), ParseFailure>((headers_view(hs@), j as int)) && j <= b@.len()
                && all_read_from_wire(hs@),
            Err(e) => header_block_at(b@, i as int) == Err::<(Seq<(Seq<char>, Seq<char>)>, int), ParseFailure>(e),
        },
{
    let (first, e) = match header_prefix(b, i) {
        Ok(p) => p,
        Err(err) => {
            return Err(err);
        },
    };
    let ghost h0 = first@;
    let mut hs: Vec<SipHeader> = Vec::new();
    hs.push(first);
    let mut pos = e;
    loop
        invariant
            e <= pos <= b@.len(),
            all_read_from_wire(hs@),
            headers_view(hs@) + headers_from(b@, pos as int).0 == seq![h0] + headers_from(b@, e as int).0,
            headers_from(b@, pos as int).1 == headers_from(b@, e as int).1,
        ensures
            e <= pos <= b@.len(),
            all_read_from_wire(hs@),
            headers_view(hs@) + headers_from(b@, pos as int).0 == seq![h0] + headers_from(b@, e as int).0,
            headers_from(b@, pos as int).1 == headers_from(b@, e as int).1,
            headers_from(b@, pos as int) == (Seq::<(Seq<char>, Seq<char>)>::empty(), pos as int),
        decreases b@.len() - pos,
    {
        let k = match line_end(b, pos) {
            Ok(k) => k,
            Err(_) => {
                break;
            },
        };
        let (h, next) = match header_prefix(b, k) {
            Ok(p) => p,
            Err(_) => {
                break;
            },
        };
        let ghost hv = h@;
        let ghost before = headers_view(hs@);
        hs.push(h);
        assert(headers_view(hs@) =~= before.push(hv));
        assert(headers_from(b@, pos as int).0 == seq![hv] + headers_from(b@, next as int).0);
        assert(before.push(hv) + headers_from(b@, next as int).0 =~= before + (seq![hv] + headers_from(b@, next as int).0));
        pos = next;
    }
    assert(headers_view(hs@) =~= seq![h0] + headers_from(b@, e as int).0);
    let body_start = skip_line(b, skip_line(b, pos));
    Ok((hs, body_start))
}


fn status_code_prefix(b: &[u8], i: usize) -> (r: Result<(u16, usize), ParseFailure>)
    requires
        i <= b@.len(),
    ensures
        match r {
            Ok((c, j)) => status_code_at(b@, i as int) == Ok::<(u16, int), ParseFailure>((c, j as int)) && i <= j <= b@.len(),
            Err(e) => status_code_at(b@, i as int) == Err::<(u16, int), ParseFailure>(e),
        },
{
    if b.len() - i >= 3 {
        if byte_in_class(ByteClass::Digit, b[i]) && byte_in_class(ByteClass::Digit, b[i + 1])
            && byte_in_class(ByteClass::Digit, b[i + 2]) {
            let code = (b[i] as u16 - 48) * 100 + (b[i + 1] as u16 - 48) * 10 + (b[i + 2] as u16
                - 48);
            Ok((code, i + 3))
        } else {
            Err(ParseFailure::Malformed)
        }
    } else if scan_run(b, i, ByteClass::Digit) == b.len() {
        Err(ParseFailure::Incomplete)
    } else {
        Err(ParseFailure::Malformed)
    }
}

/// Reads a status code from the first three bytes of `input`: three decimal digits
/// `d0 d1 d2` give `d0 * 100 + d1 * 10 + d2`. Gives the code and the number of bytes
/// it took, always 3; what follows is left for the next rule.
pub fn parse_response_code(input: &[u8]) -> (r: Result<(u16, usize), ParseFailure>)
    ensures
        match r {
            Ok((c, j)) => status_code_at(input@, 0) == Ok::<(u16, int), ParseFailure>((c, j as int)),
            Err(e) => status_code_at(input@, 0) == Err::<(u16, int), ParseFailure>(e),
        },
        r matches Ok((c, j)) ==> j == 3 && c == three_digit_value(input@[0], input@[1], input@[2])
            && c <= 999,
{
    status_code_prefix(input, 0)
}

/// The method whose name makes up all of `input`.
pub open spec fn method_text_of(input: Seq<u8>) -> Result<SipMethod, ParseFailure> {
    match method_at(input, 0) {
        Ok((m, j)) => if j == input.len() {
            Ok(m)
        } else {
            Err(ParseFailure::Malformed)
        },
        Err(e) => Err(e),
    }
}

/// Reads a method name that makes up all of `input`.
pub fn parse_method(input: &[u8]) -> (r: Result<SipMethod, ParseFailure>)
    ensures
        r == method_text_of(input@),
{
    match method_prefix(input, 0) {
        Ok((m, j)) => if j == input.len() {
            Ok(m)
        } else {
            Err(ParseFailure::Malformed)
        },
        Err(e) => Err(e),
    }
}

/// Reads one header line at the start of `input`, without its line terminator; gives
/// the header and the number of bytes it took.
pub fn parse_header(input: &[u8]) -> (r: Result<(SipHeader, usize), ParseFailure>)
    ensures
        match r {
            Ok((h, j)) => header_at(input@, 0) == Ok::<((Seq<char>, Seq<char>), int), ParseFailure>((h@, j as int)),
            Err(e) => header_at(input@, 0) == Err::<((Seq<char>, Seq<char>), int), ParseFailure>(e),
        },
{
    header_prefix(input, 0)
}

/// Reads `input` as a request.
pub fn parse_request(input: &[u8]) -> (r: Result<SipMessage<String>, ParseFailure>)
    ensures
        r matches Ok(m) ==> all_read_from_wire(message_headers(m)),
        message_result(r) == request_at(input@),
{
    let b = input;
    let (method, i1) = match method_prefix(b, 0) {
        Ok(p) => p,
        Err(e) => {
            return Err(e);
        },
    };
    let i2 = match match_lit(b, i1, space_bytes()) {
        Ok(j) => j,
        Err(e) => {
            return Err(e);
        },
    };
    let i3 = scan_run(b, i2, ByteClass::NotSpace);
    if i3 == b.len() {
        return Err(ParseFailure::Incomplete);
    }
    let request_uri = match text_between(b, i2, i3) {
        Some(t) => t,
        None => {
            return Err(ParseFailure::Malformed);
        },
    };
    let i4 = match match_lit(b, i3 + 1, version_bytes()) {
        Ok(j) => j,
        Err(e) => {
            return Err(e);
        },
    };
    let i5 = match line_end(b, i4) {
        Ok(j) => j,
        Err(e) => {
            return Err(e);
        },
    };
    let (headers, i6) = match header_block(b, i5) {
        Ok(p) => p,
        Err(e) => {
            return Err(e);
        },
    };
    let body = match text_between(b, i6, b.len()) {
        Some(t) => t,
        None => {
            return Err(ParseFailure::Malformed);
        },
    };
    Ok(SipMessage::SipRequest { method, request_uri, headers, body })
}

/// Reads `input` as a response.
pub fn parse_response(input: &[u8]) -> (r: Result<SipMessage<String>, ParseFailure>)
    ensures
        r matches Ok(m) ==> all_read_from_wire(message_headers(m)),
        message_result(r) == response_at(input@),
{
    let b = input;
    let i1 = match match_lit(b, 0, version_bytes()) {
        Ok(j) => j,
        Err(e) => {
            return Err(e);
        },
    };
    let i2 = match match_lit(b, i1, space_bytes()) {
        Ok(j) => j,
        Err(e) => {
            return Err(e);
        },
    };
    let (code, i3) = match status_code_prefix(b, i2) {
        Ok(p) => p,
        Err(e) => {
            return Err(e);
        },
    };
    let i4 = match match_lit(b, i3, space_bytes()) {
        Ok(j) => j,
        Err(e) => {
            return Err(e);
        },
    };
    let i5 = scan_run(b, i4, ByteClass::Reason);
    if i5 == i4 {
        if i4 == b.len() {
            return Err(ParseFailure::Incomplete);
        } else {
            return Err(ParseFailure::Malformed);
        }
    }
    let i6 = match line_end(b, i5) {
        Ok(j) => j,
        Err(e) => {
            return Err(e);
        },
    };
    let (headers, i7) = match header_block(b, i6) {
        Ok(p) => p,
        Err(e) => {
            return Err(e);
        },
    };
    match (text_between(b, i4, i5), text_between(b, i7, b.len())) {
        (Some(reason_phrase), Some(body)) => Ok(
            SipMessage::SipResponse { status_code: StatusCode(code), reason_phrase, headers, body },
        ),
        _ => Err(ParseFailure::Malformed),
    }
}

/// Reads one datagram: a request, else a response, else exactly one of the two
/// keep-alive forms (two line terminators from a client, one from a server). Bytes
/// after a keep-alive form make the datagram malformed.
pub fn parse_message(input: &[u8]) -> (r: Result<SipMessage<String>, ParseFailure>)
    ensures
        r matches Ok(m) ==> all_read_from_wire(message_headers(m)),
        message_result(r) == message_at(input@),
{
    match parse_request(input) {
        Ok(m) => {
            return Ok(m);
        },
        Err(ParseFailure::Incomplete) => {
            return Err(ParseFailure::Incomplete);
        },
        Err(ParseFailure::Malformed) => {},
    }
    match parse_response(input) {
        Ok(m) => {
            return Ok(m);
        },
        Err(ParseFailure::Incomplete) => {
            return Err(ParseFailure::Incomplete);
        },
        Err(ParseFailure::Malformed) => {},
    }
    if input.len() == 4 && input[0] == CR && input[1] == LF && input[2] == CR && input[3] == LF {
        assert(input@ =~= crlf() + crlf());
        Ok(SipMessage::ClientKeepAlive)
    } else if input.len() == 2 && input[0] == CR && input[1] == LF {
        assert(input@ =~= crlf());
        Ok(SipMessage::ServerKeepAlive)
    } else {
        proof {
            if input@ == crlf() + crlf() {
                assert(input@[0] == CR && input@[1] == LF && input@[2] == CR && input@[3] == LF);
            }
            if input@ == crlf() {
                assert(input@[0] == CR && input@[1] == LF);
            }
        }
        Err(ParseFailure::Malformed)
    }
}

fn space_bytes() -> (r: &'static [u8])
    ensures
        r@ == seq![SP],
{
    &[32u8]
}

fn version_bytes() -> (r: &'static [u8])
    ensures
        r@ == version(),
{
    &[83u8, 73, 80, 47, 50, 46, 48]
}

} // verus!
