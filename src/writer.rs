use vstd::prelude::*;
use vstd::string::*;
use vstd::utf8::*;

use crate::parser::{COLON, SP, crlf, version};
use crate::protocol::{MessageView, SipHeader, SipMessage, headers_view, method_name};

verus! {

/// The bytes of one header line: name, colon, space, value, line terminator.
pub open spec fn header_bytes(h: (Seq<char>, Seq<char>)) -> Seq<u8> {
    encode_utf8(h.0) + seq![COLON, SP] + encode_utf8(h.1) + crlf()
}

/// The header lines of `hs`, in order.
pub open spec fn headers_bytes(hs: Seq<(Seq<char>, Seq<char>)>) -> Seq<u8>
    decreases hs.len(),
{
    if hs.len() == 0 {
        Seq::empty()
    } else {
        headers_bytes(hs.drop_last()) + header_bytes(hs.last())
    }
}

/// The decimal digits of `n` as ASCII bytes, without leading zeros.
pub open spec fn decimal_digits(n: nat) -> Seq<u8>
    decreases n,
{
    if n < 10 {
        seq![(48 + n) as u8]
    } else {
        decimal_digits(n / 10).push((48 + n % 10) as u8)
    }
}

/// The wire form of a message. Every line ends in a carriage return and a line feed;
/// a blank line separates the headers from the body, which follows verbatim.
pub open spec fn render(m: MessageView) -> Seq<u8> {
    match m {
        MessageView::Request { method, request_uri, headers, body } => method_name(method)
            + seq![SP] + encode_utf8(request_uri) + seq![SP] + version() + crlf()
            + headers_bytes(headers) + crlf() + encode_utf8(body),
        MessageView::Response { status_code, reason_phrase, headers, body } => version() + seq![SP]
            + decimal_digits(status_code as nat) + seq![SP] + encode_utf8(reason_phrase) + crlf()
            + headers_bytes(headers) + crlf() + encode_utf8(body),
        MessageView::ClientKeepAlive => crlf() + crlf(),
        MessageView::ServerKeepAlive => crlf(),
    }
}

/// Appends the bytes `s` to `out`.
pub fn push_bytes(out: &mut Vec<u8>, s: &[u8])
    ensures
        final(out)@ == old(out)@ + s@,
{
    let mut i: usize = 0;
    while i < s.len()
        invariant
            i <= s@.len(),
            out@ == old(out)@ + s@.subrange(0, i as int),
        decreases s@.len() - i,
    {
        out.push(s[i]);
        assert(s@.subrange(0, i + 1) =~= s@.subrange(0, i as int).push(s@[i as int]));
        i += 1;
    }
    assert(s@.subrange(0, s@.len() as int) =~= s@);
}

fn push_text(out: &mut Vec<u8>, s: &str)
    ensures
        final(out)@ == old(out)@ + encode_utf8(s@),
{
    push_bytes(out, s.as_bytes());
}

fn push_line_end(out: &mut Vec<u8>)
    ensures
        final(out)@ == old(out)@ + crlf(),
{
    out.push(13);
    out.push(10);
    assert(out@ =~= old(out)@ + crlf());
}

/// Appends the decimal digits of `n` to `out`.
pub fn push_decimal_bytes(out: &mut Vec<u8>, n: u32)
    ensures
        final(out)@ == old(out)@ + decimal_digits(n as nat),
    decreases n,
{
    if n >= 10 {
        push_decimal_bytes(out, n / 10);
    }
    out.push((48 + n % 10) as u8);
}

/// Appends one header line to `out`.
pub fn write_header(h: &SipHeader, out: &mut Vec<u8>)
    ensures
        final(out)@ == old(out)@ + header_bytes(h@),
{
    push_text(out, h.name());
    out.push(COLON);
    out.push(SP);
    push_text(out, h.value());
    push_line_end(out);
    assert(out@ =~= old(out)@ + header_bytes(h@));
}

fn write_headers(headers: &Vec<SipHeader>, out: &mut Vec<u8>)
    ensures
        final(out)@ == old(out)@ + headers_bytes(headers_view(headers@)),
{
    let mut i: usize = 0;
    while i < headers.len()
        invariant
            i <= headers@.len(),
            out@ == old(out)@ + headers_bytes(headers_view(headers@.subrange(0, i as int))),
        decreases headers@.len() - i,
    {
        let ghost before = out@;
        write_header(&headers[i], out);
        proof {
            let hs = headers_view(headers@.subrange(0, i + 1));
            assert(hs.drop_last() =~= headers_view(headers@.subrange(0, i as int)));
            assert(hs.last() == headers@[i as int]@);
            assert(out@ =~= old(out)@ + headers_bytes(hs));
        }
        i += 1;
    }
    assert(headers@.subrange(0, headers@.len() as int) =~= headers@);
}

/// The wire form of `m`. A request's start line carries the protocol version after
/// the request URI, as the grammar reads it; a response has a space between its
/// status code and its reason phrase, and its body follows the blank line as a
/// request's does.
pub fn write_sip_message(m: &SipMessage<String>) -> (r: Vec<u8>)
    ensures
        r@ == render(m@),
{
    let mut out: Vec<u8> = Vec::new();
    match m {
        SipMessage::SipRequest { method, request_uri, headers, body } => {
            push_bytes(&mut out, method.name_bytes());
            out.push(SP);
            push_text(&mut out, request_uri.as_str());
            out.push(SP);
            push_bytes(&mut out, &[83u8, 73, 80, 47, 50, 46, 48]);
            push_line_end(&mut out);
            write_headers(headers, &mut out);
            push_line_end(&mut out);
            push_text(&mut out, body.as_str());
        },
        SipMessage::SipResponse { status_code, reason_phrase, headers, body } => {
            push_bytes(&mut out, &[83u8, 73, 80, 47, 50, 46, 48]);
            out.push(SP);
            push_decimal_bytes(&mut out, status_code.0 as u32);
            out.push(SP);
            push_text(&mut out, reason_phrase.as_str());
            push_line_end(&mut out);
            write_headers(headers, &mut out);
            push_line_end(&mut out);
            push_text(&mut out, body.as_str());
        },
        SipMessage::ClientKeepAlive => {
            push_line_end(&mut out);
            push_line_end(&mut out);
        },
        SipMessage::ServerKeepAlive => {
            push_line_end(&mut out);
        },
    }
    assert(out@ =~= render(m@));
    out
}

} // verus!
