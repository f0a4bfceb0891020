use vstd::prelude::*;
use vstd::utf8::*;

use crate::parser::{
    ByteClass, METHOD_COUNT, ParseFailure, in_class, lit_at, method_at, method_by_index, method_from,
    method_text_of, run_end, text_of, header_at, headers_from, header_block_at, line_end_at,
    skip_line_end, crlf, is_token_byte, COLON, SP, CR, LF, version, request_at, response_at,
    message_at, status_code_at, three_digit_value, header_block_at as block_at,
};
use crate::protocol::{
    MessageView, SipMethod, allow_name, call_id_name, contact_name, content_length_name,
    content_type_name, cseq_name, decimal_text, digit_char, from_name, invite_allow, invite_cseq,
    invite_headers, invite_user_agent, invite_via, is_call_id_text, max_forwards_name, method_name,
    to_name, user_agent_name, via_name, SipMessage, SipMessageBody, body_headers_view,
};
use crate::codec::decoded;
use crate::writer::{decimal_digits, header_bytes, headers_bytes, render};

verus! {

proof fn lemma_run_end(b: Seq<u8>, i: int, j: int, cls: ByteClass)
    requires
        0 <= i <= j <= b.len(),
        forall|k: int| i <= k < j ==> in_class(cls, #[trigger] b[k]),
        j == b.len() || !in_class(cls, b[j]),
    ensures
        run_end(b, i, cls) == j,
    decreases j - i,
{
    if i < j {
        lemma_run_end(b, i + 1, j, cls);
    }
}

proof fn lemma_lit_mismatch(b: Seq<u8>, i: int, lit: Seq<u8>, j: int)
    requires
        0 <= i <= b.len(),
        0 <= j < lit.len(),
        i + j < b.len(),
        b[i + j] != lit[j],
    ensures
        lit_at(b, i, lit) == Err::<int, ParseFailure>(ParseFailure::Malformed),
{
    if i + lit.len() <= b.len() {
        assert(b.subrange(i, i + lit.len())[j] != lit[j]);
    } else {
        assert(b.subrange(i, b.len() as int)[j] != lit.subrange(0, b.len() - i)[j]);
    }
}

/// Where `b` holds `w` from `e` on, it holds each part of `w` at the matching place.
proof fn lemma_part(b: Seq<u8>, e: int, w: Seq<u8>, a: int, c: int, x: Seq<u8>)
    requires
        0 <= e,
        e + w.len() <= b.len(),
        b.subrange(e, e + w.len()) == w,
        0 <= a <= c <= w.len(),
        w.subrange(a, c) == x,
    ensures
        b.subrange(e + a, e + c) == x,
{
    assert forall|k: int| 0 <= k < c - a implies #[trigger] b.subrange(e + a, e + c)[k] == x[k] by {
        assert(b.subrange(e, e + w.len())[a + k] == b[e + a + k]);
    }
    assert(b.subrange(e + a, e + c) =~= x);
}

proof fn lemma_text(b: Seq<u8>, i: int, s: Seq<char>)
    requires
        0 <= i,
        i + encode_utf8(s).len() <= b.len(),
        b.subrange(i, i + encode_utf8(s).len()) == encode_utf8(s),
    ensures
        text_of(b, i, i + encode_utf8(s).len()) == Some(s),
{
    encode_utf8_valid_utf8(s);
    encode_utf8_decode_utf8(s);
}

/// The position of a method in the order in which the parser tries them.
pub open spec fn method_index(m: SipMethod) -> int {
    match m {
        SipMethod::Invite => 0,
        SipMethod::Ack => 1,
        SipMethod::Bye => 2,
        SipMethod::Cancel => 3,
        SipMethod::Register => 4,
        SipMethod::Options => 5,
        SipMethod::Prack => 6,
        SipMethod::Subscribe => 7,
        SipMethod::Notify => 8,
        SipMethod::Publish => 9,
        SipMethod::Info => 10,
        SipMethod::Refer => 11,
        SipMethod::Message => 12,
        SipMethod::Update => 13,
    }
}

/// A position at which the names of two different methods differ.
proof fn name_difference(m1: SipMethod, m2: SipMethod) -> (j: int)
    requires
        m1 != m2,
    ensures
        0 <= j < method_name(m1).len(),
        j < method_name(m2).len(),
        method_name(m1)[j] != method_name(m2)[j],
{
    if method_name(m1)[0] != method_name(m2)[0] {
        0
    } else if method_name(m1)[1] != method_name(m2)[1] {
        1
    } else {
        2
    }
}

proof fn lemma_method_from(b: Seq<u8>, i: int, m: SipMethod, k: int)
    requires
        0 <= i,
        i + method_name(m).len() <= b.len(),
        b.subrange(i, i + method_name(m).len()) == method_name(m),
        0 <= k <= method_index(m),
    ensures
        method_from(b, i, k) == Ok::<(SipMethod, int), ParseFailure>((m, i + method_name(m).len())),
    decreases method_index(m) - k,
{
    let mk = method_by_index(k);
    if k == method_index(m) {
        assert(mk == m);
    } else {
        assert(mk != m);
        let j = name_difference(m, mk);
        assert(b[i + j] == b.subrange(i, i + method_name(m).len())[j]);
        lemma_lit_mismatch(b, i, method_name(mk), j);
        lemma_method_from(b, i, m, k + 1);
    }
}

proof fn lemma_method_at(b: Seq<u8>, i: int, m: SipMethod)
    requires
        0 <= i,
        i + method_name(m).len() <= b.len(),
        b.subrange(i, i + method_name(m).len()) == method_name(m),
    ensures
        method_at(b, i) == Ok::<(SipMethod, int), ParseFailure>((m, i + method_name(m).len())),
{
    lemma_method_from(b, i, m, 0);
}

/// Each method's wire text reads back as that method.
pub proof fn lemma_method_round_trip(m: SipMethod)
    ensures
        method_text_of(method_name(m)) == Ok::<SipMethod, ParseFailure>(m),
{
    let b = method_name(m);
    assert(b.subrange(0, b.len() as int) =~= b);
    lemma_method_at(b, 0, m);
}

proof fn lemma_method_from_only_names(b: Seq<u8>, k: int)
    requires
        0 <= k,
    ensures
        method_from(b, 0, k) matches Ok((m, j)) ==> j == method_name(m).len() && method_name(m).len() <= b.len()
            && b.subrange(0, j) == method_name(m),
    decreases METHOD_COUNT - k,
{
    if k < METHOD_COUNT {
        lemma_method_from_only_names(b, k + 1);
    }
}

/// Only a method's exact wire text reads as that method: any other token fails.
pub proof fn lemma_method_only_names(b: Seq<u8>, m: SipMethod)
    requires
        method_text_of(b) == Ok::<SipMethod, ParseFailure>(m),
    ensures
        b == method_name(m),
{
    lemma_method_from_only_names(b, 0);
    assert(b.subrange(0, b.len() as int) =~= b);
}


/// A text that a header name can hold: one or more token bytes.
pub open spec fn is_token_text(n: Seq<char>) -> bool {
    &&& encode_utf8(n).len() > 0
    &&& forall|k: int| 0 <= k < encode_utf8(n).len() ==> is_token_byte(#[trigger] encode_utf8(n)[k])
}

/// A text that a header value can hold and read back: no byte of it is a line break,
/// and its first byte is not a blank.
pub open spec fn is_writable_value(v: Seq<char>) -> bool {
    &&& forall|k: int| 0 <= k < encode_utf8(v).len() ==> in_class(ByteClass::Text, #[trigger] encode_utf8(v)[k])
    &&& encode_utf8(v).len() > 0 ==> !in_class(ByteClass::Blank, encode_utf8(v)[0])
}

/// A header that reads back as it is written.
pub open spec fn is_writable_header(h: (Seq<char>, Seq<char>)) -> bool {
    is_token_text(h.0) && is_writable_value(h.1)
}

pub open spec fn all_writable_headers(hs: Seq<(Seq<char>, Seq<char>)>) -> bool {
    forall|k: int| 0 <= k < hs.len() ==> is_writable_header(#[trigger] hs[k])
}

proof fn lemma_header_at(b: Seq<u8>, i: int, h: (Seq<char>, Seq<char>))
    requires
        0 <= i,
        i + header_bytes(h).len() <= b.len(),
        b.subrange(i, i + header_bytes(h).len()) == header_bytes(h),
        is_writable_header(h),
    ensures
        header_at(b, i) == Ok::<((Seq<char>, Seq<char>), int), ParseFailure>(
            (h, i + header_bytes(h).len() - 2),
        ),
{
    let n = encode_utf8(h.0);
    let v = encode_utf8(h.1);
    let hb = header_bytes(h);
    let t = i + n.len();
    let e = t + 2 + v.len();
    assert(hb == n + seq![COLON, SP] + v + crlf());
    assert forall|k: int| 0 <= k < hb.len() implies b[i + k] == hb[k] by {
        assert(b.subrange(i, i + hb.len())[k] == b[i + k]);
    }
    assert forall|k: int| i <= k < t implies is_token_byte(#[trigger] b[k]) by {
        assert(b[i + (k - i)] == hb[k - i]);
        assert(hb[k - i] == n[k - i]);
    }
    assert(b[t] == hb[n.len() as int]);
    lemma_run_end(b, i, t, ByteClass::Token);
    assert(b[t + 1] == hb[n.len() + 1 as int]);
    assert(b[t + 2] == hb[n.len() + 2 as int]);
    assert forall|k: int| t + 1 <= k < t + 2 implies in_class(ByteClass::Blank, #[trigger] b[k]) by {}
    lemma_run_end(b, t + 1, t + 2, ByteClass::Blank);
    assert forall|k: int| t + 2 <= k < e implies in_class(ByteClass::Text, #[trigger] b[k]) by {
        assert(b[i + (k - i)] == hb[k - i]);
        assert(hb[k - i] == v[k - t - 2]);
    }
    assert(b[e] == hb[e - i]);
    lemma_run_end(b, t + 2, e, ByteClass::Text);
    assert(hb.subrange(0, n.len() as int) =~= n);
    lemma_part(b, i, hb, 0, n.len() as int, n);
    let nl: int = n.len() as int;
    let vl: int = v.len() as int;
    assert(hb.subrange(nl + 2, nl + 2 + vl) =~= v);
    lemma_part(b, i, hb, nl + 2, nl + 2 + vl, v);
    lemma_text(b, i, h.0);
    lemma_text(b, t + 2, h.1);
}

proof fn lemma_headers_bytes_cons(hs: Seq<(Seq<char>, Seq<char>)>)
    requires
        hs.len() > 0,
    ensures
        headers_bytes(hs) == header_bytes(hs[0]) + headers_bytes(hs.drop_first()),
    decreases hs.len(),
{
    if hs.len() == 1 {
        assert(hs.drop_last() =~= Seq::<(Seq<char>, Seq<char>)>::empty());
        assert(hs.drop_first() =~= Seq::<(Seq<char>, Seq<char>)>::empty());
        assert(headers_bytes(hs) =~= header_bytes(hs[0]) + headers_bytes(hs.drop_first()));
    } else {
        let init = hs.drop_last();
        lemma_headers_bytes_cons(init);
        assert(init.drop_first() =~= hs.drop_first().drop_last());
        assert(hs.drop_first().last() == hs.last());
        assert(init[0] == hs[0]);
        assert(headers_bytes(hs) =~= header_bytes(hs[0]) + headers_bytes(hs.drop_first()));
    }
}

proof fn lemma_headers_bytes_last(hs: Seq<(Seq<char>, Seq<char>)>)
    requires
        hs.len() > 0,
    ensures
        headers_bytes(hs).len() >= 2,
        headers_bytes(hs).subrange(headers_bytes(hs).len() - 2, headers_bytes(hs).len() as int) == crlf(),
{
    let hb = headers_bytes(hs);
    let last = header_bytes(hs.last());
    assert(hb == headers_bytes(hs.drop_last()) + last);
    assert(last.subrange(last.len() - 2, last.len() as int) =~= crlf());
    assert(hb.subrange(hb.len() - 2, hb.len() as int) =~= crlf());
}

proof fn lemma_headers_from(b: Seq<u8>, e: int, tail: Seq<(Seq<char>, Seq<char>)>)
    requires
        0 <= e,
        e + headers_bytes(tail).len() + 4 <= b.len(),
        b.subrange(e, e + headers_bytes(tail).len() + 4) == crlf() + headers_bytes(tail) + crlf(),
        all_writable_headers(tail),
    ensures
        headers_from(b, e) == (tail, e + headers_bytes(tail).len()),
    decreases tail.len(),
{
    let hb = headers_bytes(tail);
    let w = crlf() + hb + crlf();
    assert forall|k: int| 0 <= k < w.len() implies b[e + k] == w[k] by {
        assert(b.subrange(e, e + w.len())[k] == b[e + k]);
    }
    assert(b[e] == w[0] && b[e + 1] == w[1]);
    assert(line_end_at(b, e) == Ok::<int, ParseFailure>(e + 2));
    if tail.len() == 0 {
        assert(b[e + 2] == w[2]);
        lemma_run_end(b, e + 2, e + 2, ByteClass::Token);
        assert(header_at(b, e + 2) is Err);
        assert(tail =~= Seq::<(Seq<char>, Seq<char>)>::empty());
    } else {
        let h1 = tail[0];
        let rest = tail.drop_first();
        lemma_headers_bytes_cons(tail);
        let n1: int = header_bytes(h1).len() as int;
        let hr = headers_bytes(rest);
        assert(hb == header_bytes(h1) + hr);
        assert(w.subrange(2, 2 + n1) =~= header_bytes(h1));
        lemma_part(b, e, w, 2, 2 + n1, header_bytes(h1));
        assert(is_writable_header(tail[0]));
        lemma_header_at(b, e + 2, h1);
        let e2 = e + n1;
        assert(header_bytes(h1).subrange(n1 - 2, n1 as int) =~= crlf());
        assert(w.subrange(n1, n1 + hr.len() as int + 4) =~= crlf() + hr + crlf());
        lemma_part(b, e, w, n1, n1 + hr.len() as int + 4, crlf() + hr + crlf());
        assert(all_writable_headers(rest)) by {
            assert forall|k: int| 0 <= k < rest.len() implies is_writable_header(#[trigger] rest[k]) by {
                assert(rest[k] == tail[k + 1]);
            }
        }
        lemma_headers_from(b, e2, rest);
        assert(seq![h1] + rest =~= tail);
    }
}

proof fn lemma_header_block(b: Seq<u8>, i: int, hs: Seq<(Seq<char>, Seq<char>)>)
    requires
        0 <= i,
        hs.len() > 0,
        i + headers_bytes(hs).len() + 2 <= b.len(),
        b.subrange(i, i + headers_bytes(hs).len() + 2) == headers_bytes(hs) + crlf(),
        all_writable_headers(hs),
    ensures
        header_block_at(b, i) == Ok::<(Seq<(Seq<char>, Seq<char>)>, int), ParseFailure>(
            (hs, i + headers_bytes(hs).len() + 2),
        ),
{
    let h0 = hs[0];
    let rest = hs.drop_first();
    lemma_headers_bytes_cons(hs);
    let n0: int = header_bytes(h0).len() as int;
    let hr = headers_bytes(rest);
    let hb = headers_bytes(hs);
    let w = hb + crlf();
    assert(hb == header_bytes(h0) + hr);
    assert(w.subrange(0, n0 as int) =~= header_bytes(h0));
    lemma_part(b, i, w, 0, n0 as int, header_bytes(h0));
    assert(is_writable_header(hs[0]));
    lemma_header_at(b, i, h0);
    let e = i + n0 - 2;
    assert(header_bytes(h0).subrange(n0 - 2, n0 as int) =~= crlf());
    assert(w.subrange(n0 - 2, n0 + hr.len() as int + 2) =~= crlf() + hr + crlf());
    lemma_part(b, i, w, n0 - 2, n0 + hr.len() as int + 2, crlf() + hr + crlf());
    assert(all_writable_headers(rest)) by {
        assert forall|k: int| 0 <= k < rest.len() implies is_writable_header(#[trigger] rest[k]) by {
            assert(rest[k] == hs[k + 1]);
        }
    }
    lemma_headers_from(b, e, rest);
    let end = e + hr.len();
    assert(end == i + hb.len() - 2);
    assert(w.subrange(hb.len() - 2, hb.len() as int + 2) =~= crlf() + crlf()) by {
        lemma_headers_bytes_last(hs);
    }
    lemma_part(b, i, w, hb.len() - 2, hb.len() as int + 2, crlf() + crlf());
    assert(b[end] == b.subrange(end, end + 4)[0]);
    assert(b[end + 1] == b.subrange(end, end + 4)[1]);
    assert(b[end + 2] == b.subrange(end, end + 4)[2]);
    assert(b[end + 3] == b.subrange(end, end + 4)[3]);
    assert(skip_line_end(b, end) == end + 2);
    assert(skip_line_end(b, end + 2) == end + 4);
    assert(seq![h0] + rest =~= hs);
}


/// A message that reads back as it is written. A request has a request URI without
/// a space and at least one header; a response has a three-digit status code, a
/// reason phrase of one or more token bytes or spaces, and at least one header. Every
/// header reads back as written.
pub open spec fn is_writable(m: MessageView) -> bool {
    match m {
        MessageView::Request { request_uri, headers, .. } => {
            &&& forall|k: int| 0 <= k < encode_utf8(request_uri).len()
                ==> #[trigger] encode_utf8(request_uri)[k] != SP
            &&& headers.len() > 0
            &&& all_writable_headers(headers)
        },
        MessageView::Response { status_code, reason_phrase, headers, .. } => {
            &&& 100 <= status_code <= 999
            &&& encode_utf8(reason_phrase).len() > 0
            &&& forall|k: int| 0 <= k < encode_utf8(reason_phrase).len()
                ==> in_class(ByteClass::Reason, #[trigger] encode_utf8(reason_phrase)[k])
            &&& headers.len() > 0
            &&& all_writable_headers(headers)
        },
        _ => true,
    }
}

proof fn lemma_no_method_from(b: Seq<u8>, k: int)
    requires
        0 <= k,
        b.len() >= 2,
        (b[0] == 83 && b[1] == 73) || b[0] == CR,
    ensures
        method_from(b, 0, k) == Err::<(SipMethod, int), ParseFailure>(ParseFailure::Malformed),
    decreases METHOD_COUNT - k,
{
    if k < METHOD_COUNT {
        let name = method_name(method_by_index(k));
        if b[0] != name[0] {
            lemma_lit_mismatch(b, 0, name, 0);
        } else {
            lemma_lit_mismatch(b, 0, name, 1);
        }
        lemma_no_method_from(b, k + 1);
    }
}

proof fn lemma_three_digits(c: nat)
    requires
        100 <= c <= 999,
    ensures
        decimal_digits(c) == seq![(48 + c / 100) as u8, (48 + (c / 10) % 10) as u8, (48 + c % 10) as u8],
        three_digit_value((48 + c / 100) as u8, (48 + (c / 10) % 10) as u8, (48 + c % 10) as u8) == c,
{
    assert(c / 10 / 10 == c / 100) by (nonlinear_arith)
        requires
            100 <= c <= 999,
    ;
    assert(c / 10 >= 10);
    assert(c / 100 < 10);
    assert(decimal_digits(c / 10) == decimal_digits(c / 100).push((48 + (c / 10) % 10) as u8));
    assert(decimal_digits(c) =~= seq![(48 + c / 100) as u8, (48 + (c / 10) % 10) as u8, (48 + c % 10) as u8]);
    assert((c / 100) * 100 + ((c / 10) % 10) * 10 + c % 10 == c) by (nonlinear_arith)
        requires
            100 <= c <= 999,
    ;
}

proof fn lemma_start_line(b: Seq<u8>, method: SipMethod, request_uri: Seq<char>)
    requires
        forall|k: int| 0 <= k < encode_utf8(request_uri).len()
            ==> #[trigger] encode_utf8(request_uri)[k] != SP,
        ({
            let s = method_name(method) + seq![SP] + encode_utf8(request_uri) + seq![SP] + version() + crlf();
            s.len() <= b.len() && b.subrange(0, s.len() as int) == s
        }),
    ensures
        ({
            let nl = method_name(method).len() as int;
            let ul = encode_utf8(request_uri).len() as int;
            &&& method_at(b, 0) == Ok::<(SipMethod, int), ParseFailure>((method, nl))
            &&& lit_at(b, nl, seq![SP]) == Ok::<int, ParseFailure>(nl + 1)
            &&& run_end(b, nl + 1, ByteClass::NotSpace) == nl + 1 + ul
            &&& nl + 1 + ul < b.len()
            &&& text_of(b, nl + 1, nl + 1 + ul) == Some(request_uri)
            &&& lit_at(b, nl + 2 + ul, version()) == Ok::<int, ParseFailure>(nl + 9 + ul)
            &&& line_end_at(b, nl + 9 + ul) == Ok::<int, ParseFailure>(nl + 11 + ul)
        }),
{
    let name = method_name(method);
    let u = encode_utf8(request_uri);
    let s = name + seq![SP] + u + seq![SP] + version() + crlf();
    let nl: int = name.len() as int;
    let ul: int = u.len() as int;
    let uri_start = nl + 1;
    let uri_end = uri_start + ul;
    assert(s.subrange(0, nl) =~= name);
    lemma_part(b, 0, s, 0, nl, name);
    lemma_method_at(b, 0, method);
    assert(s.subrange(nl, nl + 1) =~= seq![SP]);
    lemma_part(b, 0, s, nl, nl + 1, seq![SP]);
    assert forall|k: int| 0 <= k < s.len() implies b[k] == s[k] by {
        assert(b.subrange(0, s.len() as int)[k] == b[k]);
    }
    assert forall|k: int| uri_start <= k < uri_end implies in_class(ByteClass::NotSpace, #[trigger] b[k]) by {
        assert(s[k] == u[k - uri_start]);
    }
    assert(s[uri_end] == SP);
    lemma_run_end(b, uri_start, uri_end, ByteClass::NotSpace);
    assert(s.subrange(uri_start, uri_end) =~= u);
    lemma_part(b, 0, s, uri_start, uri_end, u);
    lemma_text(b, uri_start, request_uri);
    assert(s.subrange(uri_end + 1, uri_end + 8) =~= version());
    lemma_part(b, 0, s, uri_end + 1, uri_end + 8, version());
    assert(s[uri_end + 8] == CR && s[uri_end + 9] == LF);
}

proof fn lemma_request_tail(b: Seq<u8>, start: int, headers: Seq<(Seq<char>, Seq<char>)>, body: Seq<char>)
    requires
        0 <= start,
        start + (headers_bytes(headers) + crlf() + encode_utf8(body)).len() == b.len(),
        b.subrange(start, b.len() as int) == headers_bytes(headers) + crlf() + encode_utf8(body),
        headers.len() > 0,
        all_writable_headers(headers),
    ensures
        header_block_at(b, start) == Ok::<(Seq<(Seq<char>, Seq<char>)>, int), ParseFailure>(
            (headers, start + headers_bytes(headers).len() + 2),
        ),
        text_of(b, start + headers_bytes(headers).len() + 2, b.len() as int) == Some(body),
{
    let hb = headers_bytes(headers);
    let t = hb + crlf() + encode_utf8(body);
    let hl: int = hb.len() as int;
    assert(t.subrange(0, hl + 2) =~= hb + crlf());
    lemma_part(b, start, t, 0, hl + 2, hb + crlf());
    lemma_header_block(b, start, headers);
    assert(t.subrange(hl + 2, t.len() as int) =~= encode_utf8(body));
    lemma_part(b, start, t, hl + 2, t.len() as int, encode_utf8(body));
    lemma_text(b, start + hl + 2, body);
}

#[verifier::rlimit(100)]
proof fn lemma_request(m: MessageView)
    requires
        m is Request,
        is_writable(m),
    ensures
        request_at(render(m)) == Ok::<MessageView, ParseFailure>(m),
{
    match m {
        MessageView::Request { method, request_uri, headers, body } => {
            let b = render(m);
            let s = method_name(method) + seq![SP] + encode_utf8(request_uri) + seq![SP] + version() + crlf();
            let t = headers_bytes(headers) + crlf() + encode_utf8(body);
            let sl: int = s.len() as int;
            assert(b =~= s + t);
            assert(b.subrange(0, sl) =~= s);
            lemma_start_line(b, method, request_uri);
            assert(b.subrange(sl, b.len() as int) =~= t);
            lemma_request_tail(b, sl, headers, body);
        },
        _ => {},
    }
}

proof fn lemma_response(m: MessageView)
    requires
        m is Response,
        is_writable(m),
    ensures
        response_at(render(m)) == Ok::<MessageView, ParseFailure>(m),
{
    match m {
        MessageView::Response { status_code, reason_phrase, headers, body } => {
        let b = render(m);
        let c = status_code as nat;
        lemma_three_digits(c);
        let d = decimal_digits(c);
        let r = encode_utf8(reason_phrase);
        let hb = headers_bytes(headers);
        let rl: int = r.len() as int;
        let hl: int = hb.len() as int;
        let line_end_pos = 12 + rl;
        let headers_pos = line_end_pos + 2;
        let body_pos = headers_pos + hl + 2;
        assert(b =~= version() + seq![SP] + d + seq![SP] + r + crlf() + hb + crlf() + encode_utf8(body));
        assert(b.subrange(0, 7) =~= version());
        assert(b.subrange(7, 8) =~= seq![SP]);
        assert(b[8] == d[0] && b[9] == d[1] && b[10] == d[2]);
        assert(status_code_at(b, 8) == Ok::<(u16, int), ParseFailure>((status_code, 11)));
        assert(b.subrange(11, 12) =~= seq![SP]);
        assert forall|k: int| 12 <= k < line_end_pos implies in_class(ByteClass::Reason, #[trigger] b[k]) by {
            assert(b[k] == r[k - 12]);
        }
        assert(b[line_end_pos] == CR && b[line_end_pos + 1] == LF);
        lemma_run_end(b, 12, line_end_pos, ByteClass::Reason);
        assert(line_end_at(b, line_end_pos) == Ok::<int, ParseFailure>(headers_pos));
        assert(b.subrange(headers_pos, headers_pos + hl + 2) =~= hb + crlf());
        lemma_header_block(b, headers_pos, headers);
        assert(b.subrange(12, line_end_pos) =~= r);
        lemma_text(b, 12, reason_phrase);
        assert(b.subrange(body_pos, b.len() as int) =~= encode_utf8(body));
        lemma_text(b, body_pos, body);
        },
        _ => {},
    }
}

/// Writing a message and reading the bytes back gives the same message, with each
/// header compared by its name and value, for every message that reads back as it is
/// written (`is_writable`).
pub proof fn lemma_round_trip(m: MessageView)
    requires
        is_writable(m),
    ensures
        message_at(render(m)) == Ok::<MessageView, ParseFailure>(m),
{
    let b = render(m);
    match m {
        MessageView::Request { .. } => {
            lemma_request(m);
        },
        MessageView::Response { .. } => {
            assert(b[0] == 83 && b[1] == 73);
            lemma_no_method_from(b, 0);
            lemma_response(m);
        },
        MessageView::ClientKeepAlive => {
            assert(b[0] == CR);
            lemma_no_method_from(b, 0);
            lemma_lit_mismatch(b, 0, version(), 0);
        },
        MessageView::ServerKeepAlive => {
            assert(b[0] == CR);
            lemma_no_method_from(b, 0);
            lemma_lit_mismatch(b, 0, version(), 0);
            assert(b.len() != (crlf() + crlf()).len());
        },
    }
}


proof fn lemma_run_end_props(b: Seq<u8>, i: int, cls: ByteClass)
    requires
        0 <= i <= b.len(),
    ensures
        i <= run_end(b, i, cls) <= b.len(),
        forall|k: int| i <= k < run_end(b, i, cls) ==> in_class(cls, #[trigger] b[k]),
        run_end(b, i, cls) < b.len() ==> !in_class(cls, b[run_end(b, i, cls)]),
    decreases b.len() - i,
{
    if i < b.len() && in_class(cls, b[i]) {
        lemma_run_end_props(b, i + 1, cls);
    }
}

proof fn lemma_text_bytes(b: Seq<u8>, i: int, j: int)
    requires
        text_of(b, i, j) is Some,
    ensures
        encode_utf8(text_of(b, i, j)->Some_0) == b.subrange(i, j),
{
    decode_utf8_encode_utf8(b.subrange(i, j));
}

proof fn lemma_parsed_header(b: Seq<u8>, i: int)
    requires
        0 <= i <= b.len(),
        header_at(b, i) is Ok,
    ensures
        is_writable_header(header_at(b, i)->Ok_0.0),
        i < header_at(b, i)->Ok_0.1 <= b.len(),
{
    let t = run_end(b, i, ByteClass::Token);
    lemma_run_end_props(b, i, ByteClass::Token);
    let v = run_end(b, t + 1, ByteClass::Blank);
    lemma_run_end_props(b, t + 1, ByteClass::Blank);
    let e = run_end(b, v, ByteClass::Text);
    lemma_run_end_props(b, v, ByteClass::Text);
    lemma_text_bytes(b, i, t);
    lemma_text_bytes(b, v, e);
    let h = header_at(b, i)->Ok_0.0;
    assert(encode_utf8(h.0) == b.subrange(i, t));
    assert(encode_utf8(h.1) == b.subrange(v, e));
    assert forall|k: int| 0 <= k < encode_utf8(h.0).len() implies is_token_byte(#[trigger] encode_utf8(h.0)[k]) by {
        assert(b.subrange(i, t)[k] == b[i + k]);
    }
    assert forall|k: int| 0 <= k < encode_utf8(h.1).len() implies in_class(ByteClass::Text, #[trigger] encode_utf8(h.1)[k]) by {
        assert(b.subrange(v, e)[k] == b[v + k]);
    }
    if encode_utf8(h.1).len() > 0 {
        assert(b.subrange(v, e)[0] == b[v]);
    }
}

proof fn lemma_parsed_headers_from(b: Seq<u8>, i: int)
    requires
        0 <= i <= b.len(),
    ensures
        all_writable_headers(headers_from(b, i).0),
        i <= headers_from(b, i).1 <= b.len(),
    decreases b.len() - i,
{
    match line_end_at(b, i) {
        Ok(k) => match header_at(b, k) {
            Ok((h, e)) => if i < e <= b.len() {
                lemma_parsed_header(b, k);
                lemma_parsed_headers_from(b, e);
                let rest = headers_from(b, e).0;
                assert forall|j: int| 0 <= j < (seq![h] + rest).len() implies is_writable_header(#[trigger] (seq![h] + rest)[j]) by {
                    if j > 0 {
                        assert((seq![h] + rest)[j] == rest[j - 1]);
                    }
                }
            },
            Err(_) => {},
        },
        Err(_) => {},
    }
}

proof fn lemma_parsed_block(b: Seq<u8>, i: int)
    requires
        0 <= i <= b.len(),
        block_at(b, i) is Ok,
    ensures
        block_at(b, i)->Ok_0.0.len() > 0,
        all_writable_headers(block_at(b, i)->Ok_0.0),
        i <= block_at(b, i)->Ok_0.1 <= b.len(),
{
    lemma_parsed_header(b, i);
    let (h, e) = header_at(b, i)->Ok_0;
    lemma_parsed_headers_from(b, e);
    let rest = headers_from(b, e).0;
    assert forall|j: int| 0 <= j < (seq![h] + rest).len() implies is_writable_header(#[trigger] (seq![h] + rest)[j]) by {
        if j > 0 {
            assert((seq![h] + rest)[j] == rest[j - 1]);
        }
    }
}

/// Every message that the parser reads is writable, except a response whose status
/// code is below 100 (read from a code with a leading zero, which is written without it).
pub proof fn lemma_parsed_is_writable(b: Seq<u8>)
    requires
        message_at(b) is Ok,
        message_at(b)->Ok_0 matches MessageView::Response { status_code, .. } ==> status_code >= 100,
    ensures
        is_writable(message_at(b)->Ok_0),
{
    let m = message_at(b)->Ok_0;
    if request_at(b) is Ok {
        let (method, i1) = method_at(b, 0)->Ok_0;
        let i2 = i1 + 1;
        lemma_method_from_only_names(b, 0);
        let i3 = run_end(b, i2, ByteClass::NotSpace);
        lemma_run_end_props(b, i2, ByteClass::NotSpace);
        lemma_text_bytes(b, i2, i3);
        let uri = text_of(b, i2, i3)->Some_0;
        assert forall|k: int| 0 <= k < encode_utf8(uri).len() implies #[trigger] encode_utf8(uri)[k] != SP by {
            assert(b.subrange(i2, i3)[k] == b[i2 + k]);
        }
        let i5 = line_end_at(b, i3 + 8)->Ok_0;
        lemma_parsed_block(b, i5);
    } else if response_at(b) is Ok {
        let i4 = 12int;
        let i5 = run_end(b, i4, ByteClass::Reason);
        lemma_run_end_props(b, i4, ByteClass::Reason);
        lemma_text_bytes(b, i4, i5);
        let reason = text_of(b, i4, i5)->Some_0;
        assert forall|k: int| 0 <= k < encode_utf8(reason).len() implies in_class(ByteClass::Reason, #[trigger] encode_utf8(reason)[k]) by {
            assert(b.subrange(i4, i5)[k] == b[i4 + k]);
        }
        let i6 = line_end_at(b, i5)->Ok_0;
        lemma_parsed_block(b, i6);
        let (code, i3) = status_code_at(b, 8)->Ok_0;
        assert(code <= 999);
    }
}

/// A message read from bytes reads back the same after it is written, except a
/// response whose status code is below 100.
pub proof fn lemma_parsed_round_trip(b: Seq<u8>)
    requires
        message_at(b) is Ok,
        message_at(b)->Ok_0 matches MessageView::Response { status_code, .. } ==> status_code >= 100,
    ensures
        message_at(render(message_at(b)->Ok_0)) == message_at(b),
{
    lemma_parsed_is_writable(b);
    lemma_round_trip(message_at(b)->Ok_0);
}


/// A request start line followed at once by a blank line, with no header between
/// them, does not read as a request, whatever follows.
pub proof fn lemma_request_needs_header(
    method: SipMethod,
    request_uri: Seq<char>,
    rest: Seq<u8>,
)
    requires
        forall|k: int| 0 <= k < encode_utf8(request_uri).len()
            ==> #[trigger] encode_utf8(request_uri)[k] != SP,
    ensures
        request_at(
            method_name(method) + seq![SP] + encode_utf8(request_uri) + seq![SP] + version() + crlf()
                + crlf() + rest,
        ) == Err::<MessageView, ParseFailure>(ParseFailure::Malformed),
{
    let s = method_name(method) + seq![SP] + encode_utf8(request_uri) + seq![SP] + version() + crlf();
    let b = s + crlf() + rest;
    assert(b.subrange(0, s.len() as int) =~= s);
    lemma_start_line(b, method, request_uri);
    let headers_pos = s.len() as int;
    assert(b[headers_pos] == CR);
    lemma_run_end(b, headers_pos, headers_pos, ByteClass::Token);
}

/// Two line terminators followed by anything more are no keep-alive signal: the
/// datagram is malformed.
pub proof fn lemma_keep_alive_exact(rest: Seq<u8>)
    requires
        rest.len() > 0,
    ensures
        message_at(crlf() + crlf() + rest) == Err::<MessageView, ParseFailure>(ParseFailure::Malformed),
{
    let b = crlf() + crlf() + rest;
    assert(b[0] == CR);
    assert(b.len() >= 2);
    lemma_no_method_from(b, 0);
    lemma_lit_mismatch(b, 0, version(), 0);
    assert(b.len() != (crlf() + crlf()).len());
    assert(b.len() != crlf().len());
}


proof fn lemma_ascii_token(s: Seq<char>)
    requires
        s.len() > 0,
        forall|k: int| 0 <= k < s.len() ==> '\0' <= #[trigger] s[k] <= '\u{7f}' && is_token_byte(s[k] as u8),
    ensures
        is_token_text(s),
        is_writable_value(s),
{
    is_ascii_chars_encode_utf8(s);
    assert forall|k: int| 0 <= k < encode_utf8(s).len() implies is_token_byte(#[trigger] encode_utf8(s)[k]) by {
        assert(s[k] as u8 == encode_utf8(s)[k]);
    }
}

proof fn lemma_ascii_value(s: Seq<char>)
    requires
        forall|k: int| 0 <= k < s.len() ==> '\0' <= #[trigger] s[k] <= '\u{7f}' && s[k] != '\r' && s[k] != '\n',
        s.len() > 0 ==> s[0] != ' ' && s[0] != '\t',
    ensures
        is_writable_value(s),
{
    is_ascii_chars_encode_utf8(s);
    assert forall|k: int| 0 <= k < encode_utf8(s).len() implies in_class(ByteClass::Text, #[trigger] encode_utf8(s)[k]) by {
        assert(s[k] as u8 == encode_utf8(s)[k]);
    }
    if s.len() > 0 {
        assert(s[0] as u8 == encode_utf8(s)[0]);
    }
}

proof fn lemma_decimal_ascii(n: nat)
    ensures
        decimal_text(n).len() > 0,
        forall|k: int| 0 <= k < decimal_text(n).len() ==> '\0' <= #[trigger] decimal_text(n)[k] <= '\u{7f}'
            && is_token_byte(decimal_text(n)[k] as u8),
    decreases n,
{
    if n >= 10 {
        lemma_decimal_ascii(n / 10);
        let d = digit_char(n % 10);
        assert(decimal_text(n) == decimal_text(n / 10).push(d));
        assert forall|k: int| 0 <= k < decimal_text(n).len() implies '\0' <= #[trigger] decimal_text(n)[k] <= '\u{7f}'
            && is_token_byte(decimal_text(n)[k] as u8) by {
            if k < decimal_text(n / 10).len() {
                assert(decimal_text(n)[k] == decimal_text(n / 10)[k]);
            }
        }
    }
}

proof fn lemma_call_id_ascii(s: Seq<char>)
    requires
        is_call_id_text(s),
    ensures
        is_writable_value(s),
{
    assert forall|k: int| 0 <= k < s.len() implies '\0' <= #[trigger] s[k] <= '\u{7f}' && s[k] != '\r' && s[k] != '\n' by {
        assert(0 <= k < 36);
    }
    lemma_ascii_value(s);
}

proof fn lemma_fixed_texts()
    ensures
        is_token_text(via_name()),
        is_token_text(max_forwards_name()),
        is_token_text(from_name()),
        is_token_text(to_name()),
        is_token_text(contact_name()),
        is_token_text(call_id_name()),
        is_token_text(cseq_name()),
        is_token_text(allow_name()),
        is_token_text(user_agent_name()),
        is_token_text(content_type_name()),
        is_token_text(content_length_name()),
        is_writable_value(invite_via()),
        is_writable_value(invite_cseq()),
        is_writable_value(invite_allow()),
        is_writable_value(invite_user_agent()),
        is_writable_value("application/sdp"@),
{
    reveal_strlit("Via");
    reveal_strlit("Max-Forwards");
    reveal_strlit("From");
    reveal_strlit("To");
    reveal_strlit("Contact");
    reveal_strlit("Call-ID");
    reveal_strlit("CSeq");
    reveal_strlit("Allow");
    reveal_strlit("User-Agent");
    reveal_strlit("Content-Type");
    reveal_strlit("Content-Length");
    reveal_strlit("SIP/2.0/UDP 184.23.0.6:15060;rport;branch=1234");
    reveal_strlit("12345 INVITE");
    reveal_strlit("ACK INVITE REGISTER BYE OPTIONS");
    reveal_strlit("sipcat 0.0");
    reveal_strlit("application/sdp");
    lemma_ascii_token(via_name());
    lemma_ascii_token(max_forwards_name());
    lemma_ascii_token(from_name());
    lemma_ascii_token(to_name());
    lemma_ascii_token(contact_name());
    lemma_ascii_token(call_id_name());
    lemma_ascii_token(cseq_name());
    lemma_ascii_token(allow_name());
    lemma_ascii_token(user_agent_name());
    lemma_ascii_token(content_type_name());
    lemma_ascii_token(content_length_name());
    lemma_ascii_value(invite_via());
    lemma_ascii_value(invite_cseq());
    lemma_ascii_value(invite_allow());
    lemma_ascii_value(invite_user_agent());
    lemma_ascii_value("application/sdp"@);
}


proof fn lemma_invite_headers(
    from: Seq<char>,
    to: Seq<char>,
    contact: Seq<char>,
    call_id: Seq<char>,
    length: nat,
)
    requires
        is_writable_value(from),
        is_writable_value(to),
        is_writable_value(contact),
        is_call_id_text(call_id),
    ensures
        all_writable_headers(
            invite_headers(from, to, contact, call_id) + seq![
                (content_type_name(), "application/sdp"@),
                (content_length_name(), decimal_text(length)),
            ],
        ),
{
    let hs = invite_headers(from, to, contact, call_id) + seq![
        (content_type_name(), "application/sdp"@),
        (content_length_name(), decimal_text(length)),
    ];
    lemma_fixed_texts();
    lemma_call_id_ascii(call_id);
    lemma_decimal_ascii(70);
    lemma_ascii_value(decimal_text(70));
    lemma_decimal_ascii(length);
    lemma_ascii_value(decimal_text(length));
    assert forall|k: int| 0 <= k < hs.len() implies is_writable_header(#[trigger] hs[k]) by {
        if k == 0 {
            assert(hs[k] == (via_name(), invite_via()));
        } else if k == 1 {
            assert(hs[k] == (max_forwards_name(), decimal_text(70)));
        } else if k == 2 {
            assert(hs[k] == (from_name(), from));
        } else if k == 3 {
            assert(hs[k] == (to_name(), to));
        } else if k == 4 {
            assert(hs[k] == (contact_name(), contact));
        } else if k == 5 {
            assert(hs[k] == (call_id_name(), call_id));
        } else if k == 6 {
            assert(hs[k] == (cseq_name(), invite_cseq()));
        } else if k == 7 {
            assert(hs[k] == (allow_name(), invite_allow()));
        } else if k == 8 {
            assert(hs[k] == (user_agent_name(), invite_user_agent()));
        } else if k == 9 {
            assert(hs[k] == (content_type_name(), "application/sdp"@));
        } else {
            assert(hs[k] == (content_length_name(), decimal_text(length)));
        }
    }
}

/// An invitation reads back as it is written when its request URI holds no space and
/// its From, To and Contact values hold no line break and do not start with a blank.
pub proof fn lemma_invite_round_trip(
    m: SipMessage<String>,
    uri: Seq<char>,
    from: Seq<char>,
    to: Seq<char>,
    contact: Seq<char>,
    call_id: Seq<char>,
    body: String,
)
    requires
        SipMessage::<String>::is_invite(
            m,
            uri,
            invite_headers(from, to, contact, call_id) + body_headers_view(&body),
            body,
        ),
        forall|k: int| 0 <= k < encode_utf8(uri).len() ==> #[trigger] encode_utf8(uri)[k] != SP,
        is_writable_value(from),
        is_writable_value(to),
        is_writable_value(contact),
        is_call_id_text(call_id),
    ensures
        message_at(render(m@)) == Ok::<MessageView, ParseFailure>(m@),
{
    lemma_invite_headers(from, to, contact, call_id, body.spec_length() as nat);
    assert(is_writable(m@));
    lemma_round_trip(m@);
}


/// A datagram decodes as a request only when its first word, up to the first space,
/// is exactly the name of the request's method: any other token in that place (in
/// other letter case, longer, or unknown) does not decode as a request.
pub proof fn lemma_request_method_word(b: Seq<u8>)
    requires
        decoded(b) matches Ok(MessageView::Request { .. }),
    ensures
        ({
            let name = method_name(decoded(b)->Ok_0->Request_method);
            &&& name.len() < b.len()
            &&& b.subrange(0, name.len() as int) == name
            &&& b[name.len() as int] == SP
        }),
{
    assert(request_at(b) is Ok);
    lemma_method_from_only_names(b, 0);
    let (m, i1) = method_at(b, 0)->Ok_0;
    assert(lit_at(b, i1, seq![SP]) is Ok);
    assert(b.subrange(i1, i1 + 1)[0] == b[i1]);
}

} // verus!
