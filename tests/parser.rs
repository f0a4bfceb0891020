use sipcat::parser::{
    parse_header, parse_message, parse_method, parse_request, parse_response,
    parse_response_code, ParseFailure,
};
use sipcat::protocol::{SipHeader, SipMessage, SipMethod, StatusCode};
use sipcat::writer::{write_header, write_sip_message};

fn h(name: &str, value: &str) -> SipHeader {
    SipHeader::Header(name.into(), value.into())
}

fn pair(header: &SipHeader) -> (String, String) {
    (header.name().to_string(), header.value().to_string())
}

#[test]
fn test_parse_headers() {
    println!("{:?}", parse_header(b"Max-Forwards: 70\r\n").unwrap());
    let twoheaders = b"Header1: Value1\r\nHeader2: Value2\r\nHeader3: Value3\n\n";
    println!("{:?}", parse_header(twoheaders));
}

#[test]
fn parse_sip_string() {
    let sip_example1 = b"INVITE sip:user2@server2.com SIP/2.0
Via: SIP/2.0/UDP pc33.server1.com;branch=z9hG4bK776asdhds
Max-Forwards: 70
To: user2 <sip:user2@server2.com>
From: user1 <sip:user1@server1.com>;tag=1928301774
Call-ID: a84b4c76e66710@pc33.server1.com
CSeq: 314159 INVITE
Contact: <sip:user1@pc33.server1.com>
Content-Type: application/sdp
Content-Length: 142

v=0
o=bob 2808844564 2808844564 IN IP4 host.biloxi.example.com
s=
c=IN IP4 host.biloxi.example.com
t=0 0
m=audio 49172 RTP/AVP 0 8
a=rtpmap:0 PCMU/8000
a=rtpmap:8 PCMA/8000
m=video 0 RTP/AVP 31
a=rtpmap:31 H261/90000";

    println!("{:?}", parse_request(sip_example1));
    parse_request(sip_example1).unwrap();
}

#[test]
fn telephone_register() {
    let sip = b"REGISTER sip:localhost SIP/2.0
Via: SIP/2.0/UDP 192.168.42.81:64095;rport;branch=z9hG4bKPjQc.VtxSKdY69oZCAxCA9B-vuS2EkAbk.
Max-Forwards: 70
From: \"Chad S\" <sip:chad@localhost>;tag=lVtowISouUTBVz9HkEaORARHOh3qZZd1
To: \"Chad S\" <sip:chad@localhost>
Call-ID: 6wn2XXLNyU-xtFKKIJVwKf7vp3vBTu5m
CSeq: 40619 REGISTER
User-Agent: Telephone 1.2.6
Contact: \"Chad S\" <sip:chad@192.168.42.81:64095;ob>
Expires: 300
Allow: PRACK, INVITE, ACK, BYE, CANCEL, UPDATE, INFO, SUBSCRIBE, NOTIFY, REFER, MESSAGE, OPTIONS
Content-Length:  0

";
    println!("{:?}", parse_request(sip));
    println!("{:?}", parse_header(b"Via: SIP/2.0/UDP 192.168.42.81:64095;rport;branch=z9hG4bKPjQc.VtxSKdY69oZCAxCA9B-vuS2EkAbk."));
    parse_request(sip).unwrap();
}

#[test]
fn test_response() {
    let resp = b"SIP/2.0 200 OK
Via: SIP/2.0/UDP site4.server2.com;branch=z9hG4bKnashds8;received=192.0.2.3
To: user2 <sip:user2@server2.com>;tag=a6c85cf
From: user1 <sip:user1@server1.com>;tag=1928301774
Call-ID: a84b4c76e66710@pc33.server1.com
CSeq: 314159 INVITE
Contact: <sip:user2@192.0.2.4>
Content-Type: application/sdp

";
    assert_eq!(
        parse_response(resp).unwrap(),
        SipMessage::SipResponse {
            status_code: StatusCode(200),
            reason_phrase: "OK".into(),
            headers: vec![
                h("Via", "SIP/2.0/UDP site4.server2.com;branch=z9hG4bKnashds8;received=192.0.2.3"),
                h("To", "user2 <sip:user2@server2.com>;tag=a6c85cf"),
                h("From", "user1 <sip:user1@server1.com>;tag=1928301774"),
                h("Call-ID", "a84b4c76e66710@pc33.server1.com"),
                h("CSeq", "314159 INVITE"),
                h("Contact", "<sip:user2@192.0.2.4>"),
                h("Content-Type", "application/sdp"),
            ],
            body: String::new(),
        }
    );
}

#[test]
fn test_parse_resp_code() {
    assert_eq!(parse_response_code(b"200").unwrap().0, 200);
    assert_eq!(parse_response_code(b"999").unwrap().0, 999);
    assert_eq!(parse_response_code(b"491").unwrap().0, 491);
    assert_eq!(parse_response_code(b"101").unwrap().0, 101);
    assert_eq!(parse_response_code(b"667").unwrap().0, 667);
    assert_eq!(parse_response_code(b"bad").is_err(), true)
}

#[test]
fn status_code_edges() {
    assert_eq!(parse_response_code(b"abc"), Err(ParseFailure::Malformed));
    assert_eq!(parse_response_code(b"2x0"), Err(ParseFailure::Malformed));
    assert_eq!(parse_response_code(b"20"), Err(ParseFailure::Incomplete));
    assert_eq!(parse_response_code(b"2000"), Ok((200, 3)));
    assert_eq!(parse_response_code(b"404 Not Found"), Ok((404, 3)));
    assert!(!StatusCode(199).is_final());
    assert!(StatusCode(200).is_final());
    assert!(!StatusCode(100).is_final());
    assert!(StatusCode(999).is_final());
}

#[test]
fn parsed_headers_are_wire_headers() {
    let m = parse_message(b"SIP/2.0 200 OK\r\nVia: x\r\nTo: y\r\n\r\n").unwrap();
    match m {
        SipMessage::SipResponse { headers, .. } => {
            assert_eq!(headers.len(), 2);
            assert!(headers.iter().all(|h| matches!(h, SipHeader::Header(_, _))));
        }
        other => panic!("not a response: {:?}", other),
    }
}

#[test]
fn every_method_reads_back() {
    let all = [
        SipMethod::Invite,
        SipMethod::Ack,
        SipMethod::Bye,
        SipMethod::Cancel,
        SipMethod::Register,
        SipMethod::Options,
        SipMethod::Prack,
        SipMethod::Subscribe,
        SipMethod::Notify,
        SipMethod::Publish,
        SipMethod::Info,
        SipMethod::Refer,
        SipMethod::Message,
        SipMethod::Update,
    ];
    for m in all.iter() {
        assert_eq!(parse_method(m.name_bytes()), Ok(*m));
    }
    assert_eq!(parse_method(b"INVITE"), Ok(SipMethod::Invite));
    assert_eq!(parse_method(b"invite"), Err(ParseFailure::Malformed));
    assert_eq!(parse_method(b"INVITEX"), Err(ParseFailure::Malformed));
    assert_eq!(parse_method(b"FOO"), Err(ParseFailure::Malformed));
    assert_eq!(parse_method(b"INF"), Err(ParseFailure::Incomplete));
}

#[test]
fn header_reads_and_writes_back() {
    let (header, used) = parse_header(b"Max-Forwards: 70\r\n").unwrap();
    assert_eq!(header.name(), "Max-Forwards");
    assert_eq!(header.value(), "70");
    assert_eq!(used, 16);
    let mut out = Vec::new();
    write_header(&header, &mut out);
    assert_eq!(out, b"Max-Forwards: 70\r\n".to_vec());
}

#[test]
fn header_value_after_blanks() {
    let (header, _) = parse_header(b"Content-Length: \t 0\r\n").unwrap();
    assert_eq!(pair(&header), ("Content-Length".to_string(), "0".to_string()));
    assert_eq!(parse_header(b"Bad Name: x\r\n").map(|_| ()), Err(ParseFailure::Malformed));
    assert_eq!(parse_header(b"Via").map(|_| ()), Err(ParseFailure::Incomplete));
    assert_eq!(parse_header(b"").map(|_| ()), Err(ParseFailure::Incomplete));
}

#[test]
fn request_needs_a_header() {
    let r = parse_message(b"INVITE sip:user2@server2.com SIP/2.0\r\n\r\n");
    assert_eq!(r, Err(ParseFailure::Malformed));
    let r = parse_request(b"INVITE sip:user2@server2.com SIP/2.0\r\n\r\n");
    assert_eq!(r, Err(ParseFailure::Malformed));
}

#[test]
fn keep_alives() {
    assert_eq!(parse_message(b"\r\n\r\n"), Ok(SipMessage::ClientKeepAlive));
    assert_eq!(parse_message(b"\r\n"), Ok(SipMessage::ServerKeepAlive));
    assert_eq!(parse_message(b"\r\n\r\nX"), Err(ParseFailure::Malformed));
    assert_eq!(parse_message(b"\r"), Err(ParseFailure::Malformed));
    assert_eq!(write_sip_message(&SipMessage::ClientKeepAlive), b"\r\n\r\n".to_vec());
    assert_eq!(write_sip_message(&SipMessage::ServerKeepAlive), b"\r\n".to_vec());
}

#[test]
fn truncated_input_is_incomplete() {
    assert_eq!(parse_message(b""), Err(ParseFailure::Incomplete));
    assert_eq!(parse_message(b"INV"), Err(ParseFailure::Incomplete));
    assert_eq!(parse_message(b"INVITE sip:a"), Err(ParseFailure::Incomplete));
    assert_eq!(parse_message(b"INVITE sip:a SIP/2.0\r\n"), Err(ParseFailure::Incomplete));
    assert_eq!(parse_message(b"SIP/2.0 20"), Err(ParseFailure::Incomplete));
    assert_eq!(parse_message(b"SIP/2.0 200 OK"), Err(ParseFailure::Incomplete));
}

#[test]
fn end_to_end_request() {
    let bytes = b"INVITE sip:user2@server2.com SIP/2.0\r\nMax-Forwards: 70\r\nTo: user2 <sip:user2@server2.com>\r\n\r\n";
    match parse_message(bytes).unwrap() {
        SipMessage::SipRequest { method, request_uri, headers, body } => {
            assert_eq!(method, SipMethod::Invite);
            assert_eq!(request_uri, "sip:user2@server2.com");
            assert_eq!(headers, vec![h("Max-Forwards", "70"), h("To", "user2 <sip:user2@server2.com>")]);
            assert_eq!(body, "");
        }
        other => panic!("not a request: {:?}", other),
    }
}

#[test]
fn response_scenario() {
    let bytes = b"SIP/2.0 200 OK\r\nVia: SIP/2.0/UDP a.b.com;branch=z9\r\n\r\n";
    let m = parse_message(bytes).unwrap();
    assert!(m.is_final());
    match m {
        SipMessage::SipResponse { status_code, reason_phrase, headers, .. } => {
            assert_eq!(status_code, StatusCode(200));
            assert_eq!(reason_phrase, "OK");
            assert_eq!(headers, vec![h("Via", "SIP/2.0/UDP a.b.com;branch=z9")]);
        }
        other => panic!("not a response: {:?}", other),
    }
}

#[test]
fn non_utf8_body_is_malformed() {
    let mut bytes = b"INVITE sip:a SIP/2.0\r\nA: b\r\n\r\n".to_vec();
    bytes.push(0xff);
    assert_eq!(parse_message(&bytes), Err(ParseFailure::Malformed));
}
