use sipcat::parser::parse_message;
use sipcat::protocol::{SipHeader, SipMessage, SipMethod, StatusCode};
use sipcat::writer::write_sip_message;

#[test]
fn request_round_trip() {
    let m = SipMessage::SipRequest {
        method: SipMethod::Register,
        request_uri: "sip:localhost".to_string(),
        headers: vec![
            SipHeader::Header("Via".into(), "SIP/2.0/UDP h;branch=1".into()),
            SipHeader::CSeq("1 REGISTER".into()),
            SipHeader::MaxForwards(70),
        ],
        body: "v=0\r\n".to_string(),
    };
    let bytes = write_sip_message(&m);
    assert_eq!(
        bytes,
        b"REGISTER sip:localhost SIP/2.0\r\nVia: SIP/2.0/UDP h;branch=1\r\nCSeq: 1 REGISTER\r\nMax-Forwards: 70\r\n\r\nv=0\r\n".to_vec()
    );
    match parse_message(&bytes).unwrap() {
        SipMessage::SipRequest { method, request_uri, headers, body } => {
            assert_eq!(method, SipMethod::Register);
            assert_eq!(request_uri, "sip:localhost");
            let pairs: Vec<(String, String)> =
                headers.iter().map(|h| (h.name().to_string(), h.value().to_string())).collect();
            assert_eq!(
                pairs,
                vec![
                    ("Via".to_string(), "SIP/2.0/UDP h;branch=1".to_string()),
                    ("CSeq".to_string(), "1 REGISTER".to_string()),
                    ("Max-Forwards".to_string(), "70".to_string()),
                ]
            );
            assert_eq!(body, "v=0\r\n");
        }
        other => panic!("not a request: {:?}", other),
    }
}

#[test]
fn response_round_trip() {
    let m = SipMessage::SipResponse {
        status_code: StatusCode(404),
        reason_phrase: "Not Found".to_string(),
        headers: vec![SipHeader::Header("To".into(), "<sip:a@b>".into())],
        body: String::new(),
    };
    let bytes = write_sip_message(&m);
    assert_eq!(bytes, b"SIP/2.0 404 Not Found\r\nTo: <sip:a@b>\r\n\r\n".to_vec());
    assert_eq!(parse_message(&bytes), Ok(m));
}

#[test]
fn status_code_written_without_padding() {
    let m: SipMessage<String> = SipMessage::SipResponse {
        status_code: StatusCode(7),
        reason_phrase: "X".to_string(),
        headers: vec![],
        body: String::new(),
    };
    assert_eq!(write_sip_message(&m), b"SIP/2.0 7 X\r\n\r\n".to_vec());
}

#[test]
fn parsed_request_writes_back_exactly() {
    let bytes = b"INVITE sip:user2@server2.com SIP/2.0\r\nMax-Forwards: 70\r\nTo: user2 <sip:user2@server2.com>\r\n\r\n";
    let m = parse_message(bytes).unwrap();
    assert_eq!(write_sip_message(&m), bytes.to_vec());
    let resp = b"SIP/2.0 200 OK\r\nVia: SIP/2.0/UDP a.b.com;branch=z9\r\n\r\n";
    let r = parse_message(resp).unwrap();
    assert_eq!(write_sip_message(&r), resp.to_vec());
}

#[test]
fn invitation_reads_back() {
    let m = SipMessage::invite_with_call_id(
        "sip:bob@b.com",
        "<sip:bob@b.com>",
        "<sip:al@a.com>",
        "<sip:al@1.2.3.4>",
        "v=0\r\n".to_string(),
        "0f0e0d0c-0b0a-4908-8706-050403020100".to_string(),
    );
    let bytes = write_sip_message(&m);
    let back = parse_message(&bytes).unwrap();
    let pairs = |msg: &SipMessage<String>| -> Vec<(String, String)> {
        match msg {
            SipMessage::SipRequest { headers, .. } => headers
                .iter()
                .map(|h| (h.name().to_string(), h.value().to_string()))
                .collect(),
            _ => vec![],
        }
    };
    assert_eq!(pairs(&back), pairs(&m));
    assert_eq!(pairs(&back).len(), 11);
    assert_eq!(back.header("Content-Length".to_string()).unwrap().value(), "5");
    match back {
        SipMessage::SipRequest { method, request_uri, body, .. } => {
            assert_eq!(method, SipMethod::Invite);
            assert_eq!(request_uri, "sip:bob@b.com");
            assert_eq!(body, "v=0\r\n");
        }
        other => panic!("not a request: {:?}", other),
    }
}
