use sipcat::codec::{DecodeError, UdpSip};
use sipcat::protocol::{SipHeader, SipMessage, SipMethod, StatusCode};
use sipcat::sdp::Sdp;

#[test]
fn standard_headers() {
    assert_eq!(SipHeader::ContentLength(142).value(), "142");
    assert_eq!(SipHeader::ContentLength(0).value(), "0");
    assert_eq!(SipHeader::MaxForwards(70).value(), "70");
    assert_eq!(SipHeader::CallID("x".into()).name(), "Call-ID");
    assert_eq!(SipHeader::To("sip:a@b").value(), "sip:a@b");
    assert_eq!(SipHeader::From("sip:c@d".to_string()).name(), "From");
    assert_eq!(SipHeader::Route("r".into()).name(), "Route");
    assert_eq!(SipHeader::UserAgent("u".into()).name(), "User-Agent");
}

#[test]
fn invite_header_order() {
    let m = SipMessage::invite_with_call_id(
        "sip:bob@b.com",
        "sip:bob@b.com",
        "sip:al@a.com",
        "<sip:al@1.2.3.4>",
        "v=0\r\n".to_string(),
        "1234".to_string(),
    );
    match m {
        SipMessage::SipRequest { method, request_uri, headers, body } => {
            assert_eq!(method, SipMethod::Invite);
            assert_eq!(request_uri, "sip:bob@b.com");
            assert_eq!(body, "v=0\r\n");
            let pairs: Vec<(&str, &str)> = headers.iter().map(|h| (h.name(), h.value())).collect();
            assert_eq!(
                pairs,
                vec![
                    ("Via", "SIP/2.0/UDP 184.23.0.6:15060;rport;branch=1234"),
                    ("Max-Forwards", "70"),
                    ("From", "sip:al@a.com"),
                    ("To", "sip:bob@b.com"),
                    ("Contact", "<sip:al@1.2.3.4>"),
                    ("Call-ID", "1234"),
                    ("CSeq", "12345 INVITE"),
                    ("Allow", "ACK INVITE REGISTER BYE OPTIONS"),
                    ("User-Agent", "sipcat 0.0"),
                    ("Content-Type", "application/sdp"),
                    ("Content-Length", "5"),
                ]
            );
        }
        other => panic!("not a request: {:?}", other),
    }
}

#[test]
fn invite_has_random_call_id() {
    let m = SipMessage::invite("sip:b@b", "sip:b@b", "sip:a@a", "sip:a@a", String::new());
    let id = m.header("Call-ID".to_string()).unwrap().value().to_string();
    assert_eq!(id.len(), 36);
    assert_eq!(&id[8..9], "-");
    let other = SipMessage::invite("sip:b@b", "sip:b@b", "sip:a@a", "sip:a@a", String::new());
    assert_ne!(other.header("Call-ID".to_string()).unwrap().value(), id);
}

#[test]
fn header_lookup_first_match() {
    let m: SipMessage<String> = SipMessage::SipResponse {
        status_code: StatusCode(180),
        reason_phrase: "Ringing".into(),
        headers: vec![
            SipHeader::Header("Via".into(), "one".into()),
            SipHeader::Header("Via".into(), "two".into()),
        ],
        body: String::new(),
    };
    assert_eq!(m.header("Via".to_string()).unwrap().value(), "one");
    assert!(m.header("via".to_string()).is_none());
    assert!(!m.is_final());
    let k: SipMessage<String> = SipMessage::ClientKeepAlive;
    assert!(k.header("Via".to_string()).is_none());
    assert!(!k.is_final());
}

#[test]
fn codec_decodes_and_encodes() {
    let mut codec = UdpSip;
    let (addr, m) = codec.decode(7u32, b"\r\n").unwrap();
    assert_eq!(addr, 7);
    assert_eq!(m, SipMessage::ServerKeepAlive);
    assert_eq!(codec.decode(7u32, b"hello").unwrap_err(), DecodeError::BadMessage);
    assert_eq!(codec.decode(7u32, b"INVITE sip:x").unwrap_err(), DecodeError::IncompleteMessage);
    let mut out = vec![1u8];
    let back = codec.encode(9u32, SipMessage::ClientKeepAlive, &mut out);
    assert_eq!(back, 9);
    assert_eq!(out, vec![1u8, 13, 10, 13, 10]);
}

#[test]
fn session_description_lines() {
    let sdp = Sdp::new(4004);
    assert!(sdp.starts_with("v=0\r\no=- 3704930061"));
    assert!(sdp.ends_with("a=fmtp:101 0-16\r\n"));
    assert!(!sdp.replace("\r\n", "").contains('\n'));
}

#[test]
fn decode_reads_each_method_word() {
    let mut codec = UdpSip;
    let all = [
        SipMethod::Invite,
        SipMethod::Ack,
        SipMethod::Bye,
        SipMethod::Cancel,
        SipMethod::Register,
        SipMethod::Options,
        SipMethod::Prack,
        SipMethod::Subscribe,
        SipMethod::Notify,
        SipMethod::Publish,
        SipMethod::Info,
        SipMethod::Refer,
        SipMethod::Message,
        SipMethod::Update,
    ];
    for m in all.iter() {
        let mut buf = m.name_bytes().to_vec();
        buf.extend_from_slice(b" sip:a SIP/2.0\r\nA: b\r\n\r\n");
        let (addr, msg) = codec.decode(3u8, &buf).unwrap();
        assert_eq!(addr, 3);
        assert_eq!(
            msg,
            SipMessage::SipRequest {
                method: *m,
                request_uri: "sip:a".to_string(),
                headers: vec![SipHeader::Header("A".into(), "b".into())],
                body: String::new(),
            }
        );
    }
    for word in ["invite", "Invite", "FOO", "INVITEX"].iter() {
        let buf = format!("{} sip:a SIP/2.0\r\nA: b\r\n\r\n", word).into_bytes();
        assert_eq!(codec.decode(3u8, &buf).unwrap_err(), DecodeError::BadMessage);
    }
}
