use sip_codec::{
    CSeq, CallId, Contact, ContentLength, From, Header, MaxForwards, Message, Method, ParseError,
    RawHeader, Request, Response, SipHost, SipUri, SipVersion, To, UserAgent, Via,
};

fn host(address: &str, port: Option<u16>) -> SipHost {
    SipHost { address: address.to_string(), port }
}

fn register_request() -> Request {
    Request {
        method: Method::Register,
        uri: SipUri::from_host("192.168.1.143"),
        version: SipVersion::Sip2,
        headers: vec![
            Header::MaxForwards(MaxForwards { hops: 70 }),
            Header::ContentLength(ContentLength { bytes: 0 }),
        ],
        body: None,
    }
}

const REGISTER_WIRE: &[u8] =
    b"REGISTER sip:192.168.1.143 SIP/2.0\r\nMax-Forwards: 70\r\nContent-Length: 0\r\n\r\n";

#[test]
fn method_tokens_round_trip() {
    for m in [
        Method::Register,
        Method::Invite,
        Method::Ack,
        Method::Cancel,
        Method::Buy,
        Method::Options,
    ] {
        assert_eq!(Method::from_wire(&m.to_wire()), Ok(m));
    }
    assert_eq!(Method::Register.to_wire(), b"REGISTER".to_vec());
    assert_eq!(Method::Options.to_wire(), b"OPTIONS".to_vec());
}

#[test]
fn version_tokens_round_trip() {
    for v in [SipVersion::Sip, SipVersion::Sip2] {
        assert_eq!(SipVersion::from_wire(&v.to_wire()), Ok(v));
    }
    assert_eq!(SipVersion::Sip.to_wire(), b"SIP".to_vec());
    assert_eq!(SipVersion::Sip2.to_wire(), b"SIP/2.0".to_vec());
}

#[test]
fn unknown_tokens_are_refused() {
    assert_eq!(Method::from_wire(b"register"), Err(ParseError::InvalidMethod));
    assert_eq!(Method::from_wire(b" INVITE"), Err(ParseError::InvalidMethod));
    assert_eq!(Method::from_wire(b""), Err(ParseError::InvalidMethod));
    assert_eq!(SipVersion::from_wire(b"SIP2"), Err(ParseError::InvalidSipVersion));
    assert_eq!(SipVersion::from_wire(b"sip/2.0"), Err(ParseError::InvalidSipVersion));
}

#[test]
fn uri_rendering() {
    let h = host("example.com", Some(5060));
    let bare = SipUri { user: None, host: h.clone() };
    assert_eq!(bare.render(), b"sip:example.com:5060".to_vec());
    let with_user = SipUri { user: Some("alice".to_string()), host: h };
    assert_eq!(with_user.render(), b"sip:alice@example.com:5060".to_vec());
}

#[test]
fn host_rendering() {
    assert_eq!(host("a", None).render(), b"a".to_vec());
    assert_eq!(host("a", Some(5060)).render(), b"a:5060".to_vec());
}

#[test]
fn via_without_parameters() {
    let via = Header::Via(Via {
        version: SipVersion::Sip2,
        transport: "UDP".to_string(),
        host: host("192.168.1.1", None),
        branch: None,
        rport: None,
    });
    assert_eq!(via.render(), b"Via: SIP/2.0/UDP 192.168.1.1".to_vec());
}

#[test]
fn via_with_parameters() {
    let via = Header::Via(Via {
        version: SipVersion::Sip2,
        transport: "UDP".to_string(),
        host: host("192.168.1.126", Some(5060)),
        branch: Some("z9hG4bK776".to_string()),
        rport: Some(5061),
    });
    assert_eq!(
        via.render(),
        b"Via: SIP/2.0/UDP 192.168.1.126:5060;branch=z9hG4bK776;rport=5061".to_vec()
    );
}

#[test]
fn other_headers_render() {
    let me = SipUri { user: Some("100".to_string()), host: host("192.168.1.143", None) };
    let from = Header::From(From { uri: me.clone(), tag: Some("abc".to_string()) });
    assert_eq!(from.render(), b"From: <sip:100@192.168.1.143>;tag=abc".to_vec());
    let to = Header::To(To { uri: me, tag: None });
    assert_eq!(to.render(), b"To: <sip:100@192.168.1.143>".to_vec());
    let cseq = Header::CSeq(CSeq { number: 12340, method: Method::Register });
    assert_eq!(cseq.render(), b"CSeq: 12340 REGISTER".to_vec());
    assert_eq!(Header::Contact(Contact {}).render(), b"Contact: *".to_vec());
    let ua = Header::UserAgent(UserAgent { name: "sip-rs library".to_string() });
    assert_eq!(ua.render(), b"User-Agent: sip-rs library".to_vec());
    let cid = Header::CallId(CallId { id: "xyz@host".to_string() });
    assert_eq!(cid.field_name(), b"Call-ID".to_vec());
    assert_eq!(cid.render_value(), b"xyz@host".to_vec());
    let raw = Header::Raw(RawHeader { name: "X-Thing".to_string(), value: "1".to_string() });
    assert_eq!(raw.render(), b"X-Thing: 1".to_vec());
}

#[test]
fn encode_register() {
    assert_eq!(register_request().encode(), REGISTER_WIRE.to_vec());
}

#[test]
fn parse_register() {
    let r = Request::decode(REGISTER_WIRE).expect("parses");
    assert_eq!(r.method, Method::Register);
    assert!(r.uri.user.is_none());
    assert_eq!(r.uri.host.address, "192.168.1.143");
    assert_eq!(r.uri.host.port, None);
    assert_eq!(r.version, SipVersion::Sip2);
    assert_eq!(r.headers.len(), 2);
    assert!(matches!(r.headers[0], Header::MaxForwards(MaxForwards { hops: 70 })));
    assert!(matches!(r.headers[1], Header::ContentLength(ContentLength { bytes: 0 })));
    assert!(r.body.is_none());
    assert_eq!(r.encode(), REGISTER_WIRE.to_vec());
}

#[test]
fn parse_unknown_method() {
    let e = Message::parse(b"FOOBAR sip:x SIP/2.0\r\n\r\n").unwrap_err();
    assert_eq!(e, ParseError::UnrecognizedStartLine);
}

#[test]
fn parse_two_token_start_line() {
    let e = Message::parse(b"REGISTER sip:x\r\n\r\n").unwrap_err();
    assert_eq!(e, ParseError::MalformedStartLine);
}

#[test]
fn parse_truncated_body() {
    let e = Message::parse(b"INVITE sip:x SIP/2.0\r\nContent-Length: 5\r\n\r\nab").unwrap_err();
    assert_eq!(e, ParseError::TruncatedBody);
}

#[test]
fn parse_errors_by_kind() {
    assert_eq!(Message::parse(b"INVITE sip:x SIP/2.0").unwrap_err(), ParseError::MalformedStartLine);
    assert_eq!(
        Message::parse(b"INVITE sip:x SIP/2.0 extra\r\n\r\n").unwrap_err(),
        ParseError::MalformedStartLine
    );
    assert_eq!(Message::parse(b"INVITE x SIP/2.0\r\n\r\n").unwrap_err(), ParseError::InvalidUri);
    assert_eq!(
        Message::parse(b"INVITE sip:x:0 SIP/2.0\r\n\r\n").unwrap_err(),
        ParseError::InvalidUri
    );
    assert_eq!(
        Message::parse(b"INVITE sip:x SIP/3.0\r\n\r\n").unwrap_err(),
        ParseError::InvalidSipVersion
    );
    assert_eq!(
        Message::parse(b"INVITE sip:x SIP/2.0\r\nNoColonHere\r\n\r\n").unwrap_err(),
        ParseError::MalformedHeaderLine
    );
    assert_eq!(
        Message::parse(b"INVITE sip:x SIP/2.0\r\nVia: a\r\n").unwrap_err(),
        ParseError::MalformedHeaderLine
    );
}

#[test]
fn parse_full_request() {
    let wire: &[u8] = b"INVITE sip:bob@biloxi.com:5070 SIP/2.0\r\n\
via:  SIP/2.0/UDP pc33.atlanta.com;branch=z9hG4bK776;rport=5061 \r\n\
From: <sip:alice@atlanta.com>;tag=1928\r\n\
CSEQ: 314159 INVITE\r\n\
X-Custom: anything goes\r\n\
Content-Length: 4\r\n\r\nbodyEXTRA";
    let r = Request::decode(wire).expect("parses");
    assert_eq!(r.method, Method::Invite);
    assert_eq!(r.uri.user.as_deref(), Some("bob"));
    assert_eq!(r.uri.host.address, "biloxi.com");
    assert_eq!(r.uri.host.port, Some(5070));
    assert_eq!(r.headers.len(), 5);
    match &r.headers[0] {
        Header::Via(v) => {
            assert_eq!(v.version, SipVersion::Sip2);
            assert_eq!(v.transport, "UDP");
            assert_eq!(v.host.address, "pc33.atlanta.com");
            assert_eq!(v.branch.as_deref(), Some("z9hG4bK776"));
            assert_eq!(v.rport, Some(5061));
        }
        other => panic!("expected Via, got {:?}", other),
    }
    match &r.headers[1] {
        Header::From(f) => {
            assert_eq!(f.uri.user.as_deref(), Some("alice"));
            assert_eq!(f.tag.as_deref(), Some("1928"));
        }
        other => panic!("expected From, got {:?}", other),
    }
    assert!(matches!(r.headers[2], Header::CSeq(CSeq { number: 314159, method: Method::Invite })));
    match &r.headers[3] {
        Header::Raw(h) => {
            assert_eq!(h.name, "X-Custom");
            assert_eq!(h.value, "anything goes");
        }
        other => panic!("expected a raw header, got {:?}", other),
    }
    assert_eq!(r.body, Some(b"body".to_vec()));
}

#[test]
fn body_without_length_takes_the_rest() {
    let r = Request::decode(b"ACK sip:x SIP/2.0\r\n\r\nhello").expect("parses");
    assert_eq!(r.body, Some(b"hello".to_vec()));
}

#[test]
fn response_round_trip() {
    let resp = Response {
        version: SipVersion::Sip2,
        status_code: 200,
        reason_phrase: "OK".to_string(),
        headers: vec![Header::ContentLength(ContentLength { bytes: 2 })],
        body: Some(b"hi".to_vec()),
    };
    let wire = resp.encode();
    assert_eq!(wire, b"SIP/2.0 200 OK\r\nContent-Length: 2\r\n\r\nhi".to_vec());
    let back = Response::decode(&wire).expect("parses");
    assert_eq!(back.status_code, 200);
    assert_eq!(back.reason_phrase, "OK");
    assert_eq!(back.body, Some(b"hi".to_vec()));
    assert_eq!(Request::decode(&wire).unwrap_err(), ParseError::UnrecognizedStartLine);
    assert_eq!(
        Message::parse(b"SIP/2.0 99 Early\r\n\r\n").unwrap_err(),
        ParseError::MalformedStartLine
    );
}

#[test]
fn uri_parsing() {
    let u = SipUri::parse(b"sip:alice@[::1]:5060").expect("parses");
    assert_eq!(u.user.as_deref(), Some("alice"));
    assert_eq!(u.host.address, "[::1]");
    assert_eq!(u.host.port, Some(5060));
    let v = SipUri::parse(b"sip:host:abc").expect("parses");
    assert_eq!(v.host.address, "host:abc");
    assert_eq!(v.host.port, None);
    assert_eq!(SipUri::parse(b"sips:host").unwrap_err(), ParseError::InvalidUri);
    assert_eq!(SipUri::parse(b"sip:host:70000").unwrap_err(), ParseError::InvalidUri);
    assert_eq!(SipUri::parse(b"sip:").unwrap_err(), ParseError::InvalidUri);
}

#[test]
fn call_id_generation() {
    let h = host("192.168.1.143", None);
    let c = CallId::random_with_host(&h, [0u8; 16]);
    assert_eq!(c.id, "00000000-0000-4000-8000-000000000000@192.168.1.143");
    let bytes = [
        0x12, 0x34, 0x56, 0x78, 0x9a, 0xbc, 0xde, 0xf0, 0x12, 0x34, 0x56, 0x78, 0x9a, 0xbc, 0xde,
        0xf0,
    ];
    let d = CallId::random(bytes);
    assert_eq!(d.id, "12345678-9abc-4ef0-9234-56789abcdef0");
    assert_ne!(d.id, CallId::random([1u8; 16]).id);
    let e = CallId::with_token("tok", &h);
    assert_eq!(e.id, "tok@192.168.1.143");
}

#[test]
fn round_trip_with_every_header() {
    let me = SipUri { user: Some("100".to_string()), host: host("192.168.1.143", None) };
    let r = Request {
        method: Method::Invite,
        uri: SipUri { user: Some("bob".to_string()), host: host("biloxi.com", Some(5060)) },
        version: SipVersion::Sip2,
        headers: vec![
            Header::Via(Via {
                version: SipVersion::Sip2,
                transport: "UDP".to_string(),
                host: host("192.168.1.126", Some(5060)),
                branch: Some("z9hG4bK".to_string()),
                rport: Some(5061),
            }),
            Header::CSeq(CSeq { number: 1, method: Method::Invite }),
            Header::From(From { uri: me.clone(), tag: Some("t1".to_string()) }),
            Header::To(To { uri: me, tag: None }),
            Header::CallId(CallId { id: "abc@host".to_string() }),
            Header::MaxForwards(MaxForwards { hops: 70 }),
            Header::Contact(Contact {}),
            Header::UserAgent(UserAgent { name: "sip codec".to_string() }),
            Header::Raw(RawHeader { name: "X-Extra".to_string(), value: "v".to_string() }),
            Header::ContentLength(ContentLength { bytes: 3 }),
        ],
        body: Some(b"abc".to_vec()),
    };
    let wire = r.encode();
    let back = Request::decode(&wire).expect("parses");
    assert_eq!(back.encode(), wire);
    assert_eq!(back.headers.len(), 10);
    assert!(matches!(back.headers[8], Header::Raw(_)));
    assert_eq!(back.body, Some(b"abc".to_vec()));
}

#[test]
fn header_names_match_in_any_case() {
    let r = Request::decode(b"OPTIONS sip:x SIP\r\nmAx-FoRwArDs: 9\r\nCONTACT: *\r\n\r\n")
        .expect("parses");
    assert_eq!(r.version, SipVersion::Sip);
    assert!(matches!(r.headers[0], Header::MaxForwards(MaxForwards { hops: 9 })));
    assert!(matches!(r.headers[1], Header::Contact(_)));
}

#[test]
fn malformed_known_header_is_kept_raw() {
    let r = Request::decode(b"BUY sip:x SIP/2.0\r\nMax-Forwards: lots\r\n\r\n").expect("parses");
    match &r.headers[0] {
        Header::Raw(h) => {
            assert_eq!(h.name, "Max-Forwards");
            assert_eq!(h.value, "lots");
        }
        other => panic!("expected a raw header, got {:?}", other),
    }
}

#[test]
fn invalid_utf8_is_refused() {
    assert_eq!(
        Message::parse(b"CANCEL sip:\xff SIP/2.0\r\n\r\n").unwrap_err(),
        ParseError::InvalidUri
    );
    assert_eq!(
        Message::parse(b"CANCEL sip:x SIP/2.0\r\nX-Bad: \xfe\r\n\r\n").unwrap_err(),
        ParseError::MalformedHeaderLine
    );
}

#[test]
fn status_line_with_more_tokens_is_refused() {
    assert_eq!(
        Message::parse(b"SIP/2.0 404 Not Found\r\n\r\n").unwrap_err(),
        ParseError::MalformedStartLine
    );
}

#[test]
fn tag_with_another_parameter_is_kept_raw() {
    let r = Request::decode(b"ACK sip:x SIP/2.0\r\nFrom: <sip:a@b>;tag=x;lr\r\n\r\n")
        .expect("parses");
    match &r.headers[0] {
        Header::Raw(h) => {
            assert_eq!(h.name, "From");
            assert_eq!(h.value, "<sip:a@b>;tag=x;lr");
        }
        other => panic!("expected a raw header, got {:?}", other),
    }
}
