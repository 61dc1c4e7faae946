//! The streams of a tunnel, its registration and its connections.

use bytes::Bytes;
use http::header::{HeaderMap, HeaderName, HeaderValue};
use mini_cloudflared::capnp_params::PointerValue;
use mini_cloudflared::config::{IngressRule, TokenCreds};
use mini_cloudflared::control::{
    control_headers, parse_uuid_bytes, registration_outcome, Registration, RegistrationReply,
};
use mini_cloudflared::edge::{
    fallback_addrs, resolve_edge_addrs, EdgeAddr, EdgeStep, EDGE_PORT, EDGE_SNI,
};
use mini_cloudflared::h2_stream::ReadBuffer;
use mini_cloudflared::origin::{bad_gateway, hello_world_response, not_found, HttpResponse};
use mini_cloudflared::reconnect::Reconnect;
use mini_cloudflared::rpc::{build_capnp_register, ClientInfo, ConnectionOptions};
use mini_cloudflared::tunnel::{
    accept_step, chosen_config, edge_reply, origin_reply, plan_proxy, plan_request, request_host,
    stream_kind,
    AcceptEvent, AcceptStep, BodyBuffer, EdgeRequest, Plan, ProxyError, StreamKind,
    CONFIG_RELOAD_INTERVAL, CONTROL_STREAM_VAL, HDR_RESP_HEADERS, HDR_UPGRADE,
};

fn map(list: &[(&'static str, &[u8])]) -> HeaderMap {
    let mut m = HeaderMap::new();
    for (k, v) in list {
        m.append(HeaderName::from_static(k), HeaderValue::from_bytes(v).unwrap());
    }
    m
}

fn rule(service: &str) -> IngressRule {
    IngressRule {
        hostname: String::new(),
        path: String::new(),
        service: service.to_string(),
    }
}

fn request(path: Option<&str>, headers: HeaderMap) -> EdgeRequest {
    EdgeRequest {
        method: "GET".to_string(),
        path: path.map(|p| p.to_string()),
        headers,
        body: Bytes::from_static(b"xy"),
    }
}

#[test]
fn kind_of_a_stream() {
    assert_eq!(HDR_UPGRADE, "cf-cloudflared-proxy-connection-upgrade");
    assert_eq!(CONTROL_STREAM_VAL, "control-stream");
    assert_eq!(CONFIG_RELOAD_INTERVAL, 30);
    assert_eq!(stream_kind(&map(&[(HDR_UPGRADE, b"control-stream")])), StreamKind::Control);
    assert_eq!(stream_kind(&map(&[(HDR_UPGRADE, b"websocket")])), StreamKind::Proxy);
    assert_eq!(stream_kind(&map(&[(HDR_UPGRADE, b"control-stream\xff")])), StreamKind::Proxy);
    assert_eq!(stream_kind(&HeaderMap::new()), StreamKind::Proxy);
    let two = map(&[(HDR_UPGRADE, b"x"), (HDR_UPGRADE, b"control-stream")]);
    assert_eq!(stream_kind(&two), StreamKind::Proxy);
}

#[test]
fn host_of_a_request() {
    assert_eq!(request_host(&map(&[("host", b"a:1"), ("host", b"b")])), "a:1");
    assert_eq!(request_host(&map(&[("host", b"\xe9")])), "");
    assert_eq!(request_host(&HeaderMap::new()), "");
}

#[test]
fn steps_after_a_wait() {
    let step = accept_step(AcceptEvent::Stream(StreamKind::Control));
    assert!(matches!(step, AcceptStep::Register));
    let step = accept_step(AcceptEvent::Stream(StreamKind::Proxy));
    assert!(matches!(step, AcceptStep::Answer));
    assert!(matches!(accept_step(AcceptEvent::GoAway), AcceptStep::Done));
    assert!(matches!(accept_step(AcceptEvent::Closed), AcceptStep::Done));
    match accept_step(AcceptEvent::Failed("reset".to_string())) {
        AcceptStep::Fail(e) => assert_eq!(e, "reset"),
        other => panic!("{:?}", other),
    }
}

#[test]
fn request_is_handed_on() {
    let headers = map(&[
        ("a", b"1"),
        ("host", b"public"),
        ("b", b"2"),
        (HDR_UPGRADE, b"x"),
        ("a", b"3"),
    ]);
    let plan = plan_proxy(&rule("http://local:81/ignored"), request(Some("/p?q"), headers));
    match plan.unwrap() {
        Plan::Ask(x) => {
            assert_eq!((x.host.as_str(), x.port), ("local", 81));
            let text = "GET /p?q HTTP/1.1\r\nHost: local:81\r\na: 3\r\nb: 2\r\n\
                        Content-Length: 2\r\nConnection: close\r\n\r\nxy";
            assert_eq!(String::from_utf8(x.message).unwrap(), text);
        }
        other => panic!("{:?}", other),
    }
}

#[test]
fn header_names_of_http2_are_handed_on() {
    let mut headers = HeaderMap::new();
    let name = HeaderName::from_lowercase(b"x\"y").unwrap();
    headers.append(name, HeaderValue::from_static("v"));
    match plan_proxy(&rule("http://h"), request(None, headers)).unwrap() {
        Plan::Ask(x) => {
            let text = String::from_utf8(x.message).unwrap();
            assert!(text.contains("\r\nx\"y: v\r\n"), "{}", text);
        }
        other => panic!("{:?}", other),
    }
}

// Long enough that the map does not look at its characters.
const ODD_NAME: &str = "x-aaaaaaaaaaaaaaaaaaaaaaaaaaaaaaaa aaaaaaaaaaaaaaaaaaaaaaaaaaaaaaaaaaaa";

#[test]
fn odd_names_are_handed_on_as_they_are() {
    let mut headers = HeaderMap::new();
    headers.insert(ODD_NAME, HeaderValue::from_static("v"));
    let held = headers.keys().next().unwrap().as_str().to_string();
    assert!(held.contains('\0'));
    match plan_proxy(&rule("http://h"), request(None, headers)).unwrap() {
        Plan::Ask(x) => {
            let text = String::from_utf8(x.message).unwrap();
            assert!(text.contains(&format!("\r\n{}: v\r\n", held)), "{}", text);
        }
        other => panic!("{:?}", other),
    }
}

#[test]
fn odd_lengths_go_back_as_they_are() {
    let mut headers = HeaderMap::new();
    headers.insert(ODD_NAME, HeaderValue::from_static("v"));
    let value = HeaderValue::from(headers.keys().next().unwrap().clone());
    let mut headers = map(&[("a", b"1")]);
    headers.append("content-length", value.clone());
    headers.append("content-length", HeaderValue::from_static("2"));
    let a = HttpResponse { status: 200, headers, body: Bytes::new() };
    let r = edge_reply(a).unwrap();
    assert_eq!(r.headers.len(), 2);
    assert_eq!(r.headers["content-length"], value);
    assert_eq!(r.headers[HDR_RESP_HEADERS], "a: 1");
    let mut headers = HeaderMap::new();
    headers.insert(ODD_NAME, HeaderValue::from_static("v"));
    let a = HttpResponse { status: 200, headers, body: Bytes::new() };
    assert!(matches!(edge_reply(a), Err(ProxyError::ReplyHeaders)));
}

#[test]
fn request_without_a_rule() {
    match plan_request(None).unwrap() {
        Plan::Answer(a) => assert_eq!(&a.body[..], b"404 No matching ingress rule\n"),
        other => panic!("{:?}", other),
    }
    let found = (rule("http_status:503"), request(None, HeaderMap::new()));
    match plan_request(Some(found)).unwrap() {
        Plan::Answer(a) => assert_eq!(&a.body[..], b"503 Service Unavailable"),
        other => panic!("{:?}", other),
    }
}

#[test]
fn rules_with_an_answer_of_their_own() {
    let plan = plan_proxy(&rule("http_status:404"), request(Some("/"), HeaderMap::new()));
    match plan.unwrap() {
        Plan::Answer(a) => {
            let r = edge_reply(a).unwrap();
            assert_eq!((r.status, &r.body[..]), (404, &b"404 Not Found"[..]));
            assert_eq!(r.headers[HDR_RESP_HEADERS], "");
            assert!(!r.end_stream);
        }
        other => panic!("{:?}", other),
    }
    // Not even the path has to make a URI.
    let plan = plan_proxy(&rule("hello_world"), request(Some("<"), HeaderMap::new()));
    match plan.unwrap() {
        Plan::Answer(a) => assert_eq!(edge_reply(a).unwrap().status, 200),
        other => panic!("{:?}", other),
    }
}

#[test]
fn request_without_a_uri_at_the_service() {
    let e = plan_proxy(&rule("no_url"), request(Some("/"), HeaderMap::new())).unwrap_err();
    assert!(matches!(e, ProxyError::Rewrite(_)));
    assert_eq!(e.message(), "relative URL without a base");
    let e = plan_proxy(&rule("http://h"), request(Some("<"), HeaderMap::new())).unwrap_err();
    assert_eq!(e.message(), "invalid uri character");
}

#[test]
fn many_headers_are_handed_on() {
    let mut headers = HeaderMap::new();
    for i in 0..6554 {
        let name = HeaderName::from_bytes(format!("h{}", i).as_bytes()).unwrap();
        headers.append(name, HeaderValue::from_static("v"));
    }
    let plan = plan_proxy(&rule("http://h"), request(None, headers)).unwrap();
    assert!(matches!(plan, Plan::Ask(_)));
    assert_eq!(ProxyError::TooManyHeaders.message(), "max size reached");
    // Of one name only one is handed on.
    let mut headers = HeaderMap::new();
    for _ in 0..10000 {
        headers.append("a", HeaderValue::from_static("v"));
    }
    let plan = plan_proxy(&rule("http://h"), request(None, headers)).unwrap();
    assert!(matches!(plan, Plan::Ask(_)));
}

#[test]
fn answer_from_what_came_back() {
    assert_eq!(origin_reply(None).status, 502);
    assert_eq!(origin_reply(Some(b"junk\r\n".to_vec())).status, 502);
    assert_eq!(origin_reply(Some(b"HTTP/1.1 001 X\r\n\r\n".to_vec())).status, 502);
    assert_eq!(origin_reply(Some(b"HTTP/1.1 204 X\r\n".to_vec())).status, 502);
    let a = origin_reply(Some(b"HTTP/1.1 404 X\r\n\r\nbody".to_vec()));
    assert_eq!((a.status, &a.body[..]), (404, &b"body"[..]));
}

#[test]
fn answer_goes_back_to_the_edge() {
    let a = HttpResponse {
        status: 200,
        headers: map(&[("content-length", b"4"), ("content-type", b"text/plain")]),
        body: Bytes::from_static(b"body"),
    };
    let r = edge_reply(a).unwrap();
    assert_eq!(r.status, 200);
    assert!(!r.end_stream);
    assert_eq!(&r.body[..], b"body");
    assert_eq!(r.headers.len(), 2);
    assert_eq!(r.headers["content-length"], "4");
    assert_eq!(r.headers[HDR_RESP_HEADERS], "content-type: text/plain");
}

#[test]
fn built_in_answers_go_back_to_the_edge() {
    let r = edge_reply(not_found()).unwrap();
    assert_eq!(r.status, 404);
    assert_eq!(r.headers.len(), 1);
    assert_eq!(r.headers["cf-cloudflared-proxy-response-headers"], "");
    assert_eq!(edge_reply(bad_gateway()).unwrap().status, 502);
    let r = edge_reply(hello_world_response()).unwrap();
    assert_eq!(r.headers[HDR_RESP_HEADERS], "content-type: text/html");
    let empty = HttpResponse { status: 204, headers: HeaderMap::new(), body: Bytes::new() };
    assert!(edge_reply(empty).unwrap().end_stream);
}

#[test]
fn two_headers_fit_into_no_header() {
    let a = HttpResponse {
        status: 200,
        headers: map(&[("a", b"1"), ("b", b"2")]),
        body: Bytes::new(),
    };
    let e = edge_reply(a).unwrap_err();
    assert_eq!(e.message(), "failed to parse header value");
    assert!(matches!(e, ProxyError::ReplyHeaders));
}

#[test]
fn body_in_pieces() {
    let mut b = BodyBuffer::new();
    assert_eq!(b.len(), 0);
    b.add_piece(Some(b"ab"));
    b.add_piece(None);
    b.add_piece(Some(b""));
    b.add_piece(Some(b"c"));
    assert_eq!(b.len(), 3);
    assert_eq!(&b.finish()[..], b"abc");
}

#[test]
fn configuration_that_is_used() {
    let s = |t: &str| Some(t.to_string());
    assert_eq!(chosen_config(s("a"), s("b")).unwrap(), "a");
    assert_eq!(chosen_config(None, s("b")).unwrap(), "b");
    let expected = "Config file not found. Create ~/.cloudflared/config.yaml:\n\n\
                    ingress:\n  - hostname: example.com\n    service: http://localhost:8080\n\
                    \n  - service: http_status:404\n";
    assert_eq!(chosen_config::<String>(None, None).unwrap_err(), expected);
}

const ID: [u8; 16] = [
    0x55, 0x0e, 0x84, 0x00, 0xe2, 0x9b, 0x41, 0xd4, 0xa7, 0x16, 0x44, 0x66, 0x55, 0x44, 0x00, 0x0f,
];
const ID_TEXT: &str = "550e8400-e29b-41d4-a716-44665544000f";

#[test]
fn uuids_are_read() {
    assert_eq!(parse_uuid_bytes(ID_TEXT).unwrap(), ID);
    assert_eq!(parse_uuid_bytes("550E8400E29B41D4A71644665544000F").unwrap(), ID);
    assert!(parse_uuid_bytes("550e8400").unwrap_err().contains("invalid length"));
}

#[test]
fn registration_of_a_tunnel() {
    let creds = |s: &str, t: &str| TokenCreds {
        a: "acc".to_string(),
        s: s.to_string(),
        t: t.to_string(),
    };
    let r = Registration::new(&creds(&"B".repeat(44), ID_TEXT), &[3; 16]).unwrap();
    assert_eq!(r.account_tag, "acc");
    assert_eq!(r.tunnel_secret.len(), 33);
    assert_eq!(r.tunnel_id, ID);
    assert_eq!(r.client_id, [3; 16]);
    let p = r.params("linux", "x86_64");
    assert_eq!(p.data, [0; 8]);
    match &p.pointers[2] {
        PointerValue::Struct(options) => match &options.pointers[0] {
            PointerValue::Struct(client) => {
                match &client.pointers[1] {
                    PointerValue::Texts(t) => assert_eq!(t, &["ha-origin", "serialized-headers"]),
                    other => panic!("{:?}", other),
                }
                match &client.pointers[2] {
                    PointerValue::Text(t) => assert_eq!(t, "2024.11.1"),
                    other => panic!("{:?}", other),
                }
                match &client.pointers[3] {
                    PointerValue::Text(t) => assert_eq!(t, "linux-x86_64"),
                    other => panic!("{:?}", other),
                }
            }
            other => panic!("{:?}", other),
        },
        other => panic!("{:?}", other),
    }
    let r = Registration::new(&creds("short", ID_TEXT), &[3; 16]).unwrap();
    assert!(r.tunnel_secret.is_empty());
    assert!(Registration::new(&creds("", "tunnel"), &[3; 16]).is_err());
}

#[test]
fn outcome_of_a_registration() {
    let details = |b: Option<&[u8]>| {
        registration_outcome(RegistrationReply::Details(b.map(|b| b.to_vec())))
    };
    assert_eq!(details(Some(b"LHR")).unwrap(), "LHR");
    assert_eq!(details(Some(b"\xff")).unwrap(), "");
    assert_eq!(details(None).unwrap(), "unknown");
    let error = |b: Option<&[u8]>| {
        registration_outcome(RegistrationReply::Error(b.map(|b| b.to_vec()))).unwrap_err()
    };
    assert_eq!(error(Some("\u{fc}".as_bytes())), "Edge rejected registration: \u{fc}");
    assert_eq!(error(None), "Edge rejected registration: unknown");
    let h = control_headers();
    assert_eq!(h.len(), 1);
    assert_eq!(h["content-type"], "application/grpc+proto");
}

#[test]
fn registration_in_json() {
    let client = ClientInfo::new(&ID, "linux", "arm");
    assert_eq!(client.client_id, ID_TEXT);
    assert_eq!(client.arch, "linux-arm");
    assert_eq!(client.version, "2024.11.1");
    let mut opts = ConnectionOptions {
        client: client.clone(),
        num_previous_attempts: 0,
        unregister_pause: 0,
        features: vec![],
    };
    let json = build_capnp_register("a\"b\\\n\u{1}\u{e9}", &[0, 0xff], &ID, 7, &opts, "1.2.3.4:5");
    let expected = concat_parts(&[
        r#"{"account_tag":"a\"b\\\n\u0001"#,
        "\u{e9}",
        r#"","tunnel_secret":"00ff","tunnel_id":"550e8400e29b41d4a71644665544000f","#,
        r#""conn_index":7,"client_id":"550e8400-e29b-41d4-a716-44665544000f","#,
        r#""features":["ha-origin","serialized-headers"],"version":"2024.11.1","#,
        r#""arch":"linux-arm","edge_address":"1.2.3.4:5"}"#,
    ]);
    assert_eq!(String::from_utf8(json.clone()).unwrap(), expected);
    let read: serde_json::Value = serde_json::from_slice(&json).unwrap();
    assert_eq!(read["account_tag"], "a\"b\\\n\u{1}\u{e9}");
    opts.client.features = vec![];
    let json = build_capnp_register("", &[], &ID, 255, &opts, "\t\u{8}\u{c}\r\u{1f}\u{7f}/");
    let text = String::from_utf8(json).unwrap();
    assert!(text.contains(r#""features":[],"#));
    assert!(text.contains(r#""conn_index":255,"#));
    assert!(text.ends_with("\"edge_address\":\"\\t\\b\\f\\r\\u001f\u{7f}/\"}"));
}

fn concat_parts(parts: &[&str]) -> String {
    parts.concat()
}

#[test]
fn search_for_the_edge() {
    let addr = |n: u8| EdgeAddr::V4 { ip: [n, 0, 0, 1], port: EDGE_PORT };
    let lookup = |answers: Vec<Option<Vec<EdgeAddr>>>| match resolve_edge_addrs(&answers) {
        EdgeStep::Lookup(host) => host,
        EdgeStep::Found(_) => panic!("found"),
    };
    let found = |answers: Vec<Option<Vec<EdgeAddr>>>| match resolve_edge_addrs(&answers) {
        EdgeStep::Found(addrs) => addrs,
        EdgeStep::Lookup(host) => panic!("{}", host),
    };
    assert_eq!(EDGE_SNI, "h2.cftunnel.com");
    assert_eq!(lookup(vec![]), "region1.v2.argotunnel.com:7844");
    assert_eq!(lookup(vec![None]), "region2.v2.argotunnel.com:7844");
    assert_eq!(lookup(vec![Some(vec![])]), "region2.v2.argotunnel.com:7844");
    let mut got = found(vec![Some(vec![addr(1), addr(2), addr(1)])]);
    got.sort_by_key(|a| matches!(a, EdgeAddr::V4 { ip: [2, ..], .. }));
    assert_eq!(got, [addr(1), addr(1), addr(2)]);
    assert_eq!(found(vec![None, Some(vec![addr(3)])]), [addr(3)]);
    let all = found(vec![None, Some(vec![])]);
    assert_eq!(all.len(), 4);
    for last in [[198, 41, 192, 167], [198, 41, 192, 67], [198, 41, 192, 57], [198, 41, 200, 13]] {
        assert!(all.contains(&EdgeAddr::V4 { ip: last, port: 7844 }));
    }
    assert_eq!(fallback_addrs().len(), 4);
}

#[test]
fn some_order_comes_up_that_is_not_the_given_one() {
    let given: Vec<EdgeAddr> =
        (0..200).map(|n| EdgeAddr::V4 { ip: [n, 0, 0, 1], port: EDGE_PORT }).collect();
    match resolve_edge_addrs(&vec![Some(given.clone())]) {
        EdgeStep::Found(got) => assert_ne!(got, given),
        EdgeStep::Lookup(host) => panic!("{}", host),
    }
}

#[test]
fn addresses_and_waits() {
    let mut r = Reconnect::new(3);
    let turns: Vec<usize> = (0..7).map(|_| r.next_address()).collect();
    assert_eq!(turns, [0, 1, 2, 0, 1, 2, 0]);
    let waits: Vec<u64> = (0..9).map(|_| r.failed()).collect();
    assert_eq!(waits, [1, 2, 4, 8, 16, 32, 64, 64, 64]);
    r.ended();
    assert_eq!(r.failed(), 1);
    assert_eq!(r.failed(), 2);
    assert_eq!(r.next_address(), 1);
    let mut one = Reconnect::new(1);
    assert_eq!((one.next_address(), one.next_address()), (0, 0));
}

#[test]
fn bytes_are_read_in_order() {
    let mut r = ReadBuffer::new();
    let mut out = [0u8; 4];
    assert_eq!(r.drain(&mut out), None);
    assert_eq!(r.deliver(b"0123456789", &mut out), 4);
    assert_eq!(&out, b"0123");
    assert_eq!(r.drain(&mut out[..3]), Some(3));
    assert_eq!(&out, b"4563");
    assert_eq!(r.drain(&mut out), Some(3));
    assert_eq!(&out, b"7893");
    assert_eq!(r.drain(&mut out), None);
    assert_eq!(r.deliver(b"ab", &mut out), 2);
    assert_eq!(&out, b"ab93");
    assert_eq!(r.drain(&mut out), None);
    assert_eq!(r.deliver(b"xyz", &mut []), 0);
    assert_eq!(r.drain(&mut []), Some(0));
    assert_eq!(r.drain(&mut out), Some(3));
    assert_eq!(&out, b"xyz3");
}
