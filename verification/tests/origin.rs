//! Requests to services, and their answers.

use bytes::Bytes;
use http::header::{HeaderMap, HeaderName, HeaderValue};
use mini_cloudflared::config::IngressRule;
use mini_cloudflared::headers::{
    header_name, header_value_ok, serialize_headers, visible_text, visible_text_or_empty,
};
use mini_cloudflared::origin::{
    bad_gateway, describe_status, dispatch, forward_http, hello_world_response, not_found,
    parse_http1_response, response_of, write_request, Dispatch, HeadError, HttpResponse,
    OriginError, OriginRequest, ResponseHead,
};
use mini_cloudflared::proxy::{listen_address, upstream_address};
use mini_cloudflared::urls::{rewrite_uri, rewritten, service_address, url_address, RewriteError, UrlParts};

fn rule(service: &str) -> IngressRule {
    IngressRule {
        hostname: String::new(),
        path: String::new(),
        service: service.to_string(),
    }
}

fn map(list: &[(&'static str, &[u8])]) -> HeaderMap {
    let mut m = HeaderMap::new();
    for (k, v) in list {
        m.append(HeaderName::from_static(k), HeaderValue::from_bytes(v).unwrap());
    }
    m
}

fn answer(d: Dispatch) -> HttpResponse {
    match d {
        Dispatch::Answer(a) => a,
        Dispatch::Forward => panic!("not answered"),
    }
}

#[test]
fn answers_that_are_built_in() {
    let a = bad_gateway();
    assert_eq!((a.status, &a.body[..], a.headers.len()), (502, &b"502 Bad Gateway\n"[..], 0));
    let a = not_found();
    assert_eq!(
        (a.status, &a.body[..], a.headers.len()),
        (404, &b"404 No matching ingress rule\n"[..], 0)
    );
    let a = hello_world_response();
    assert_eq!(a.status, 200);
    assert_eq!(a.headers["content-type"], "text/html");
    assert_eq!(
        &a.body[..],
        &b"<!DOCTYPE html><html><body><h1>mini-cloudflared</h1><p>Hello World! The tunnel is working.</p></body></html>"[..]
    );
}

#[test]
fn rules_with_a_status_are_answered() {
    let a = answer(dispatch(&rule("http_status:404")));
    assert_eq!((a.status, &a.body[..]), (404, &b"404 Not Found"[..]));
    let a = answer(dispatch(&rule("http_status:200")));
    assert_eq!((a.status, &a.body[..]), (200, &b"200 OK"[..]));
    let a = answer(dispatch(&rule("http_status:999")));
    assert_eq!((a.status, &a.body[..]), (999, &b"999 <unknown status code>"[..]));
    let a = answer(dispatch(&rule("http_status:99")));
    assert_eq!((a.status, &a.body[..]), (404, &b"404 Not Found"[..]));
    let a = answer(dispatch(&rule("http_status:1000")));
    assert_eq!(a.status, 404);
    assert_eq!(a.headers.len(), 0);
    let a = answer(dispatch(&rule("hello_world")));
    assert_eq!(a.status, 200);
    assert!(matches!(dispatch(&rule("http://localhost:1")), Dispatch::Forward));
    assert!(matches!(dispatch(&rule("http_status:x")), Dispatch::Forward));
    assert_eq!(describe_status(418, Some("I'm a teapot".to_string())), "418 I'm a teapot");
    assert_eq!(describe_status(100, None), "100 <unknown status code>");
}

#[test]
fn request_to_a_service() {
    let req = OriginRequest {
        method: "POST".to_string(),
        path: Some("/p?q=1".to_string()),
        headers: map(&[
            ("host", b"x"),
            ("accept", b"*/*"),
            ("connection", b"keep-alive"),
            ("proxy-connection", b"y"),
            ("transfer-encoding", b"chunked"),
            ("upgrade", b"h2c"),
            ("x-tab", b"a\tb"),
            ("x-bin", b"\xff"),
            ("x-empty", b""),
            ("accept", b"text/html"),
        ]),
        body: Bytes::from_static(b"hello world"),
    };
    let x = forward_http("http://service:3000/base", &req).unwrap();
    assert_eq!(x.host, "service");
    assert_eq!(x.port, 3000);
    let text = "POST /p?q=1 HTTP/1.1\r\nHost: service:3000\r\naccept: */*\r\naccept: text/html\r\n\
                x-tab: a\tb\r\nx-empty: \r\nContent-Length: 11\r\nConnection: close\r\n\r\nhello world";
    assert_eq!(String::from_utf8(x.message).unwrap(), text);
}

#[test]
fn request_without_body() {
    let req = OriginRequest {
        method: "GET".to_string(),
        path: None,
        headers: HeaderMap::new(),
        body: Bytes::new(),
    };
    let text = "GET / HTTP/1.1\r\nHost: h:80\r\nConnection: close\r\n\r\n";
    assert_eq!(write_request(&req, "h", 80), text.as_bytes());
    assert_eq!(forward_http("not a url", &req).unwrap_err(), "relative URL without a base");
}

#[test]
fn addresses_of_services() {
    let address = |u: &str| url_address(u).unwrap();
    assert_eq!(address("http://localhost:8080/x"), ("localhost".to_string(), 8080));
    assert_eq!(address("https://Example.com"), ("example.com".to_string(), 443));
    assert_eq!(address("http://[::1]"), ("[::1]".to_string(), 80));
    assert_eq!(address("unix:/run/x.sock"), ("127.0.0.1".to_string(), 80));
    assert_eq!(url_address("http://").unwrap_err(), "empty host");
    assert_eq!(service_address(None, None), ("127.0.0.1".to_string(), 80));
    assert_eq!(service_address(Some("h".to_string()), Some(1)), ("h".to_string(), 1));
    assert_eq!(upstream_address("http://127.0.0.2:9").unwrap(), "127.0.0.2:9");
    assert_eq!(upstream_address("ws://h").unwrap(), "h:80");
    assert_eq!(upstream_address("h:x/").unwrap(), "127.0.0.1:80");
    assert!(upstream_address("").is_err());
    assert_eq!(listen_address(8080), "0.0.0.0:8080");
}

#[test]
fn uri_at_a_service() {
    let parts = |host: Option<&str>, port| UrlParts {
        scheme: "http".to_string(),
        host: host.map(|h| h.to_string()),
        port,
    };
    assert_eq!(rewritten(parts(Some("h"), Some(1)), Some("/a?b")), "http://h:1/a?b");
    assert_eq!(rewritten(parts(None, None), None), "http://127.0.0.1:80/");
    assert_eq!(rewrite_uri(Some("/a?b=1"), "http://h").unwrap().as_deref(), Some("/a?b=1"));
    assert_eq!(rewrite_uri(None, "http://h").unwrap().as_deref(), Some("/"));
    let e = rewrite_uri(Some("/"), "http_status:404").unwrap_err();
    assert!(matches!(e, RewriteError::Url(_)));
    assert_eq!(e.message(), "relative URL without a base");
    let e = rewrite_uri(Some("/a b"), "http://h").unwrap_err();
    assert!(matches!(e, RewriteError::Uri(_)));
    assert_eq!(e.message(), "invalid uri character");
}

#[test]
fn answer_of_a_service() {
    let raw = b"HTTP/1.1 201 Created\r\nX-A: 1\r\nB: \xfe\r\nx-a: 2\r\nContent-Length: 2\r\n\r\nok\r\n";
    let a = parse_http1_response(raw.to_vec()).unwrap();
    assert_eq!(a.status, 201);
    let list: Vec<(&str, &[u8])> = a.headers.iter().map(|(k, v)| (k.as_str(), v.as_bytes())).collect();
    assert_eq!(
        list,
        [("x-a", &b"1"[..]), ("x-a", b"2"), ("b", b"\xfe"), ("content-length", b"2")]
    );
    assert_eq!(&a.body[..], b"ok\r\n");
}

#[test]
fn answer_that_ends_early() {
    let a = parse_http1_response(b"HTTP/1.1 200 OK\r\nA: b\r\n".to_vec()).unwrap();
    assert_eq!((a.status, &a.body[..]), (502, &b"502 Bad Gateway\n"[..]));
    let a = parse_http1_response(Vec::new()).unwrap();
    assert_eq!(a.status, 502);
}

#[test]
fn answer_that_is_none() {
    let e = parse_http1_response(b"SSH-2.0\r\n\r\n".to_vec()).unwrap_err();
    assert!(matches!(e, OriginError::Parse(_)));
    assert_eq!(e.message(), "invalid HTTP version");
    let e = parse_http1_response(b"HTTP/1.1 099 X\r\n\r\n".to_vec()).unwrap_err();
    assert!(matches!(e, OriginError::Head(HeadError::Status)));
    assert_eq!(e.message(), "invalid status code");
    let mut raw = b"HTTP/1.1 200 OK\r\n".to_vec();
    raw.extend(vec![b'a'; 65536]);
    raw.extend(b": v\r\n\r\n");
    let e = parse_http1_response(raw).unwrap_err();
    assert_eq!(e.message(), "invalid HTTP header name");
    let many = |n: usize| format!("HTTP/1.1 200 OK\r\n{}\r\n", "a: b\r\n".repeat(n)).into_bytes();
    assert_eq!(parse_http1_response(many(64)).unwrap().headers.len(), 64);
    assert_eq!(parse_http1_response(many(65)).unwrap_err().message(), "too many headers");
}

#[test]
fn answer_from_its_head() {
    let head = |code, name: &str, value: &[u8]| ResponseHead {
        len: 2,
        code,
        headers: vec![(name.to_string(), value.to_vec())],
    };
    let a = response_of(head(None, "A", b"b"), b"xxbody").unwrap();
    assert_eq!((a.status, &a.body[..]), (502, &b"body"[..]));
    assert_eq!(a.headers["a"], "b");
    let e = response_of(head(Some(200), "", b"b"), b"xx").unwrap_err();
    assert!(matches!(e, OriginError::Head(HeadError::HeaderName)));
    let e = response_of(head(Some(200), "\u{e9}", b"\n"), b"xx").unwrap_err();
    assert!(matches!(e, OriginError::Head(HeadError::HeaderName)));
    let e = response_of(head(Some(200), "a", b"\n"), b"xx").unwrap_err();
    assert_eq!(e.message(), "failed to parse header value");
    let e = response_of(head(Some(1000), "a", b"\n"), b"xx").unwrap_err();
    assert!(matches!(e, OriginError::Head(HeadError::Status)));
}

#[test]
fn names_and_values_of_headers() {
    for b in 0..=255u8 {
        let own = header_name(&[b]);
        let theirs = HeaderName::from_bytes(&[b]).ok().map(|n| n.as_str().to_string());
        assert_eq!(own, theirs, "{}", b);
        assert_eq!(header_value_ok(&[b]), HeaderValue::from_bytes(&[b]).is_ok(), "{}", b);
        let text = HeaderValue::from_bytes(&[b]).ok().and_then(|v| v.to_str().ok().map(|t| t.to_string()));
        assert_eq!(visible_text(&[b]), text, "{}", b);
    }
    assert_eq!(header_name(b"Content-Type").as_deref(), Some("content-type"));
    assert_eq!(header_name(b""), None);
    assert!(header_name(&[b'a'; 65535]).is_some());
    assert!(HeaderName::from_bytes(&[b'a'; 65535]).is_ok());
    assert!(header_name(&[b'a'; 65536]).is_none());
    assert!(HeaderName::from_bytes(&[b'a'; 65536]).is_err());
    assert_eq!(visible_text_or_empty(b"a b"), "a b");
    assert_eq!(visible_text_or_empty(b"\x80"), "");
}

#[test]
fn headers_in_one_text() {
    assert_eq!(serialize_headers(&HeaderMap::new()), "");
    let m = map(&[("a", b"1"), ("content-length", b"5"), ("b", b"\xff"), ("a", b"2")]);
    assert_eq!(serialize_headers(&m), "a: 1\r\na: 2\r\nb: ");
    assert_eq!(serialize_headers(&map(&[("content-length", b"5")])), "");
}
