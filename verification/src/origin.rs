//! Requests to local services: what is sent to a service and what its answer
//! means.

use bytes::Bytes;
use http::header::HeaderMap;
use vstd::prelude::*;
use vstd::string::*;
use crate::buffers;
use crate::config::IngressRule;
use crate::headers;
use crate::text;
use crate::urls;

verus! {

/// The body of the answer where a service fails.
pub const BAD_GATEWAY: &'static str = "502 Bad Gateway\n";

/// The body of the answer where no rule is for a request.
pub const NO_RULE: &'static str = "404 No matching ingress rule\n";

/// The service that is built in.
pub const HELLO_WORLD: &'static str = "hello_world";

/// The page of the service that is built in.
pub const HELLO_PAGE: &'static str =
    "<!DOCTYPE html><html><body><h1>mini-cloudflared</h1><p>Hello World! The tunnel is working.</p></body></html>";

/// How many headers a service may answer with.
pub const MAX_HEADERS: usize = 64;

/// An answer to a request.
#[derive(Debug)]
pub struct HttpResponse {
    pub status: u16,
    pub headers: HeaderMap,
    pub body: Bytes,
}

impl HttpResponse {
    /// Whether this is the answer with the given status, headers and body.
    pub open spec fn is(
        self,
        status: u16,
        list: Seq<(Seq<char>, Seq<u8>)>,
        body: Seq<u8>,
    ) -> bool {
        &&& self.status == status
        &&& headers::entries(self.headers) == list
        &&& buffers::held(self.body) == body
    }

    /// Whether the status is one that HTTP has.
    pub open spec fn well_formed(self) -> bool {
        100 <= self.status <= 999
    }

    /// Whether this is the answer where a service fails.
    pub open spec fn is_bad_gateway(self) -> bool {
        self.is(502, Seq::empty(), vstd::utf8::encode_utf8(BAD_GATEWAY@))
    }

    /// Whether this is the answer where no rule is for a request.
    pub open spec fn is_not_found(self) -> bool {
        self.is(404, Seq::empty(), vstd::utf8::encode_utf8(NO_RULE@))
    }

    /// Whether this is the answer of the service that is built in.
    pub open spec fn is_hello_world(self) -> bool {
        self.is(
            200,
            seq![("content-type"@, vstd::utf8::encode_utf8("text/html"@))],
            vstd::utf8::encode_utf8(HELLO_PAGE@),
        )
    }

    /// Whether this is the answer of a rule for the status code `code`.
    pub open spec fn is_status(self, code: u16) -> bool {
        let status = valid_status(code);
        self.is(
            status,
            Seq::empty(),
            vstd::utf8::encode_utf8(status_text(status, reason(status))),
        )
    }
}

/// An answer without headers.
fn plain_response(status: u16, body: &str) -> (r: HttpResponse)
    ensures
        r.is(status, Seq::empty(), vstd::utf8::encode_utf8(body@)),
{
    HttpResponse {
        status,
        headers: headers::new_headers(),
        body: buffers::bytes_copy(body.as_bytes()),
    }
}

/// The answer where a service fails.
pub fn bad_gateway() -> (r: HttpResponse)
    ensures
        r.is_bad_gateway(),
        r.well_formed(),
{
    plain_response(502, BAD_GATEWAY)
}

/// The answer where no rule is for a request.
pub fn not_found() -> (r: HttpResponse)
    ensures
        r.is_not_found(),
        r.well_formed(),
{
    plain_response(404, NO_RULE)
}

/// The answer of the service that is built in.
pub fn hello_world_response() -> (r: HttpResponse)
    ensures
        r.is_hello_world(),
        r.well_formed(),
{
    let mut map = headers::new_headers();
    proof {
        reveal_strlit("content-type");
        reveal_strlit("text/html");
        vstd::utf8::is_ascii_chars_encode_utf8("text/html"@);
    }
    let added = headers::append_header(&mut map, "content-type", "text/html".as_bytes());
    assert(headers::entries(map) =~= seq![
        ("content-type"@, vstd::utf8::encode_utf8("text/html"@)),
    ]);
    HttpResponse { status: 200, headers: map, body: buffers::bytes_copy(HELLO_PAGE.as_bytes()) }
}

/// What `StatusCode::canonical_reason` says of a status.
pub uninterp spec fn reason(status: u16) -> Option<Seq<char>>;

/// Calls `StatusCode::canonical_reason`: the phrase that HTTP has for a status,
/// where it has one. No number outside of 100 to 999 is a status.
#[verifier::external_body]
fn status_reason(status: u16) -> (r: Option<String>)
    requires
        100 <= status <= 999,
    ensures
        urls::text_view(r) == reason(status),
{
    http::StatusCode::from_u16(status).unwrap().canonical_reason().map(|r| r.to_string())
}

/// The status of the answer of a rule for the status code `code`.
pub open spec fn valid_status(code: u16) -> u16 {
    if 100 <= code <= 999 {
        code
    } else {
        404
    }
}

/// A status in words.
pub open spec fn status_text(status: u16, reason: Option<Seq<char>>) -> Seq<char> {
    text::decimal(status as nat) + " "@ + match reason {
        Some(r) => r,
        None => "<unknown status code>"@,
    }
}

/// Writes a status in words.
pub fn describe_status(status: u16, reason: Option<String>) -> (r: String)
    ensures
        r@ == status_text(status, urls::text_view(reason)),
{
    let mut r = text::decimal_text(status as u64);
    r.append(" ");
    match reason {
        Some(t) => {
            r.append(t.as_str());
        },
        None => {
            r.append("<unknown status code>");
        },
    }
    r
}

/// What to do with a request for a rule.
#[derive(Debug)]
pub enum Dispatch {
    /// Answer it.
    Answer(HttpResponse),
    /// Send it to the service of the rule.
    Forward,
}

/// Whether `r` is what to do with a request for a rule.
pub open spec fn is_dispatch(rule: IngressRule, r: Dispatch) -> bool {
    match rule.spec_status_code() {
        Some(code) => r matches Dispatch::Answer(a) && a.well_formed() && a.is_status(code),
        None => if rule.service@ == HELLO_WORLD@ {
            r matches Dispatch::Answer(a) && a.well_formed() && a.is_hello_world()
        } else {
            r is Forward
        },
    }
}

/// Decides what to do with a request for a rule.
pub fn dispatch(rule: &IngressRule) -> (r: Dispatch)
    ensures
        is_dispatch(*rule, r),
{
    match rule.status_code() {
        Some(code) => {
            let status = if 100 <= code && code <= 999 {
                code
            } else {
                404
            };
            let body = describe_status(status, status_reason(status));
            return Dispatch::Answer(plain_response(status, body.as_str()));
        },
        None => {},
    }
    if text::same_text(rule.service.as_str(), HELLO_WORLD) {
        return Dispatch::Answer(hello_world_response());
    }
    Dispatch::Forward
}

/// A request to a service.
#[derive(Debug)]
pub struct OriginRequest {
    pub method: String,
    /// The path with the query, where there is one.
    pub path: Option<String>,
    pub headers: HeaderMap,
    pub body: Bytes,
}

/// Where to connect and what to send there.
#[derive(Debug)]
pub struct Exchange {
    pub host: String,
    pub port: u16,
    pub message: Vec<u8>,
}

/// Whether a header is about one connection only, or is written anew.
pub open spec fn is_hop_by_hop(name: Seq<char>) -> bool {
    ||| name == "host"@
    ||| name == "connection"@
    ||| name == "proxy-connection"@
    ||| name == "transfer-encoding"@
    ||| name == "upgrade"@
}

/// Tells whether a header is about one connection only, or is written anew.
fn hop_by_hop(name: &str) -> (r: bool)
    ensures
        r == is_hop_by_hop(name@),
{
    text::same_text(name, "host") || text::same_text(name, "connection") || text::same_text(
        name,
        "proxy-connection",
    ) || text::same_text(name, "transfer-encoding") || text::same_text(name, "upgrade")
}

/// The line of a header in a request; nothing where it is not sent.
pub open spec fn header_line(name: Seq<char>, value: Seq<u8>) -> Seq<char> {
    if is_hop_by_hop(name) {
        Seq::empty()
    } else {
        match headers::value_text(value) {
            Some(v) => name + ": "@ + v + "\r\n"@,
            None => Seq::empty(),
        }
    }
}

/// The lines of headers in a request.
pub open spec fn header_lines(list: Seq<(Seq<char>, Seq<u8>)>) -> Seq<char>
    decreases list.len(),
{
    if list.len() == 0 {
        Seq::empty()
    } else {
        header_lines(list.drop_last()) + header_line(list.last().0, list.last().1)
    }
}

/// The headers that are not about one connection only.
pub open spec fn end_to_end(list: Seq<(Seq<char>, Seq<u8>)>) -> Seq<(Seq<char>, Seq<u8>)> {
    list.filter(|e: (Seq<char>, Seq<u8>)| !is_hop_by_hop(e.0))
}

/// A service does not see the headers that are about one connection only: a
/// request is the same without them.
pub proof fn law_hop_by_hop_is_dropped(list: Seq<(Seq<char>, Seq<u8>)>)
    ensures
        header_lines(list) == header_lines(end_to_end(list)),
    decreases list.len(),
{
    reveal(Seq::filter);
    if list.len() > 0 {
        let rest = list.drop_last();
        law_hop_by_hop_is_dropped(rest);
        if is_hop_by_hop(list.last().0) {
            assert(end_to_end(list) == end_to_end(rest));
            assert(header_lines(list) =~= header_lines(rest));
        } else {
            assert(end_to_end(list) == end_to_end(rest).push(list.last()));
            assert(end_to_end(list).drop_last() =~= end_to_end(rest));
        }
    }
}

/// The line about the length of a body; nothing where it is empty.
pub open spec fn length_line(len: nat) -> Seq<char> {
    if len == 0 {
        Seq::empty()
    } else {
        "Content-Length: "@ + text::decimal(len) + "\r\n"@
    }
}

/// The head of a request.
pub open spec fn request_head(
    method: Seq<char>,
    path: Option<Seq<char>>,
    list: Seq<(Seq<char>, Seq<u8>)>,
    body_len: nat,
    host: Seq<char>,
    port: u16,
) -> Seq<char> {
    method + " "@ + urls::path_or_root(path) + " HTTP/1.1\r\nHost: "@ + urls::address_text(host, port)
        + "\r\n"@ + header_lines(list) + length_line(body_len) + "Connection: close\r\n\r\n"@
}

/// The bytes of a request.
pub open spec fn request_bytes(req: OriginRequest, host: Seq<char>, port: u16) -> Seq<u8> {
    let body = buffers::held(req.body);
    vstd::utf8::encode_utf8(
        request_head(
            req.method@,
            urls::text_view(req.path),
            headers::entries(req.headers),
            body.len(),
            host,
            port,
        ),
    ) + body
}

/// Writes the lines of headers in a request behind `out`.
fn write_headers(out: &mut String, map: &HeaderMap)
    ensures
        final(out)@ == old(out)@ + header_lines(headers::entries(*map)),
{
    let list = headers::header_entries(map);
    let ghost all = headers::entries(*map);
    let ghost before = out@;
    let n = list.len();
    let mut i: usize = 0;
    assert(all.take(0) =~= Seq::<(Seq<char>, Seq<u8>)>::empty());
    assert(out@ =~= before + header_lines(all.take(0)));
    while i < n
        invariant
            i <= n,
            n == list@.len(),
            all == headers::entries_view(list@),
            out@ == before + header_lines(all.take(i as int)),
        decreases n - i,
    {
        let ghost now = all.take(i + 1);
        assert(now.drop_last() =~= all.take(i as int));
        assert(now.last() == (list@[i as int].0@, list@[i as int].1@));
        let ghost so_far = out@;
        if !hop_by_hop(list[i].0.as_str()) {
            match headers::visible_text(list[i].1.as_slice()) {
                Some(v) => {
                    out.append(list[i].0.as_str());
                    out.append(": ");
                    out.append(v.as_str());
                    out.append("\r\n");
                },
                None => {},
            }
        }
        assert(out@ =~= so_far + header_line(now.last().0, now.last().1));
        assert(out@ =~= before + header_lines(now));
        i = i + 1;
    }
    assert(all.take(n as int) =~= all);
}

/// Writes a request to the service at a host and a port.
pub fn write_request(req: &OriginRequest, host: &str, port: u16) -> (r: Vec<u8>)
    ensures
        r@ == request_bytes(*req, host@, port),
{
    let body = buffers::bytes_slice(&req.body);
    let mut head = req.method.as_str().to_string();
    head.append(" ");
    match &req.path {
        Some(p) => {
            head.append(p.as_str());
        },
        None => {
            head.append("/");
        },
    }
    head.append(" HTTP/1.1\r\nHost: ");
    head.append(urls::address(host, port).as_str());
    head.append("\r\n");
    write_headers(&mut head, &req.headers);
    let ghost so_far = head@;
    if body.len() > 0 {
        head.append("Content-Length: ");
        head.append(text::decimal_text(body.len() as u64).as_str());
        head.append("\r\n");
    }
    assert(head@ =~= so_far + length_line(body@.len()));
    head.append("Connection: close\r\n\r\n");
    let mut r: Vec<u8> = Vec::new();
    r.extend_from_slice(head.as_str().as_bytes());
    r.extend_from_slice(body);
    assert(r@ =~= request_bytes(*req, host@, port));
    r
}

/// Whether `r` says where the service at a URL is and what to send there.
pub open spec fn is_exchange(
    url: Seq<char>,
    req: OriginRequest,
    r: Result<Exchange, String>,
) -> bool {
    match urls::parsed_url(url) {
        Err(e) => r matches Err(t) && t@ == e,
        Ok(parts) => r matches Ok(x) && x.host@ == urls::host_or_default(parts.1) && x.port
            == urls::port_or_default(parts.2) && x.message@ == request_bytes(req, x.host@, x.port),
    }
}

/// Says where the service at `origin_url` is and what to send there, or why
/// this is no URL.
pub fn forward_http(origin_url: &str, req: &OriginRequest) -> (r: Result<Exchange, String>)
    ensures
        is_exchange(origin_url@, *req, r),
{
    match urls::url_address(origin_url) {
        Err(e) => Err(e),
        Ok((host, port)) => {
            let message = write_request(req, host.as_str(), port);
            Ok(Exchange { host, port, message })
        },
    }
}

/// The head of an answer, as it was read.
#[derive(Debug)]
pub struct ResponseHead {
    /// How many bytes it takes.
    pub len: usize,
    pub code: Option<u16>,
    pub headers: Vec<(String, Vec<u8>)>,
}

impl ResponseHead {
    /// Whether this can be the head of `raw`.
    pub open spec fn fits(self, raw: Seq<u8>) -> bool {
        self.len <= raw.len() && self.headers@.len() <= MAX_HEADERS
    }
}

/// What `httparse::Response::parse` reads in bytes, with room for `limit`
/// headers: length of the head, code and headers; `None` where the bytes end in
/// the head; or what its error says.
pub uninterp spec fn parsed_head(raw: Seq<u8>, limit: nat) -> Result<
    Option<(nat, Option<u16>, Seq<(Seq<char>, Seq<u8>)>)>,
    Seq<char>,
>;

/// The head of an answer, as a value.
pub open spec fn head_view(head: ResponseHead) -> (nat, Option<u16>, Seq<(Seq<char>, Seq<u8>)>) {
    (head.len as nat, head.code, headers::entries_view(head.headers@))
}

/// What was read of the head of an answer, as a value.
pub open spec fn read_view(r: Result<Option<ResponseHead>, String>) -> Result<
    Option<(nat, Option<u16>, Seq<(Seq<char>, Seq<u8>)>)>,
    Seq<char>,
> {
    match r {
        Ok(Some(head)) => Ok(Some(head_view(head))),
        Ok(None) => Ok(None),
        Err(e) => Err(e@),
    }
}

/// Calls `httparse::Response::parse` with room for `limit` headers; an error
/// becomes what it says. The head is at the start of the bytes and holds at
/// most `limit` headers; else the result is named. It depends on the bytes and
/// the limit alone.
#[verifier::external_body]
fn parse_head(raw: &[u8], limit: usize) -> (r: Result<Option<ResponseHead>, String>)
    requires
        limit <= 65536,
    ensures
        read_view(r) == parsed_head(raw@, limit as nat),
        r matches Ok(Some(head)) ==> head.len <= raw@.len() && head.headers@.len() <= limit,
{
    let mut list = vec![httparse::EMPTY_HEADER; limit];
    let mut resp = httparse::Response::new(&mut list);
    match resp.parse(raw) {
        Ok(httparse::Status::Complete(len)) => {
            let headers = resp.headers.iter().map(|h| (h.name.to_string(), h.value.to_vec()));
            Ok(Some(ResponseHead { len, code: resp.code, headers: headers.collect() }))
        },
        Ok(httparse::Status::Partial) => Ok(None),
        Err(e) => Err(e.to_string()),
    }
}

/// What can be wrong with the head of an answer.
#[derive(Debug, Clone, Copy, PartialEq, Eq, Structural)]
pub enum HeadError {
    /// The code is no status.
    Status,
    /// A header has a name that is none.
    HeaderName,
    /// A header has a value that is none.
    HeaderValue,
}

impl HeadError {
    /// What the error says.
    pub open spec fn spec_message(self) -> Seq<char> {
        match self {
            HeadError::Status => "invalid status code"@,
            HeadError::HeaderName => "invalid HTTP header name"@,
            HeadError::HeaderValue => "failed to parse header value"@,
        }
    }

    /// What the error says.
    pub fn message(&self) -> (r: String)
        ensures
            r@ == self.spec_message(),
    {
        match self {
            HeadError::Status => "invalid status code".to_string(),
            HeadError::HeaderName => "invalid HTTP header name".to_string(),
            HeadError::HeaderValue => "failed to parse header value".to_string(),
        }
    }
}

/// Why an answer of a service cannot be used.
#[derive(Debug)]
pub enum OriginError {
    /// It has no head.
    Parse(String),
    /// Something is wrong with its head.
    Head(HeadError),
}

impl OriginError {
    /// What the error says.
    pub open spec fn spec_message(self) -> Seq<char> {
        match self {
            OriginError::Parse(m) => m@,
            OriginError::Head(e) => e.spec_message(),
        }
    }

    /// What the error says.
    pub fn message(&self) -> (r: String)
        ensures
            r@ == self.spec_message(),
    {
        match self {
            OriginError::Parse(m) => m.as_str().to_string(),
            OriginError::Head(e) => e.message(),
        }
    }
}

/// The headers that an answer has: each behind those that came before it, and
/// together with those of its name. The first name or value that is none is the
/// error.
pub open spec fn collected(list: Seq<(Seq<char>, Seq<u8>)>) -> Result<
    Seq<(Seq<char>, Seq<u8>)>,
    HeadError,
>
    decreases list.len(),
{
    if list.len() == 0 {
        Ok(Seq::empty())
    } else {
        match collected(list.drop_last()) {
            Err(e) => Err(e),
            Ok(before) => match headers::name_of(vstd::utf8::encode_utf8(list.last().0)) {
                None => Err(HeadError::HeaderName),
                Some(name) => if headers::is_value(list.last().1) {
                    Ok(headers::appended(before, name, list.last().1))
                } else {
                    Err(HeadError::HeaderValue)
                },
            },
        }
    }
}

/// Headers with their names as a map holds them.
pub open spec fn with_lower_names(list: Seq<(Seq<char>, Seq<u8>)>) -> Seq<(Seq<char>, Seq<u8>)> {
    Seq::new(
        list.len(),
        |i: int| (headers::name_of(vstd::utf8::encode_utf8(list[i].0)).unwrap(), list[i].1),
    )
}

/// No header of an answer is lost, and none is made up.
pub proof fn law_all_headers_are_kept(list: Seq<(Seq<char>, Seq<u8>)>)
    requires
        collected(list) is Ok,
    ensures
        collected(list)->Ok_0.to_multiset() == with_lower_names(list).to_multiset(),
    decreases list.len(),
{
    broadcast use vstd::seq_lib::group_to_multiset_ensures;

    let lower = with_lower_names(list);
    if list.len() == 0 {
        assert(lower =~= Seq::empty());
    } else {
        let rest = list.drop_last();
        law_all_headers_are_kept(rest);
        let before = collected(rest)->Ok_0;
        let (name, value) = lower.last();
        assert(lower =~= with_lower_names(rest).push((name, value)));
        headers::lemma_appended_multiset(before, name, value);
    }
}

/// An error at the start of a list stays.
proof fn lemma_collected_error(list: Seq<(Seq<char>, Seq<u8>)>, n: int)
    requires
        0 <= n <= list.len(),
        collected(list.take(n)) is Err,
    ensures
        collected(list) == collected(list.take(n)),
    decreases list.len() - n,
{
    if n < list.len() {
        assert(list.take(n + 1).drop_last() =~= list.take(n));
        lemma_collected_error(list, n + 1);
    } else {
        assert(list.take(n) =~= list);
    }
}

/// Puts the headers of an answer into a map.
fn collect_headers(list: &Vec<(String, Vec<u8>)>) -> (r: Result<HeaderMap, HeadError>)
    requires
        list@.len() <= MAX_HEADERS,
    ensures
        match r {
            Ok(map) => collected(headers::entries_view(list@)) == Ok::<
                Seq<(Seq<char>, Seq<u8>)>,
                HeadError,
            >(headers::entries(map)),
            Err(e) => collected(headers::entries_view(list@)) == Err::<
                Seq<(Seq<char>, Seq<u8>)>,
                HeadError,
            >(e),
        },
{
    let ghost all = headers::entries_view(list@);
    let mut map = headers::new_headers();
    let n = list.len();
    let mut i: usize = 0;
    assert(all.take(0) =~= Seq::<(Seq<char>, Seq<u8>)>::empty());
    while i < n
        invariant
            i <= n,
            n == list@.len(),
            n <= MAX_HEADERS,
            all == headers::entries_view(list@),
            headers::entries(map).len() == i,
            collected(all.take(i as int)) == Ok::<Seq<(Seq<char>, Seq<u8>)>, HeadError>(
                headers::entries(map),
            ),
        decreases n - i,
    {
        let ghost now = all.take(i + 1);
        proof {
            assert(now.drop_last() =~= all.take(i as int));
            assert(now.last() == (list@[i as int].0@, list@[i as int].1@));
            if collected(now) is Err {
                lemma_collected_error(all, i + 1);
            }
        }
        let name = match headers::header_name(list[i].0.as_str().as_bytes()) {
            None => {
                return Err(HeadError::HeaderName);
            },
            Some(name) => name,
        };
        if !headers::header_value_ok(list[i].1.as_slice()) {
            return Err(HeadError::HeaderValue);
        }
        proof {
            headers::lemma_appended_len(headers::entries(map), name@, list@[i as int].1@);
        }
        let added = headers::append_header(&mut map, name.as_str(), list[i].1.as_slice());
        i = i + 1;
    }
    assert(all.take(n as int) =~= all);
    Ok(map)
}

/// Whether a head has a status and headers that HTTP has.
pub open spec fn is_usable(head: (nat, Option<u16>, Seq<(Seq<char>, Seq<u8>)>)) -> bool {
    &&& head.1 matches Some(code) ==> 100 <= code <= 999
    &&& collected(head.2) is Ok
}

/// Whether `r` is the answer that a service gave with the given head.
pub open spec fn is_response(
    head: (nat, Option<u16>, Seq<(Seq<char>, Seq<u8>)>),
    raw: Seq<u8>,
    r: Result<HttpResponse, OriginError>,
) -> bool {
    let status = match head.1 {
        Some(code) => code,
        None => 502,
    };
    if !(100 <= status <= 999) {
        r matches Err(OriginError::Head(HeadError::Status))
    } else {
        match collected(head.2) {
            Err(e) => r matches Err(OriginError::Head(f)) && f == e,
            Ok(list) => r matches Ok(a) && a.well_formed() && a.is(
                status,
                list,
                raw.skip(head.0 as int),
            ),
        }
    }
}

/// Makes an answer of its head and of the bytes that it came in.
pub fn response_of(head: ResponseHead, raw: &[u8]) -> (r: Result<HttpResponse, OriginError>)
    requires
        head.fits(raw@),
    ensures
        is_response(head_view(head), raw@, r),
{
    let status = match head.code {
        Some(code) => code,
        None => 502,
    };
    if status < 100 || status > 999 {
        return Err(OriginError::Head(HeadError::Status));
    }
    match collect_headers(&head.headers) {
        Err(e) => Err(OriginError::Head(e)),
        Ok(map) => {
            let body = vstd::slice::slice_subrange(raw, head.len, raw.len());
            assert(body@ =~= raw@.skip(head.len as int));
            Ok(HttpResponse { status, headers: map, body: buffers::bytes_copy(body) })
        },
    }
}

/// Whether `r` is what is read of the answer of a service.
pub open spec fn is_parsed(raw: Seq<u8>, r: Result<HttpResponse, OriginError>) -> bool {
    match parsed_head(raw, MAX_HEADERS as nat) {
        Err(e) => r matches Err(OriginError::Parse(t)) && t@ == e,
        Ok(None) => r matches Ok(a) && a.well_formed() && a.is_bad_gateway(),
        Ok(Some(head)) => is_response(head, raw, r),
    }
}

/// Reads the answer of a service. One that ends in its head means that the
/// service failed.
pub fn parse_http1_response(raw: Vec<u8>) -> (r: Result<HttpResponse, OriginError>)
    ensures
        is_parsed(raw@, r),
{
    match parse_head(raw.as_slice(), MAX_HEADERS) {
        Err(e) => Err(OriginError::Parse(e)),
        Ok(None) => Ok(bad_gateway()),
        Ok(Some(head)) => response_of(head, raw.as_slice()),
    }
}

} // verus!
