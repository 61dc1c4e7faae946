//! The tunnel: what to do with the streams that the edge opens, and when to
//! connect again.

use bytes::{Bytes, BytesMut};
use http::header::HeaderMap;
use vstd::prelude::*;
use vstd::string::*;
use crate::buffers;
use crate::config::IngressRule;
use crate::headers;
use crate::origin;
use crate::origin::{
    bad_gateway, dispatch, forward_http, not_found, Dispatch, Exchange, HttpResponse, OriginRequest,
};
use crate::text;
use crate::urls;
use crate::urls::RewriteError;

verus! {

/// The header that says what a stream is for.
pub const HDR_UPGRADE: &'static str = "cf-cloudflared-proxy-connection-upgrade";

/// The header that carries the headers of an answer.
pub const HDR_RESP_HEADERS: &'static str = "cf-cloudflared-proxy-response-headers";

/// What the control stream is marked with.
pub const CONTROL_STREAM_VAL: &'static str = "control-stream";

/// How many seconds pass between two looks at the configuration.
pub const CONFIG_RELOAD_INTERVAL: u64 = 30;

/// With how many entries a map takes one more in any case.
pub const SAFE_HEADERS: usize = 6553;

/// The text of the first header of a name; empty where there is none.
pub open spec fn header_text(list: Seq<(Seq<char>, Seq<u8>)>, name: Seq<char>) -> Seq<char> {
    match headers::first_value(list, name) {
        Some(v) => headers::value_text_or_empty(v),
        None => Seq::empty(),
    }
}

/// Reads the text of the first header of a name.
fn read_header(map: &HeaderMap, name: &str) -> (r: String)
    requires
        headers::is_name(name@),
        !name@.contains('"'),
    ensures
        r@ == header_text(headers::entries(*map), name@),
{
    match headers::get_header(map, name) {
        Some(v) => headers::visible_text_or_empty(v.as_slice()),
        None => String::new(),
    }
}

/// What a stream is for.
#[derive(Debug, Clone, Copy, PartialEq, Eq, Structural)]
pub enum StreamKind {
    /// The edge wants the tunnel to register.
    Control,
    /// The edge hands a request on.
    Proxy,
}

/// What a stream with these headers is for.
pub open spec fn kind_of(list: Seq<(Seq<char>, Seq<u8>)>) -> StreamKind {
    if header_text(list, HDR_UPGRADE@) == CONTROL_STREAM_VAL@ {
        StreamKind::Control
    } else {
        StreamKind::Proxy
    }
}

/// Tells what a stream with these headers is for.
pub fn stream_kind(map: &HeaderMap) -> (k: StreamKind)
    ensures
        k == kind_of(headers::entries(*map)),
{
    proof {
        reveal_strlit("cf-cloudflared-proxy-connection-upgrade");
        reveal_strlit("control-stream");
    }
    if text::same_text(read_header(map, HDR_UPGRADE).as_str(), CONTROL_STREAM_VAL) {
        StreamKind::Control
    } else {
        StreamKind::Proxy
    }
}

/// For which host a request is.
pub open spec fn host_of(list: Seq<(Seq<char>, Seq<u8>)>) -> Seq<char> {
    header_text(list, "host"@)
}

/// Reads for which host a request is.
pub fn request_host(map: &HeaderMap) -> (r: String)
    ensures
        r@ == host_of(headers::entries(*map)),
{
    proof {
        reveal_strlit("host");
    }
    read_header(map, "host")
}

/// Whether a header is handed on to a service.
pub open spec fn is_handed_on(name: Seq<char>) -> bool {
    !(text::starts(name, ":"@) || name == "host"@ || name == HDR_UPGRADE@)
}

/// The headers that are handed on to a service, of each name the last.
pub open spec fn handed_on(list: Seq<(Seq<char>, Seq<u8>)>) -> Seq<(Seq<char>, Seq<u8>)>
    decreases list.len(),
{
    if list.len() == 0 {
        Seq::empty()
    } else {
        let before = handed_on(list.drop_last());
        if is_handed_on(list.last().0) {
            headers::inserted(before, list.last().0, list.last().1)
        } else {
            before
        }
    }
}

/// Of the headers that are handed on, no two have the same name. There is one
/// for each name of the request that is handed on, with the last value of it.
pub proof fn law_last_header_is_handed_on(list: Seq<(Seq<char>, Seq<u8>)>)
    ensures
        headers::distinct_names(handed_on(list)),
        forall|name: Seq<char>| #[trigger]
            headers::has_name(handed_on(list), name) <==> headers::has_name(list, name)
                && is_handed_on(name),
        forall|i: int, k: int|
            #![trigger handed_on(list)[i], headers::is_last(list, handed_on(list)[i].0, k)]
            0 <= i < handed_on(list).len() && headers::is_last(list, handed_on(list)[i].0, k)
                ==> handed_on(list)[i].1 == list[k].1,
    decreases list.len(),
{
    let out = handed_on(list);
    if list.len() > 0 {
        let rest = list.drop_last();
        let before = handed_on(rest);
        let (last_name, last_value) = list.last();
        law_last_header_is_handed_on(rest);
        if is_handed_on(last_name) {
            headers::lemma_inserted(before, last_name, last_value);
        }
        assert forall|name: Seq<char>| #[trigger]
            headers::has_name(out, name) <==> headers::has_name(list, name) && is_handed_on(
            name,
        ) by {
            headers::lemma_has_name(list, name);
            assert(headers::has_name(before, name) <==> headers::has_name(rest, name)
                && is_handed_on(name));
        }
        assert forall|i: int, k: int|
            #![trigger out[i], headers::is_last(list, out[i].0, k)]
            0 <= i < out.len() && headers::is_last(list, out[i].0, k) implies out[i].1
            == list[k].1 by {
            let name = out[i].0;
            assert(headers::has_name(out, name));
            if name == last_name {
                assert(list[list.len() - 1].0 == name);
                assert(k == list.len() - 1);
            } else {
                assert(k < rest.len());
                assert(rest[k] == list[k]);
                assert forall|j: int| k < j < rest.len() implies (#[trigger] rest[j]).0 != name by {
                    assert(rest[j] == list[j]);
                }
                assert(headers::is_last(rest, name, k));
                assert(out[i] == before[i]);
            }
        }
    }
}

/// With more of the headers of a request, no fewer are handed on.
proof fn lemma_handed_on_grows(list: Seq<(Seq<char>, Seq<u8>)>, n: int)
    requires
        0 <= n <= list.len(),
    ensures
        handed_on(list.take(n)).len() <= handed_on(list).len(),
    decreases list.len(),
{
    if n == list.len() {
        assert(list.take(n) =~= list);
    } else {
        let rest = list.drop_last();
        assert(rest.take(n) =~= list.take(n));
        lemma_handed_on_grows(rest, n);
        law_last_header_is_handed_on(rest);
        headers::lemma_inserted(handed_on(rest), list.last().0, list.last().1);
    }
}

/// Picks the headers that are handed on to a service. There is `None` only
/// where these are more than a map takes.
fn origin_headers(map: &HeaderMap) -> (r: Option<HeaderMap>)
    ensures
        r matches Some(m) ==> headers::entries(m) == handed_on(headers::entries(*map)),
        r is None ==> handed_on(headers::entries(*map)).len() > SAFE_HEADERS,
{
    let list = headers::header_entries(map);
    let ghost all = headers::entries(*map);
    let mut out = headers::new_headers();
    let n = list.len();
    let mut i: usize = 0;
    assert(all.take(0) =~= Seq::<(Seq<char>, Seq<u8>)>::empty());
    while i < n
        invariant
            i <= n,
            n == list@.len(),
            all == headers::entries_view(list@),
            all == headers::entries(*map),
            headers::entries(out) == handed_on(all.take(i as int)),
        decreases n - i,
    {
        let ghost now = all.take(i + 1);
        proof {
            assert(now.drop_last() =~= all.take(i as int));
            assert(now.last() == (list@[i as int].0@, list@[i as int].1@));
        }
        let name = list[i].0.as_str();
        if !text::starts_with(name, ":") && !text::same_text(name, "host") && !text::same_text(
            name,
            HDR_UPGRADE,
        ) {
            if !headers::copy_header(map, i, &mut out) {
                proof {
                    lemma_handed_on_grows(all, i as int);
                }
                return None;
            }
        }
        i = i + 1;
    }
    assert(all.take(n as int) =~= all);
    Some(out)
}

/// A request that the edge hands on.
#[derive(Debug)]
pub struct EdgeRequest {
    pub method: String,
    /// The path with the query, where there is one.
    pub path: Option<String>,
    pub headers: HeaderMap,
    pub body: Bytes,
}

/// What to do with a request.
#[derive(Debug)]
pub enum Plan {
    /// Answer it.
    Answer(HttpResponse),
    /// Ask a service.
    Ask(Exchange),
}

/// Why a request stays without an answer.
#[derive(Debug)]
pub enum ProxyError {
    /// It has no URI at the service.
    Rewrite(RewriteError),
    /// It has more headers than a map takes.
    TooManyHeaders,
    /// The headers of the answer fit into no header.
    ReplyHeaders,
}

impl ProxyError {
    /// What the error says.
    pub open spec fn spec_message(self) -> Seq<char> {
        match self {
            ProxyError::Rewrite(e) => e.spec_message(),
            ProxyError::TooManyHeaders => "max size reached"@,
            ProxyError::ReplyHeaders => "failed to parse header value"@,
        }
    }

    /// What the error says.
    pub fn message(&self) -> (r: String)
        ensures
            r@ == self.spec_message(),
    {
        match self {
            ProxyError::Rewrite(e) => e.message(),
            ProxyError::TooManyHeaders => "max size reached".to_string(),
            ProxyError::ReplyHeaders => "failed to parse header value".to_string(),
        }
    }
}

/// Whether a plan sends this request to the service with these parts.
pub open spec fn asks(
    plan: Plan,
    req: EdgeRequest,
    parts: (Seq<char>, Option<Seq<char>>, Option<u16>),
    path: Option<Seq<char>>,
) -> bool {
    plan matches Plan::Ask(x) && {
        &&& x.host@ == urls::host_or_default(parts.1)
        &&& x.port == urls::port_or_default(parts.2)
        &&& x.message@ == vstd::utf8::encode_utf8(
            origin::request_head(
                req.method@,
                path,
                handed_on(headers::entries(req.headers)),
                buffers::held(req.body).len(),
                x.host@,
                x.port,
            ),
        ) + buffers::held(req.body)
    }
}

/// Whether `r` is what to do with a request for a rule. A rule with a status, or
/// for the service that is built in, is answered at once.
pub open spec fn is_plan(rule: IngressRule, req: EdgeRequest, r: Result<Plan, ProxyError>) -> bool {
    match rule.spec_status_code() {
        Some(code) => r matches Ok(Plan::Answer(a)) && a.well_formed() && a.is_status(code),
        None => if rule.service@ == origin::HELLO_WORLD@ {
            r matches Ok(Plan::Answer(a)) && a.well_formed() && a.is_hello_world()
        } else {
            is_forwarding(rule.service@, req, r)
        },
    }
}

/// Whether `r` is what to do with a request that goes to a service.
pub open spec fn is_forwarding(
    service: Seq<char>,
    req: EdgeRequest,
    r: Result<Plan, ProxyError>,
) -> bool {
    match urls::parsed_url(service) {
        Err(e) => r matches Err(ProxyError::Rewrite(RewriteError::Url(t))) && t@ == e,
        Ok(parts) => match urls::parsed_uri(
            urls::rewritten_text(parts, urls::text_view(req.path)),
        ) {
            Err(e) => r matches Err(ProxyError::Rewrite(RewriteError::Uri(t))) && t@ == e,
            Ok(path) => match r {
                Err(e) => e is TooManyHeaders && handed_on(headers::entries(req.headers)).len()
                    > SAFE_HEADERS,
                Ok(plan) => asks(plan, req, parts, path),
            },
        },
    }
}

/// Decides what to do with a request for a rule.
pub fn plan_proxy(rule: &IngressRule, req: EdgeRequest) -> (r: Result<Plan, ProxyError>)
    ensures
        is_plan(*rule, req, r),
{
    match dispatch(rule) {
        Dispatch::Answer(a) => {
            return Ok(Plan::Answer(a));
        },
        Dispatch::Forward => {},
    }
    let given = match &req.path {
        Some(p) => Some(p.as_str()),
        None => None,
    };
    let path = match urls::rewrite_uri(given, rule.service.as_str()) {
        Err(e) => {
            return Err(ProxyError::Rewrite(e));
        },
        Ok(p) => p,
    };
    let map = match origin_headers(&req.headers) {
        None => {
            return Err(ProxyError::TooManyHeaders);
        },
        Some(m) => m,
    };
    let origin_req = OriginRequest { method: req.method, path, headers: map, body: req.body };
    match forward_http(rule.service.as_str(), &origin_req) {
        Ok(x) => Ok(Plan::Ask(x)),
        Err(_) => Ok(Plan::Answer(bad_gateway())),
    }
}

/// Whether `r` is what to do with a request for which this rule was found.
pub open spec fn is_found_plan(
    found: Option<(IngressRule, EdgeRequest)>,
    r: Result<Plan, ProxyError>,
) -> bool {
    match found {
        None => r matches Ok(Plan::Answer(a)) && a.well_formed() && a.is_not_found(),
        Some((rule, req)) => is_plan(rule, req, r),
    }
}

/// Decides what to do with a request, together with the first rule that is for
/// it. Where there is no such rule, nothing was found.
pub fn plan_request(found: Option<(IngressRule, EdgeRequest)>) -> (r: Result<Plan, ProxyError>)
    ensures
        is_found_plan(found, r),
{
    match found {
        None => Ok(Plan::Answer(not_found())),
        Some((rule, req)) => plan_proxy(&rule, req),
    }
}

/// Whether `r` is the answer to make of what came back from a service.
pub open spec fn is_origin_reply(received: Option<Seq<u8>>, r: HttpResponse) -> bool {
    &&& r.well_formed()
    &&& match received {
        None => r.is_bad_gateway(),
        Some(raw) => match origin::parsed_head(raw, origin::MAX_HEADERS as nat) {
            Ok(Some(head)) => if origin::is_usable(head) {
                origin::is_response(head, raw, Ok(r))
            } else {
                r.is_bad_gateway()
            },
            _ => r.is_bad_gateway(),
        },
    }
}

/// Makes an answer of what came back from a service: the bytes that it sent,
/// or nothing where it could not be asked.
pub fn origin_reply(received: Option<Vec<u8>>) -> (r: HttpResponse)
    ensures
        is_origin_reply(
            match received {
                Some(raw) => Some(raw@),
                None => None,
            },
            r,
        ),
{
    match received {
        None => bad_gateway(),
        Some(raw) => match origin::parse_http1_response(raw) {
            Ok(a) => a,
            Err(_) => bad_gateway(),
        },
    }
}

/// What goes back to the edge.
#[derive(Debug)]
pub struct EdgeReply {
    pub status: u16,
    pub headers: HeaderMap,
    pub body: Bytes,
    /// Whether nothing follows the headers.
    pub end_stream: bool,
}

/// The headers of what goes back to the edge: the length of the body, where the
/// answer has one, and all other headers of the answer in one.
pub open spec fn reply_headers(list: Seq<(Seq<char>, Seq<u8>)>) -> Seq<(Seq<char>, Seq<u8>)> {
    let length = match headers::first_value(list, "content-length"@) {
        Some(v) => seq![("content-length"@, v)],
        None => Seq::empty(),
    };
    length.push((HDR_RESP_HEADERS@, vstd::utf8::encode_utf8(headers::serialized(list))))
}

/// Whether `r` is what goes back to the edge for an answer: its status, its
/// headers in one and its body. There is nothing where the headers of the answer,
/// in one text, are no header value.
pub open spec fn is_reply(answer: HttpResponse, r: Result<EdgeReply, ProxyError>) -> bool {
    let list = headers::entries(answer.headers);
    if headers::is_value(vstd::utf8::encode_utf8(headers::serialized(list))) {
        &&& r matches Ok(reply)
        &&& reply.status == answer.status
        &&& headers::entries(reply.headers) == reply_headers(list)
        &&& reply.body == answer.body
        &&& reply.end_stream == (buffers::held(answer.body).len() == 0)
    } else {
        r matches Err(ProxyError::ReplyHeaders)
    }
}

/// Makes an answer into what goes back to the edge. It fails where the headers
/// of the answer, in one text, are no header value.
pub fn edge_reply(answer: HttpResponse) -> (r: Result<EdgeReply, ProxyError>)
    ensures
        is_reply(answer, r),
{
    proof {
        reveal_strlit("content-length");
        reveal_strlit("cf-cloudflared-proxy-response-headers");
    }
    let ghost list = headers::entries(answer.headers);
    let serialized = headers::serialize_headers(&answer.headers);
    let mut map = headers::new_headers();
    match headers::first_header(&headers::header_entries(&answer.headers), "content-length") {
        Some(i) => {
            let added = headers::copy_header(&answer.headers, i, &mut map);
            proof {
                headers::lemma_one_first(list, "content-length"@, i as int);
            }
        },
        None => {},
    }
    let ghost length = headers::entries(map);
    if !headers::header_value_ok(serialized.as_str().as_bytes()) {
        return Err(ProxyError::ReplyHeaders);
    }
    let added = headers::append_header(
        &mut map,
        HDR_RESP_HEADERS,
        serialized.as_str().as_bytes(),
    );
    proof {
        assert(!headers::has_name(length, HDR_RESP_HEADERS@)) by {
            assert(HDR_RESP_HEADERS@.len() != "content-length"@.len());
        }
        assert(headers::entries(map) =~= reply_headers(list));
    }
    let end_stream = buffers::bytes_len(&answer.body) == 0;
    Ok(EdgeReply { status: answer.status, headers: map, body: answer.body, end_stream })
}

/// How many headers there are other than the content length.
pub open spec fn others(list: Seq<(Seq<char>, Seq<u8>)>) -> nat
    decreases list.len(),
{
    if list.len() == 0 {
        0
    } else if list.last().0 == "content-length"@ {
        others(list.drop_last())
    } else {
        others(list.drop_last()) + 1
    }
}

/// An answer whose headers have well-formed names goes back to the edge if, and
/// only if, it has at most one header besides the content length: between two, a
/// line break would stand.
pub proof fn law_reply_has_one_header(list: Seq<(Seq<char>, Seq<u8>)>)
    requires
        forall|i: int| 0 <= i < list.len() ==> headers::is_name((#[trigger] list[i]).0),
    ensures
        headers::is_value(vstd::utf8::encode_utf8(headers::serialized(list))) <==> others(list)
            <= 1,
{
    lemma_serialized(list);
    let t = headers::serialized(list);
    vstd::utf8::is_ascii_chars_encode_utf8(t);
    let b = vstd::utf8::encode_utf8(t);
    if others(list) > 1 {
        let k = t.index_of('\r');
        assert(t.contains('\r'));
        assert(b[k] == 13);
    } else {
        assert forall|i: int| 0 <= i < b.len() implies (#[trigger] b[i] >= 32 && b[i] != 127)
            || b[i] == 9 by {
            assert(is_line_char(t[i]));
        }
    }
}

/// The answers that the tunnel gives itself all go back to the edge: where no
/// rule is for a request, where a service fails, from the service that is built
/// in, and from a rule with a status.
pub proof fn law_own_answers_go_back(answer: HttpResponse, code: u16)
    requires
        answer.is_not_found() || answer.is_bad_gateway() || answer.is_hello_world()
            || answer.is_status(code),
    ensures
        headers::is_value(
            vstd::utf8::encode_utf8(headers::serialized(headers::entries(answer.headers))),
        ),
{
    let list = headers::entries(answer.headers);
    reveal_with_fuel(others, 2);
    if answer.is_hello_world() {
        reveal_strlit("content-type");
        assert(list.drop_last() =~= Seq::<(Seq<char>, Seq<u8>)>::empty());
    }
    assert forall|i: int| 0 <= i < list.len() implies headers::is_name((#[trigger] list[i]).0) by {
        assert(list[i].0 == "content-type"@);
    }
    law_reply_has_one_header(list);
}

/// Whether a character can stand in a header line.
spec fn is_line_char(c: char) -> bool {
    (' ' <= c < '\u{7f}') || c == '\t'
}

/// What stands in the text of headers.
proof fn lemma_serialized(list: Seq<(Seq<char>, Seq<u8>)>)
    requires
        forall|i: int| 0 <= i < list.len() ==> headers::is_name((#[trigger] list[i]).0),
    ensures
        vstd::utf8::is_ascii_chars(headers::serialized(list)),
        others(list) == 0 <==> headers::only_length(list),
        others(list) <= 1 ==> forall|i: int|
            0 <= i < headers::serialized(list).len() ==> is_line_char(
                #[trigger] headers::serialized(list)[i],
            ),
        others(list) > 1 ==> headers::serialized(list).contains('\r'),
    decreases list.len(),
{
    if list.len() > 0 {
        let before = list.drop_last();
        assert forall|i: int| 0 <= i < before.len() implies headers::is_name(
            (#[trigger] before[i]).0,
        ) by {
            assert(before[i] == list[i]);
        }
        lemma_serialized(before);
        assert(list.last() == list[list.len() - 1]);
        let (name, value) = list.last();
        assert(headers::only_length(list) <==> headers::only_length(before) && name
            == "content-length"@) by {
            if headers::only_length(list) {
                assert forall|i: int| 0 <= i < before.len() implies (#[trigger] before[i]).0
                    == "content-length"@ by {
                    assert(before[i] == list[i]);
                }
            }
            if headers::only_length(before) && name == "content-length"@ {
                assert forall|i: int| 0 <= i < list.len() implies (#[trigger] list[i]).0
                    == "content-length"@ by {
                    if i < before.len() {
                        assert(before[i] == list[i]);
                    }
                }
            }
        }
        if name != "content-length"@ {
            let line = name + ": "@ + headers::value_text_or_empty(value);
            reveal_strlit(": ");
            reveal_strlit("\r\n");
            assert forall|i: int| 0 <= i < line.len() implies is_line_char(#[trigger] line[i]) by {
                if i < name.len() {
                    assert(headers::is_name_char(name[i]));
                    assert(line[i] == name[i]);
                } else if i < name.len() + 2 {
                    assert(line[i] == ": "@[i - name.len()]);
                } else {
                    let k = i - name.len() - 2;
                    assert(line[i] == headers::value_text_or_empty(value)[k]);
                    assert(32 <= value[k] < 127 || value[k] == 9);
                }
            }
            if headers::only_length(before) {
                headers::lemma_only_length(before);
            } else {
                let t = headers::serialized(list);
                let n = headers::serialized(before).len() as int;
                assert(t[n] == '\r');
                assert forall|i: int| 0 <= i < t.len() implies (#[trigger] t[i] as int) < 128 by {
                    if i < n {
                        assert(t[i] == headers::serialized(before)[i]);
                    } else if i >= n + 2 {
                        assert(t[i] == line[i - n - 2]);
                    }
                }
            }
        }
    }
}

/// What comes of a wait for the next stream.
#[derive(Debug)]
pub enum AcceptEvent {
    /// A stream, for this.
    Stream(StreamKind),
    /// The edge sends the tunnel away.
    GoAway,
    /// The connection failed.
    Failed(String),
    /// The connection is closed.
    Closed,
}

/// What to do then.
#[derive(Debug)]
pub enum AcceptStep {
    /// Register on the stream, and only then wait again.
    Register,
    /// Answer the request on the stream, and wait again meanwhile.
    Answer,
    /// Leave the connection, which came to its end.
    Done,
    /// Leave the connection, which failed.
    Fail(String),
}

/// What to do after a wait for the next stream.
pub open spec fn step_after(event: AcceptEvent) -> AcceptStep {
    match event {
        AcceptEvent::Stream(StreamKind::Control) => AcceptStep::Register,
        AcceptEvent::Stream(StreamKind::Proxy) => AcceptStep::Answer,
        AcceptEvent::GoAway => AcceptStep::Done,
        AcceptEvent::Closed => AcceptStep::Done,
        AcceptEvent::Failed(e) => AcceptStep::Fail(e),
    }
}

/// Decides what to do after a wait for the next stream.
pub fn accept_step(event: AcceptEvent) -> (r: AcceptStep)
    ensures
        r == step_after(event),
{
    match event {
        AcceptEvent::Stream(StreamKind::Control) => AcceptStep::Register,
        AcceptEvent::Stream(StreamKind::Proxy) => AcceptStep::Answer,
        AcceptEvent::GoAway => AcceptStep::Done,
        AcceptEvent::Closed => AcceptStep::Done,
        AcceptEvent::Failed(e) => AcceptStep::Fail(e),
    }
}

/// The body of a request, as far as it came.
#[derive(Debug)]
pub struct BodyBuffer {
    buf: BytesMut,
}

impl View for BodyBuffer {
    type V = Seq<u8>;

    closed spec fn view(&self) -> Seq<u8> {
        buffers::buffered(self.buf)
    }
}

impl BodyBuffer {
    /// Nothing came yet.
    pub fn new() -> (r: Self)
        ensures
            r@ == Seq::<u8>::empty(),
    {
        BodyBuffer { buf: buffers::buffer_with_capacity(0) }
    }

    /// How many bytes came.
    pub fn len(&self) -> (n: usize)
        ensures
            n == self@.len(),
    {
        buffers::buffer_len(&self.buf)
    }

    /// Takes in a piece. One that failed is left out.
    pub fn add_piece(&mut self, piece: Option<&[u8]>)
        requires
            piece matches Some(data) ==> old(self)@.len() + data@.len() <= isize::MAX,
        ensures
            final(self)@ == match piece {
                Some(data) => old(self)@ + data@,
                None => old(self)@,
            },
    {
        match piece {
            Some(data) => {
                buffers::buffer_extend(&mut self.buf, data);
            },
            None => {},
        }
    }

    /// The whole body.
    pub fn finish(self) -> (b: Bytes)
        ensures
            buffers::held(b) == self@,
    {
        buffers::buffer_freeze(self.buf)
    }
}

/// What is said where there is no configuration.
pub const NO_CONFIG: &'static str =
    "Config file not found. Create ~/.cloudflared/config.yaml:\n\ningress:\n  - hostname: example.com\n    service: http://localhost:8080\n\n  - service: http_status:404\n";

/// Whether `r` is the configuration file to use.
pub open spec fn is_chosen<P>(given: Option<P>, default: Option<P>, r: Result<P, String>) -> bool {
    match given {
        Some(path) => r == Ok::<P, String>(path),
        None => match default {
            Some(path) => r == Ok::<P, String>(path),
            None => r matches Err(t) && t@ == NO_CONFIG@,
        },
    }
}

/// The configuration file to use: the one that was given, else the default one,
/// where it exists.
pub fn chosen_config<P>(given: Option<P>, default: Option<P>) -> (r: Result<P, String>)
    ensures
        is_chosen(given, default, r),
{
    match given {
        Some(path) => Ok(path),
        None => match default {
            Some(path) => Ok(path),
            None => Err(NO_CONFIG.to_string()),
        },
    }
}

} // verus!
