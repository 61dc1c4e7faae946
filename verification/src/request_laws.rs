//! What holds of requests to services and of answers to the edge, line by line.

use vstd::prelude::*;
use crate::buffers;
use crate::config::IngressRule;
use crate::headers;
use crate::origin;
use crate::origin::{HttpResponse, OriginRequest};
use crate::proxy;
use crate::text;
use crate::text_laws;
use crate::tunnel;
use crate::tunnel::{EdgeRequest, Plan, ProxyError};
use crate::urls;
use crate::urls::RewriteError;

verus! {

/// A text cut at its line breaks.
pub open spec fn split(t: Seq<char>) -> Seq<Seq<char>>
    decreases t.len(),
{
    match t.index_of_first('\r') {
        None => seq![t],
        Some(i) => if 0 <= i && i + 2 <= t.len() && t[i + 1] == '\n' {
            seq![t.take(i)] + split(t.skip(i + 2))
        } else {
            seq![t]
        },
    }
}

/// Whether a text has no carriage return.
pub open spec fn one_line(t: Seq<char>) -> bool {
    forall|i: int| 0 <= i < t.len() ==> #[trigger] t[i] != '\r'
}

/// Whether bytes are visible ASCII characters, spaces and tabs.
pub open spec fn visible(value: Seq<u8>) -> bool {
    forall|i: int| 0 <= i < value.len() ==> (32 <= #[trigger] value[i] <= 126 || value[i] == 9)
}

/// Whether a line is that of a header: its name, a colon and a space, and then
/// the bytes of its value, one by one and unchanged.
pub open spec fn is_line(line: Seq<char>, name: Seq<char>, value: Seq<u8>) -> bool {
    &&& line.len() == name.len() + 2 + value.len()
    &&& forall|i: int| 0 <= i < name.len() ==> line[i] == #[trigger] name[i]
    &&& line[name.len() as int] == ':'
    &&& line[name.len() + 1int] == ' '
    &&& forall|i: int|
        0 <= i < value.len() ==> (line[name.len() + 2 + i]) as int == #[trigger] value[i]
}

/// A line in front of a text is cut off as it is.
#[verifier::spinoff_prover]
proof fn lemma_split_line(line: Seq<char>, rest: Seq<char>)
    requires
        one_line(line),
    ensures
        split(line + "\r\n"@ + rest) == seq![line] + split(rest),
{
    reveal_strlit("\r\n");
    let t = line + "\r\n"@ + rest;
    let n = line.len() as int;
    t.index_of_first_ensures('\r');
    assert(t[n] == '\r' && t[n + 1] == '\n');
    assert(t.contains('\r'));
    let i = t.index_of_first('\r').unwrap();
    if i < n {
        assert(t[i] == line[i]);
    }
    assert(i == n);
    assert(t.take(n) =~= line);
    assert(t.skip(n + 2) =~= rest);
}

/// A single line is not cut.
#[verifier::spinoff_prover]
proof fn lemma_split_last(line: Seq<char>)
    requires
        one_line(line),
    ensures
        split(line) == seq![line],
{
    line.index_of_first_ensures('\r');
    if line.contains('\r') {
        let i = line.index_of_first('\r').unwrap();
        assert(line[i] == '\r');
    }
}

/// The text of a visible value has no carriage return and is the value's bytes.
#[verifier::spinoff_prover]
proof fn lemma_value(value: Seq<u8>)
    ensures
        visible(value) <==> headers::value_text(value) is Some,
        headers::value_text(value) matches Some(t) ==> one_line(t) && t.len() == value.len()
            && forall|i: int| 0 <= i < value.len() ==> (#[trigger] t[i]) as int == value[i],
{
    if headers::value_text(value) is Some {
        let t = headers::value_text(value).unwrap();
        text_laws::law_ascii_chars(value);
        assert forall|i: int| 0 <= i < t.len() implies #[trigger] t[i] != '\r' by {
            assert(t[i] as int == value[i]);
            assert(32 <= value[i] < 127 || value[i] == 9);
        }
    }
    if visible(value) {
        assert forall|i: int| 0 <= i < value.len() implies 32 <= #[trigger] value[i] < 127
            || value[i] == 9 by {}
        assert(headers::is_visible(value));
    }
}

/// The text of a header value is its bytes as characters, where these are all
/// visible, and nothing else has a text.
#[verifier::spinoff_prover]
pub proof fn law_value_text(value: Seq<u8>)
    ensures
        visible(value) <==> headers::value_text(value) is Some,
        headers::value_text(value) matches Some(t) ==> t.len() == value.len() && forall|i: int|
            0 <= i < value.len() ==> (#[trigger] t[i]) as int == value[i],
        visible(value) ==> headers::value_text_or_empty(value) == headers::value_text(value).unwrap(),
        !visible(value) ==> headers::value_text_or_empty(value) == Seq::<char>::empty(),
{
    lemma_value(value);
}

/// A header name is its bytes, with the letters in lower case. There is none
/// where one of the bytes is no letter, digit or sign that a name can have, and
/// none of no bytes or of more than 65535.
#[verifier::spinoff_prover]
pub proof fn law_header_name(bytes: Seq<u8>)
    ensures
        ({
            let ok = |b: u8|
                (65 <= b <= 90) || (97 <= b <= 122) || (48 <= b <= 57) || "!#$%&'*+-.^_`|~"@.contains(
                    b as char,
                );
            &&& headers::name_of(bytes) is Some <==> 1 <= bytes.len() <= 65535 && forall|i: int|
                0 <= i < bytes.len() ==> ok(#[trigger] bytes[i])
            &&& headers::name_of(bytes) matches Some(name) ==> name.len() == bytes.len()
                && forall|i: int|
                0 <= i < bytes.len() ==> (#[trigger] name[i]) as int == (if 65 <= bytes[i] <= 90 {
                    bytes[i] + 32
                } else {
                    bytes[i] as int
                })
        }),
{
    reveal_strlit("!#$%&'*+-.^_`|~");
    let signs = "!#$%&'*+-.^_`|~"@;
    let ok = |b: u8|
        (65 <= b <= 90) || (97 <= b <= 122) || (48 <= b <= 57) || signs.contains(b as char);
    assert forall|b: u8| #[trigger] ok(b) == (headers::name_byte(b) is Some) by {
        assert(signs[0] == '!' && signs[1] == '#' && signs[2] == '$' && signs[3] == '%' && signs[4]
            == '&' && signs[5] == '\'' && signs[6] == '*' && signs[7] == '+' && signs[8] == '-'
            && signs[9] == '.' && signs[10] == '^' && signs[11] == '_' && signs[12] == '`'
            && signs[13] == '|' && signs[14] == '~' && signs.len() == 15);
        if signs.contains(b as char) {
            let k = choose|k: int| 0 <= k < signs.len() && signs[k] == b as char;
            assert(signs[k] as int == b);
        }
    }
    if headers::name_of(bytes) is Some {
        assert forall|i: int| 0 <= i < bytes.len() implies ok(#[trigger] bytes[i]) by {
            assert(headers::name_byte(bytes[i]) is Some);
        }
    }
    if 1 <= bytes.len() <= 65535 && forall|i: int| 0 <= i < bytes.len() ==> ok(#[trigger] bytes[i]) {
        assert forall|i: int| 0 <= i < bytes.len() implies headers::name_byte(
            #[trigger] bytes[i],
        ) is Some by {
            assert(ok(bytes[i]));
        }
    }
}

/// The headers that go to a service: all but `host`, `connection`,
/// `proxy-connection`, `transfer-encoding` and `upgrade`, and those whose value
/// is not visible.
pub open spec fn going(list: Seq<(Seq<char>, Seq<u8>)>) -> Seq<(Seq<char>, Seq<u8>)> {
    list.filter(
        |e: (Seq<char>, Seq<u8>)|
            e.0 != "host"@ && e.0 != "connection"@ && e.0 != "proxy-connection"@ && e.0
                != "transfer-encoding"@ && e.0 != "upgrade"@ && visible(e.1),
    )
}

/// The lines of headers in front of a text, cut off.
#[verifier::spinoff_prover]
proof fn lemma_header_lines(list: Seq<(Seq<char>, Seq<u8>)>, rest: Seq<char>) -> (lines: Seq<
    Seq<char>,
>)
    requires
        forall|i: int| 0 <= i < list.len() ==> one_line((#[trigger] list[i]).0),
    ensures
        split(origin::header_lines(list) + rest) == lines + split(rest),
        lines.len() == going(list).len(),
        forall|k: int|
            0 <= k < lines.len() ==> is_line(
                #[trigger] lines[k],
                going(list)[k].0,
                going(list)[k].1,
            ),
    decreases list.len(),
{
    reveal(Seq::filter);
    if list.len() == 0 {
        assert(origin::header_lines(list) + rest =~= rest);
        assert(Seq::<Seq<char>>::empty() + split(rest) =~= split(rest));
        Seq::empty()
    } else {
        let before = list.drop_last();
        let (name, value) = list.last();
        assert(list.last() == list[list.len() - 1]);
        assert forall|i: int| 0 <= i < before.len() implies one_line((#[trigger] before[i]).0) by {
            assert(before[i] == list[i]);
        }
        lemma_value(value);
        let start = origin::header_lines(before);
        if origin::is_hop_by_hop(name) || !visible(value) {
            assert(origin::header_lines(list) =~= start);
            assert(going(list) == going(before));
            lemma_header_lines(before, rest)
        } else {
            let v = headers::value_text(value).unwrap();
            let line = name + ": "@ + v;
            reveal_strlit(": ");
            assert(one_line(line)) by {
                assert forall|i: int| 0 <= i < line.len() implies #[trigger] line[i] != '\r' by {
                    if i < name.len() {
                        assert(line[i] == name[i]);
                    } else if i >= name.len() + 2 {
                        assert(line[i] == v[i - name.len() - 2]);
                    }
                }
            }
            assert(is_line(line, name, value)) by {
                assert forall|i: int| 0 <= i < value.len() implies (line[name.len() + 2
                    + i]) as int == #[trigger] value[i] by {
                    assert(line[name.len() + 2 + i] == v[i]);
                }
            }
            let tail = line + "\r\n"@ + rest;
            assert(origin::header_lines(list) + rest =~= start + tail);
            let lines = lemma_header_lines(before, tail);
            lemma_split_line(line, rest);
            assert(lines + (seq![line] + split(rest)) =~= lines.push(line) + split(rest));
            assert(going(list) == going(before).push((name, value)));
            let all = lines.push(line);
            assert forall|k: int| 0 <= k < all.len() implies is_line(
                #[trigger] all[k],
                going(list)[k].0,
                going(list)[k].1,
            ) by {
                if k < lines.len() {
                    assert(all[k] == lines[k]);
                }
            }
            all
        }
    }
}

/// Whether a text is the head of a request, with these lines for its headers:
/// the request line, the host, one line for each header that goes to the
/// service, in order and with its value unchanged, the length of the body where
/// it is not empty, and that the connection is closed; an empty line ends it.
pub open spec fn is_head(
    head: Seq<char>,
    lines: Seq<Seq<char>>,
    method: Seq<char>,
    path: Option<Seq<char>>,
    list: Seq<(Seq<char>, Seq<u8>)>,
    body_len: nat,
    host: Seq<char>,
    port: u16,
) -> bool {
    let asked = match path {
        Some(p) => p,
        None => "/"@,
    };
    let length = if body_len == 0 {
        Seq::empty()
    } else {
        seq!["Content-Length: "@ + text::decimal(body_len)]
    };
    &&& split(head) == seq![
        method + " "@ + asked + " HTTP/1.1"@,
        "Host: "@ + host + ":"@ + text::decimal(port as nat),
    ] + lines + length + seq!["Connection: close"@, Seq::empty(), Seq::empty()]
    &&& lines.len() == going(list).len()
    &&& forall|k: int|
        0 <= k < lines.len() ==> is_line(#[trigger] lines[k], going(list)[k].0, going(list)[k].1)
}

/// The head of a request, cut into lines, is that of its method, its path, its
/// headers and the address of the service.
#[verifier::rlimit(40)]
#[verifier::spinoff_prover]
pub proof fn law_request_lines(
    method: Seq<char>,
    path: Option<Seq<char>>,
    list: Seq<(Seq<char>, Seq<u8>)>,
    body_len: nat,
    host: Seq<char>,
    port: u16,
) -> (lines: Seq<Seq<char>>)
    requires
        one_line(method),
        path matches Some(p) ==> one_line(p),
        one_line(host),
        forall|i: int| 0 <= i < list.len() ==> one_line((#[trigger] list[i]).0),
    ensures
        is_head(
            origin::request_head(method, path, list, body_len, host, port),
            lines,
            method,
            path,
            list,
            body_len,
            host,
            port,
        ),
{
    let asked = match path {
        Some(p) => p,
        None => "/"@,
    };
    reveal_strlit("/");
    assert(one_line(asked));
    let length = if body_len == 0 {
        Seq::empty()
    } else {
        seq!["Content-Length: "@ + text::decimal(body_len)]
    };
    let end = seq!["Connection: close"@, Seq::empty(), Seq::empty()];
    let rest = origin::length_line(body_len) + "Connection: close\r\n\r\n"@;
    lemma_end_lines(body_len);
    let lines = lemma_header_lines(list, rest);
    let middle = origin::header_lines(list) + rest;
    lemma_start_lines(method, asked, host, port, middle);
    let start = method + " "@ + asked + " HTTP/1.1\r\nHost: "@ + host + ":"@ + text::decimal(
        port as nat,
    ) + "\r\n"@;
    let head = origin::request_head(method, path, list, body_len, host, port);
    assert(head =~= start + middle);
    let first = method + " "@ + asked + " HTTP/1.1"@;
    let second = "Host: "@ + host + ":"@ + text::decimal(port as nat);
    assert(split(head) =~= seq![first, second] + lines + length + end);
    lines
}

/// The first two lines of a head, cut off.
#[verifier::spinoff_prover]
proof fn lemma_start_lines(
    method: Seq<char>,
    asked: Seq<char>,
    host: Seq<char>,
    port: u16,
    rest: Seq<char>,
)
    requires
        one_line(method),
        one_line(asked),
        one_line(host),
    ensures
        split(
            method + " "@ + asked + " HTTP/1.1\r\nHost: "@ + host + ":"@ + text::decimal(
                port as nat,
            ) + "\r\n"@ + rest,
        ) == seq![
            method + " "@ + asked + " HTTP/1.1"@,
            "Host: "@ + host + ":"@ + text::decimal(port as nat),
        ] + split(rest),
{
    let number = text::decimal(port as nat);
    let first = method + " "@ + asked + " HTTP/1.1"@;
    let second = "Host: "@ + host + ":"@ + number;
    lemma_decimal_line(port as nat);
    assert(one_line(first)) by {
        reveal_strlit(" ");
        reveal_strlit(" HTTP/1.1");
        assert forall|i: int| 0 <= i < first.len() implies #[trigger] first[i] != '\r' by {
            let a = method.len() as int;
            let b = a + 1 + asked.len();
            if i < a {
                assert(first[i] == method[i]);
            } else if i > a && i < b {
                assert(first[i] == asked[i - a - 1]);
            } else if i >= b {
                assert(first[i] == " HTTP/1.1"@[i - b]);
            }
        }
    }
    assert(one_line(second)) by {
        reveal_strlit("Host: ");
        reveal_strlit(":");
        assert forall|i: int| 0 <= i < second.len() implies #[trigger] second[i] != '\r' by {
            let a = 6 + host.len();
            if i < 6 {
                assert(second[i] == "Host: "@[i]);
            } else if i < a {
                assert(second[i] == host[i - 6]);
            } else if i > a {
                assert(second[i] == number[i - a - 1]);
            }
        }
    }
    lemma_split_line(second, rest);
    let t = second + "\r\n"@ + rest;
    lemma_split_line(first, t);
    assert(" HTTP/1.1\r\nHost: "@ =~= " HTTP/1.1"@ + "\r\n"@ + "Host: "@) by {
        reveal_strlit("\r\n");
        reveal_strlit(" HTTP/1.1");
        reveal_strlit(" HTTP/1.1\r\nHost: ");
        reveal_strlit("Host: ");
    }
    assert(method + " "@ + asked + " HTTP/1.1\r\nHost: "@ + host + ":"@ + number + "\r\n"@ + rest
        =~= first + "\r\n"@ + t);
    assert(seq![first] + (seq![second] + split(rest)) =~= seq![first, second] + split(rest));
}

/// The end of a head, cut into lines.
#[verifier::spinoff_prover]
proof fn lemma_end_lines(body_len: nat)
    ensures
        split(origin::length_line(body_len) + "Connection: close\r\n\r\n"@) == (if body_len == 0 {
            Seq::empty()
        } else {
            seq!["Content-Length: "@ + text::decimal(body_len)]
        }) + seq!["Connection: close"@, Seq::empty(), Seq::empty()],
{
    let close = "Connection: close"@;
    let empty = Seq::<char>::empty();
    let end = seq![close, empty, empty];
    let t = "Connection: close\r\n\r\n"@;
    assert(one_line(close)) by {
        reveal_strlit("Connection: close");
    }
    assert(t =~= close + "\r\n"@ + ("\r\n"@ + empty)) by {
        reveal_strlit("\r\n");
        reveal_strlit("Connection: close");
        reveal_strlit("Connection: close\r\n\r\n");
    }
    lemma_split_last(empty);
    lemma_split_line(empty, empty);
    assert(empty + "\r\n"@ + empty =~= "\r\n"@ + empty);
    lemma_split_line(close, "\r\n"@ + empty);
    assert(split(t) =~= end);
    if body_len == 0 {
        assert(origin::length_line(body_len) + t =~= t);
        assert(Seq::<Seq<char>>::empty() + end =~= end);
    } else {
        let number = text::decimal(body_len);
        let line = "Content-Length: "@ + number;
        lemma_decimal_line(body_len);
        assert(one_line(line)) by {
            reveal_strlit("Content-Length: ");
            assert forall|i: int| 0 <= i < line.len() implies #[trigger] line[i] != '\r' by {
                if i < 16 {
                    assert(line[i] == "Content-Length: "@[i]);
                } else {
                    assert(line[i] == number[i - 16]);
                }
            }
        }
        lemma_split_line(line, t);
    }
}

/// A number is written in one line.
#[verifier::spinoff_prover]
proof fn lemma_decimal_line(n: nat)
    ensures
        one_line(text::decimal(n)),
    decreases n,
{
    if n >= 10 {
        lemma_decimal_line(n / 10);
        let t = text::decimal(n);
        assert forall|i: int| 0 <= i < t.len() implies #[trigger] t[i] != '\r' by {
            if i < t.len() - 1 {
                assert(t[i] == text::decimal(n / 10)[i]);
            }
        }
    }
}

/// The headers of an answer other than the content length.
pub open spec fn besides_length(list: Seq<(Seq<char>, Seq<u8>)>) -> Seq<(Seq<char>, Seq<u8>)> {
    list.filter(|e: (Seq<char>, Seq<u8>)| e.0 != "content-length"@)
}

/// Whether a line is that of a header of an answer: the whole value where it is
/// visible, and else none of it.
pub open spec fn is_answer_line(line: Seq<char>, name: Seq<char>, value: Seq<u8>) -> bool {
    is_line(
        line,
        name,
        if visible(value) {
            value
        } else {
            Seq::empty()
        },
    )
}

/// The line of a header.
#[verifier::spinoff_prover]
proof fn lemma_answer_line(name: Seq<char>, value: Seq<u8>)
    requires
        one_line(name),
    ensures
        ({
            let line = name + ": "@ + headers::value_text_or_empty(value);
            one_line(line) && is_answer_line(line, name, value)
        }),
{
    reveal_strlit(": ");
    lemma_value(value);
    let v = headers::value_text_or_empty(value);
    let line = name + ": "@ + v;
    assert forall|i: int| 0 <= i < line.len() implies #[trigger] line[i] != '\r' by {
        if i < name.len() {
            assert(line[i] == name[i]);
        } else if i >= name.len() + 2 {
            assert(line[i] == v[i - name.len() - 2]);
        }
    }
    let shown = if visible(value) {
        value
    } else {
        Seq::empty()
    };
    assert forall|i: int| 0 <= i < shown.len() implies (line[name.len() + 2 + i]) as int
        == #[trigger] shown[i] by {
        assert(line[name.len() + 2 + i] == v[i]);
    }
}

/// What is left besides the content length, with one header more.
#[verifier::spinoff_prover]
proof fn lemma_besides(list: Seq<(Seq<char>, Seq<u8>)>)
    requires
        list.len() > 0,
    ensures
        besides_length(list) == (if list.last().0 == "content-length"@ {
            besides_length(list.drop_last())
        } else {
            besides_length(list.drop_last()).push(list.last())
        }),
        headers::only_length(list) <==> besides_length(list).len() == 0,
    decreases list.len(),
{
    reveal(Seq::filter);
    let before = list.drop_last();
    if before.len() > 0 {
        lemma_besides(before);
    }
    if headers::only_length(list) {
        assert(list[list.len() - 1].0 == "content-length"@);
        assert forall|k: int| 0 <= k < before.len() implies (#[trigger] before[k]).0
            == "content-length"@ by {
            assert(before[k] == list[k]);
        }
    } else {
        let k = choose|k: int| 0 <= k < list.len() && (#[trigger] list[k]).0 != "content-length"@;
        if k < before.len() {
            assert(before[k].0 != "content-length"@);
        }
    }
}

/// The text of headers in front of another line, cut into lines.
#[verifier::spinoff_prover]
proof fn lemma_serialized_lines(list: Seq<(Seq<char>, Seq<u8>)>, rest: Seq<char>) -> (lines: Seq<
    Seq<char>,
>)
    requires
        forall|i: int| 0 <= i < list.len() ==> one_line((#[trigger] list[i]).0),
        besides_length(list).len() > 0,
    ensures
        split(headers::serialized(list) + "\r\n"@ + rest) == lines + split(rest),
        lines.len() == besides_length(list).len(),
        forall|k: int|
            0 <= k < lines.len() ==> is_answer_line(
                #[trigger] lines[k],
                besides_length(list)[k].0,
                besides_length(list)[k].1,
            ),
    decreases list.len(),
{
    reveal(Seq::filter);
    let before = list.drop_last();
    let (name, value) = list.last();
    assert(list.last() == list[list.len() - 1]);
    assert forall|i: int| 0 <= i < before.len() implies one_line((#[trigger] before[i]).0) by {
        assert(before[i] == list[i]);
    }
    lemma_besides(list);
    if before.len() > 0 {
        lemma_besides(before);
    }
    if name == "content-length"@ {
        lemma_serialized_lines(before, rest)
    } else {
        let line = name + ": "@ + headers::value_text_or_empty(value);
        lemma_answer_line(name, value);
        lemma_split_line(line, rest);
        if headers::only_length(before) {
            let lines = seq![line];
            assert(besides_length(before) =~= Seq::<(Seq<char>, Seq<u8>)>::empty());
            lines
        } else {
            let tail = line + "\r\n"@ + rest;
            let start = headers::serialized(before);
            assert(headers::serialized(list) + "\r\n"@ + rest =~= start + "\r\n"@ + tail);
            let lines = lemma_serialized_lines(before, tail);
            let all = lines.push(line);
            assert(lines + (seq![line] + split(rest)) =~= all + split(rest));
            assert forall|k: int| 0 <= k < all.len() implies is_answer_line(
                #[trigger] all[k],
                besides_length(list)[k].0,
                besides_length(list)[k].1,
            ) by {
                if k < lines.len() {
                    assert(all[k] == lines[k]);
                }
            }
            all
        }
    }
}

/// The text that carries the headers of an answer reads back: cut at its line
/// breaks, it is one line for each header other than the content length, in
/// order, each its name, a colon and a space, and its value byte by byte. Where
/// there is no such header, it is empty.
#[verifier::spinoff_prover]
pub proof fn law_headers_read_back(list: Seq<(Seq<char>, Seq<u8>)>) -> (lines: Seq<Seq<char>>)
    requires
        forall|i: int| 0 <= i < list.len() ==> one_line((#[trigger] list[i]).0),
    ensures
        besides_length(list).len() == 0 ==> headers::serialized(list) == Seq::<char>::empty(),
        besides_length(list).len() > 0 ==> split(headers::serialized(list)) == lines,
        lines.len() == besides_length(list).len(),
        forall|k: int|
            0 <= k < lines.len() ==> is_answer_line(
                #[trigger] lines[k],
                besides_length(list)[k].0,
                besides_length(list)[k].1,
            ),
    decreases list.len(),
{
    reveal(Seq::filter);
    if list.len() == 0 {
        Seq::empty()
    } else {
        let before = list.drop_last();
        let (name, value) = list.last();
        assert(list.last() == list[list.len() - 1]);
        assert forall|i: int| 0 <= i < before.len() implies one_line((#[trigger] before[i]).0) by {
            assert(before[i] == list[i]);
        }
        lemma_besides(list);
        if before.len() > 0 {
            lemma_besides(before);
        }
        if name == "content-length"@ {
            law_headers_read_back(before)
        } else {
            let line = name + ": "@ + headers::value_text_or_empty(value);
            lemma_answer_line(name, value);
            lemma_split_last(line);
            if headers::only_length(before) {
                assert(besides_length(before) =~= Seq::<(Seq<char>, Seq<u8>)>::empty());
                seq![line]
            } else {
                let lines = lemma_serialized_lines(before, line);
                let all = lines.push(line);
                assert(lines + seq![line] =~= all);
                assert forall|k: int| 0 <= k < all.len() implies is_answer_line(
                    #[trigger] all[k],
                    besides_length(list)[k].0,
                    besides_length(list)[k].1,
                ) by {
                    if k < lines.len() {
                        assert(all[k] == lines[k]);
                    }
                }
                all
            }
        }
    }
}

/// The line of a header, cut at its first colon, is the name of the header, a
/// space and its value.
#[verifier::spinoff_prover]
pub proof fn law_line_is_cut(line: Seq<char>, name: Seq<char>, value: Seq<u8>)
    requires
        is_line(line, name, value),
        !name.contains(':'),
    ensures
        line.index_of_first(':') == Some(name.len() as int),
        line.take(name.len() as int) == name,
        ({
            let rest = line.skip(name.len() + 1int);
            &&& rest.len() == 1 + value.len()
            &&& rest[0] == ' '
            &&& forall|i: int| 0 <= i < value.len() ==> (rest[1 + i]) as int == #[trigger] value[i]
        }),
{
    line.index_of_first_ensures(':');
    let n = name.len() as int;
    assert(line[n] == ':');
    assert(line.contains(':'));
    let i = line.index_of_first(':').unwrap();
    if i < n {
        assert(line[i] == name[i]);
        assert(name.contains(':'));
    }
    assert(line.take(n) =~= name);
    let rest = line.skip(n + 1);
    assert forall|i: int| 0 <= i < value.len() implies (rest[1 + i]) as int == #[trigger] value[i] by {
        assert(rest[1 + i] == line[n + 2 + i]);
    }
}

/// An answer with one header besides the content length goes back with that
/// header's line as it is: its name, a colon and a space, and each byte of its
/// value.
#[verifier::spinoff_prover]
pub proof fn law_one_header(list: Seq<(Seq<char>, Seq<u8>)>, name: Seq<char>, value: Seq<u8>)
    requires
        besides_length(list) == seq![(name, value)],
        forall|i: int| 0 <= i < list.len() ==> one_line((#[trigger] list[i]).0),
        visible(value),
    ensures
        is_line(headers::serialized(list), name, value),
{
    let lines = law_headers_read_back(list);
    let t = headers::serialized(list);
    assert(split(t) == lines && lines.len() == 1);
    assert(split(t)[0] == lines[0]);
    assert(is_answer_line(lines[0], name, value));
    t.index_of_first_ensures('\r');
    match t.index_of_first('\r') {
        None => {},
        Some(i) => {
            if 0 <= i && i + 2 <= t.len() && t[i + 1] == '\n' {
                lemma_split_some(t.skip(i + 2));
                assert(split(t).len() >= 2);
            }
        },
    }
}

/// Every text has a line.
#[verifier::spinoff_prover]
proof fn lemma_split_some(t: Seq<char>)
    ensures
        split(t).len() >= 1,
    decreases t.len(),
{
}

/// What goes back to the edge: the status of the answer and its body as they
/// are; its first content length, where it has one, and nothing else but the
/// header that carries all others. Nothing follows the headers where the body is
/// empty.
#[verifier::rlimit(40)]
#[verifier::spinoff_prover]
pub proof fn law_reply(answer: HttpResponse, reply: tunnel::EdgeReply)
    requires
        tunnel::is_reply(answer, Ok(reply)),
    ensures
        reply.status == answer.status,
        buffers::held(reply.body) == buffers::held(answer.body),
        reply.end_stream <==> buffers::held(answer.body).len() == 0,
        ({
            let list = headers::entries(answer.headers);
            let sent = headers::entries(reply.headers);
            let carried = (
                "cf-cloudflared-proxy-response-headers"@,
                vstd::utf8::encode_utf8(headers::serialized(list)),
            );
            &&& (forall|i: int| 0 <= i < list.len() ==> (#[trigger] list[i]).0 != "content-length"@)
                ==> sent == seq![carried]
            &&& forall|i: int|
                0 <= i < list.len() && #[trigger] list[i].0 == "content-length"@ && (forall|j: int|
                    0 <= j < i ==> (#[trigger] list[j]).0 != "content-length"@) ==> sent == seq![
                    ("content-length"@, list[i].1),
                    carried,
                ]
        }),
{
    let list = headers::entries(answer.headers);
    let sent = headers::entries(reply.headers);
    let carried = (
        "cf-cloudflared-proxy-response-headers"@,
        vstd::utf8::encode_utf8(headers::serialized(list)),
    );
    if forall|i: int| 0 <= i < list.len() ==> (#[trigger] list[i]).0 != "content-length"@ {
        assert(!headers::has_name(list, "content-length"@));
        assert(sent =~= seq![carried]);
    }
    assert forall|i: int|
        0 <= i < list.len() && #[trigger] list[i].0 == "content-length"@ && (forall|j: int|
            0 <= j < i ==> (#[trigger] list[j]).0 != "content-length"@) implies sent == seq![
        ("content-length"@, list[i].1),
        carried,
    ] by {
        assert(headers::is_first(list, "content-length"@, i));
        headers::lemma_one_first(list, "content-length"@, i);
        assert(sent =~= seq![("content-length"@, list[i].1), carried]);
    }
}

/// Whether an answer goes back is decided by the text of its headers alone: where
/// each of its bytes can stand in a header value, it does.
#[verifier::spinoff_prover]
pub proof fn law_reply_is_owed(answer: HttpResponse, r: Result<tunnel::EdgeReply, ProxyError>)
    requires
        tunnel::is_reply(answer, r),
    ensures
        ({
            let bytes = vstd::utf8::encode_utf8(
                headers::serialized(headers::entries(answer.headers)),
            );
            r is Ok <==> forall|i: int|
                0 <= i < bytes.len() ==> (#[trigger] bytes[i] >= 32 && bytes[i] != 127) || bytes[i]
                    == 9
        }),
{
}

/// A request to a service is its head and, behind it, each byte of its body.
#[verifier::spinoff_prover]
pub proof fn law_request_bytes(req: OriginRequest, host: Seq<char>, port: u16) -> (r: (
    Seq<char>,
    Seq<Seq<char>>,
))
    requires
        one_line(req.method@),
        req.path matches Some(p) ==> one_line(p@),
        one_line(host),
        forall|i: int|
            0 <= i < headers::entries(req.headers).len() ==> one_line(
                (#[trigger] headers::entries(req.headers)[i]).0,
            ),
    ensures
        ({
            let (head, lines) = r;
            let start = vstd::utf8::encode_utf8(head);
            let body = buffers::held(req.body);
            let bytes = origin::request_bytes(req, host, port);
            let path = match req.path {
                Some(p) => Some(p@),
                None => None,
            };
            &&& is_head(
                head,
                lines,
                req.method@,
                path,
                headers::entries(req.headers),
                body.len(),
                host,
                port,
            )
            &&& bytes.len() == start.len() + body.len()
            &&& forall|i: int| 0 <= i < start.len() ==> bytes[i] == #[trigger] start[i]
            &&& forall|i: int| 0 <= i < body.len() ==> bytes[start.len() + i] == #[trigger] body[i]
        }),
{
    let path = match req.path {
        Some(p) => Some(p@),
        None => None,
    };
    let list = headers::entries(req.headers);
    let len = buffers::held(req.body).len();
    let lines = law_request_lines(req.method@, path, list, len, host, port);
    (origin::request_head(req.method@, path, list, len, host, port), lines)
}

/// The text of a header is that of the first with its name, where that is
/// visible; and else it is empty.
#[verifier::spinoff_prover]
pub proof fn law_header_text(list: Seq<(Seq<char>, Seq<u8>)>, name: Seq<char>, i: int)
    ensures
        !headers::has_name(list, name) ==> tunnel::header_text(list, name).len() == 0,
        headers::is_first(list, name, i) && !visible(list[i].1) ==> tunnel::header_text(
            list,
            name,
        ).len() == 0,
        headers::is_first(list, name, i) && visible(list[i].1) ==> {
            let t = tunnel::header_text(list, name);
            t.len() == list[i].1.len() && forall|k: int|
                0 <= k < t.len() ==> (#[trigger] t[k]) as int == list[i].1[k]
        },
{
    if headers::is_first(list, name, i) {
        headers::lemma_one_first(list, name, i);
        assert(list[i].0 == name);
        law_value_text(list[i].1);
    }
}

/// Whether a header is for the service: all are but those whose name starts with
/// a colon, `host`, and the header that says what a stream is for.
pub open spec fn for_service(name: Seq<char>) -> bool {
    &&& !(name.len() > 0 && name[0] == ':')
    &&& name != "host"@
    &&& name != "cf-cloudflared-proxy-connection-upgrade"@
}

/// Which headers of a request are handed on to a service: those for it, of each
/// name the last value.
#[verifier::spinoff_prover]
pub proof fn law_handed_on(list: Seq<(Seq<char>, Seq<u8>)>, name: Seq<char>, k: int)
    ensures
        headers::has_name(tunnel::handed_on(list), name) <==> headers::has_name(list, name)
            && for_service(name),
        headers::is_last(list, name, k) && for_service(name) ==> exists|i: int|
            0 <= i < tunnel::handed_on(list).len() && (#[trigger] tunnel::handed_on(list)[i]).0
                == name && tunnel::handed_on(list)[i].1 == list[k].1,
        forall|i: int, j: int|
            0 <= i < j < tunnel::handed_on(list).len() ==> (#[trigger] tunnel::handed_on(list)[i]).0
                != (#[trigger] tunnel::handed_on(list)[j]).0,
{
    tunnel::law_last_header_is_handed_on(list);
    lemma_for_service(name);
    let out = tunnel::handed_on(list);
    if headers::is_last(list, name, k) && for_service(name) {
        assert(list[k].0 == name);
        assert(headers::has_name(out, name));
        let i = choose|i: int| 0 <= i < out.len() && (#[trigger] out[i]).0 == name;
        assert(headers::is_last(list, out[i].0, k));
    }
}

/// What is for a service.
#[verifier::spinoff_prover]
proof fn lemma_for_service(name: Seq<char>)
    ensures
        tunnel::is_handed_on(name) <==> for_service(name),
{
    reveal_strlit(":");
    text_laws::law_starts(name, ":"@);
    assert(":"@[0] == ':');
}

/// Of a request in which no two headers have the same name, those for the
/// service are handed on in order and unchanged.
#[verifier::spinoff_prover]
pub proof fn law_handed_on_in_order(list: Seq<(Seq<char>, Seq<u8>)>)
    requires
        forall|i: int, j: int| 0 <= i < j < list.len() ==> (#[trigger] list[i]).0 != (
        #[trigger] list[j]).0,
    ensures
        tunnel::handed_on(list) == list.filter(|e: (Seq<char>, Seq<u8>)| for_service(e.0)),
    decreases list.len(),
{
    reveal(Seq::filter);
    if list.len() > 0 {
        let rest = list.drop_last();
        let name = list.last().0;
        assert forall|i: int, j: int| 0 <= i < j < rest.len() implies (#[trigger] rest[i]).0 != (
        #[trigger] rest[j]).0 by {
            assert(rest[i] == list[i] && rest[j] == list[j]);
        }
        law_handed_on_in_order(rest);
        lemma_for_service(name);
        law_handed_on(rest, name, 0);
        if headers::has_name(rest, name) {
            let k = choose|k: int| 0 <= k < rest.len() && (#[trigger] rest[k]).0 == name;
            assert(rest[k] == list[k] && list[list.len() - 1].0 == name);
        }
    }
}

/// What the tunnel looks for in a stream, and what it writes.
#[verifier::spinoff_prover]
pub proof fn law_own_header_names()
    ensures
        tunnel::HDR_UPGRADE@ == "cf-cloudflared-proxy-connection-upgrade"@,
        tunnel::HDR_RESP_HEADERS@ == "cf-cloudflared-proxy-response-headers"@,
        tunnel::CONTROL_STREAM_VAL@ == "control-stream"@,
{
}

/// A rule that answers by itself does so whatever the request is: with its status
/// where it has one, and with the page that is built in.
#[verifier::spinoff_prover]
pub proof fn law_answered_at_once(
    rule: IngressRule,
    req: EdgeRequest,
    r: Result<Plan, ProxyError>,
)
    requires
        tunnel::is_plan(rule, req, r),
    ensures
        rule.spec_status_code() matches Some(code) ==> (r matches Ok(Plan::Answer(a)) && a.is_status(
            code,
        )),
        rule.spec_status_code() is None && rule.service@ == "hello_world"@ ==> (r matches Ok(
            Plan::Answer(a),
        ) && a.is_hello_world()),
        r matches Ok(Plan::Answer(a)) ==> rule.spec_status_code() is Some || rule.service@
            == "hello_world"@,
{
}

/// Whether a plan is to send a head, and behind it each byte of a body, to a host
/// and a port.
pub open spec fn sends(
    plan: Plan,
    host: Seq<char>,
    port: u16,
    head: Seq<u8>,
    body: Seq<u8>,
) -> bool {
    &&& plan matches Plan::Ask(x)
    &&& x.host@ == host
    &&& x.port == port
    &&& x.message@.len() == head.len() + body.len()
    &&& forall|i: int| 0 <= i < head.len() ==> x.message@[i] == #[trigger] head[i]
    &&& forall|i: int| 0 <= i < body.len() ==> x.message@[head.len() + i] == #[trigger] body[i]
}

/// What is asked of a service: its host, or this machine where its URL has none;
/// its port, or 80 where the URL has none; and the request with its method, the
/// headers that are handed on, and its body byte by byte.
#[verifier::spinoff_prover]
pub proof fn law_asked(
    rule: IngressRule,
    req: EdgeRequest,
    parts: (Seq<char>, Option<Seq<char>>, Option<u16>),
    r: Result<Plan, ProxyError>,
)
    requires
        tunnel::is_plan(rule, req, r),
        rule.spec_status_code() is None,
        rule.service@ != "hello_world"@,
        urls::parsed_url(rule.service@) == Ok::<_, Seq<char>>(parts),
    ensures
        ({
            let (scheme, named_host, named_port) = parts;
            let host = match named_host {
                Some(h) => h,
                None => "127.0.0.1"@,
            };
            let port: u16 = match named_port {
                Some(p) => p,
                None => 80,
            };
            let asked = match req.path {
                Some(p) => p@,
                None => "/"@,
            };
            let body = buffers::held(req.body);
            let handed = tunnel::handed_on(headers::entries(req.headers));
            match urls::parsed_uri(
                scheme + "://"@ + (host + ":"@ + text::decimal(port as nat)) + asked,
            ) {
                Err(e) => r matches Err(ProxyError::Rewrite(RewriteError::Uri(t))) && t@ == e,
                Ok(path) => {
                    &&& handed.len() <= 6553 ==> r is Ok
                    &&& r is Err ==> r->Err_0 is TooManyHeaders
                    &&& r matches Ok(plan) ==> sends(
                        plan,
                        host,
                        port,
                        vstd::utf8::encode_utf8(
                            origin::request_head(
                                req.method@,
                                path,
                                handed,
                                body.len(),
                                host,
                                port,
                            ),
                        ),
                        body,
                    )
                },
            }
        }),
{
}

/// A service that is no URL is asked nothing, and the error is what the parser of
/// URLs says.
#[verifier::spinoff_prover]
pub proof fn law_service_without_url(
    rule: IngressRule,
    req: EdgeRequest,
    e: Seq<char>,
    r: Result<Plan, ProxyError>,
)
    requires
        tunnel::is_plan(rule, req, r),
        rule.spec_status_code() is None,
        rule.service@ != "hello_world"@,
        urls::parsed_url(rule.service@) == Err::<
            (Seq<char>, Option<Seq<char>>, Option<u16>),
            Seq<char>,
        >(e),
    ensures
        r matches Err(ProxyError::Rewrite(RewriteError::Url(t))) && t@ == e,
{
}

/// The address of a service: host, colon and port in decimal digits; the host is
/// this machine and the port 80 where there is none.
#[verifier::spinoff_prover]
pub proof fn law_address(host: Option<Seq<char>>, port: Option<u16>)
    ensures
        host matches Some(h) ==> urls::host_or_default(host) == h,
        host is None ==> urls::host_or_default(host) == "127.0.0.1"@,
        port matches Some(p) ==> urls::port_or_default(port) == p,
        port is None ==> urls::port_or_default(port) == 80,
        forall|h: Seq<char>, p: u16| #[trigger]
            urls::address_text(h, p) == h + ":"@ + text::decimal(p as nat),
{
}

/// A stream is for the registration if, and only if, the text of the first header
/// that says what it is for is `control-stream`; every other is a request.
#[verifier::spinoff_prover]
pub proof fn law_stream_kind(list: Seq<(Seq<char>, Seq<u8>)>)
    ensures
        tunnel::kind_of(list) is Control <==> tunnel::header_text(
            list,
            "cf-cloudflared-proxy-connection-upgrade"@,
        ) == "control-stream"@,
        tunnel::kind_of(list) is Control || tunnel::kind_of(list) is Proxy,
{
}

/// The host that a request is for is the text of its first `host` header.
#[verifier::spinoff_prover]
pub proof fn law_requested_host(list: Seq<(Seq<char>, Seq<u8>)>, i: int)
    requires
        headers::is_first(list, "host"@, i),
        visible(list[i].1),
    ensures
        tunnel::host_of(list).len() == list[i].1.len(),
        forall|k: int|
            0 <= k < list[i].1.len() ==> (#[trigger] tunnel::host_of(list)[k]) as int
                == list[i].1[k],
{
    law_header_text(list, "host"@, i);
}

/// A request that no rule is for is not found; every other is planned by its rule.
#[verifier::spinoff_prover]
pub proof fn law_found_plan(
    rule: IngressRule,
    req: EdgeRequest,
    r: Result<Plan, ProxyError>,
)
    ensures
        tunnel::is_found_plan(None, r) ==> (r matches Ok(Plan::Answer(a)) && a.status == 404
            && a.is_not_found()),
        tunnel::is_found_plan(Some((rule, req)), r) <==> tunnel::is_plan(rule, req, r),
{
}

/// After a wait for the next stream, a tunnel registers on a control stream and
/// answers on every other; it leaves a connection that is closed or that the edge
/// sends it away from, and one that failed with what went wrong.
#[verifier::spinoff_prover]
pub proof fn law_step(event: tunnel::AcceptEvent)
    ensures
        tunnel::step_after(event) is Register <==> event == tunnel::AcceptEvent::Stream(
            tunnel::StreamKind::Control,
        ),
        tunnel::step_after(event) is Answer <==> event == tunnel::AcceptEvent::Stream(
            tunnel::StreamKind::Proxy,
        ),
        tunnel::step_after(event) is Done <==> event is GoAway || event is Closed,
        forall|e: String| #[trigger]
            tunnel::step_after(tunnel::AcceptEvent::Failed(e)) == tunnel::AcceptStep::Fail(e),
{
}

/// A file that was given is used, whatever the default one is; the default one
/// only where none was given; and where there is neither, there is an error.
#[verifier::spinoff_prover]
pub proof fn law_chosen_config<P>(given: Option<P>, default: Option<P>, r: Result<P, String>)
    requires
        tunnel::is_chosen(given, default, r),
    ensures
        given is Some ==> r is Ok && r->Ok_0 == given.unwrap(),
        given is None && default is Some ==> r is Ok && r->Ok_0 == default.unwrap(),
        r is Err <==> given is None && default is None,
        r is Err ==> r->Err_0@
            == "Config file not found. Create ~/.cloudflared/config.yaml:\n\ningress:\n  - hostname: example.com\n    service: http://localhost:8080\n\n  - service: http_status:404\n"@,
{
}

/// A rule with a status or for the page that is built in is answered, and every
/// other forwarded.
#[verifier::spinoff_prover]
pub proof fn law_dispatch(rule: IngressRule, r: origin::Dispatch)
    requires
        origin::is_dispatch(rule, r),
    ensures
        r is Forward <==> rule.spec_status_code() is None && rule.service@ != "hello_world"@,
        rule.spec_status_code() matches Some(code) ==> (r matches origin::Dispatch::Answer(a)
            && a.is_status(code)),
        rule.spec_status_code() is None && rule.service@ == "hello_world"@ ==> (
        r matches origin::Dispatch::Answer(a) && a.is_hello_world()),
{
}

/// What is sent to the service at a URL goes to the host and the port of the URL,
/// or to this machine and port 80 where it has none.
#[verifier::spinoff_prover]
pub proof fn law_exchange(
    url: Seq<char>,
    req: OriginRequest,
    r: Result<origin::Exchange, String>,
)
    requires
        origin::is_exchange(url, req, r),
    ensures
        match urls::parsed_url(url) {
            Err(e) => r is Err && r->Err_0@ == e,
            Ok((_, host, port)) => {
                &&& r matches Ok(x)
                &&& host matches Some(h) ==> x.host@ == h
                &&& host is None ==> x.host@ == "127.0.0.1"@
                &&& port matches Some(p) ==> x.port == p
                &&& port is None ==> x.port == 80
                &&& x.message@ == origin::request_bytes(req, x.host@, x.port)
            },
        },
{
}

/// The URI of a request at a service has the scheme, the host and the port of the
/// service and the path of the request.
#[verifier::spinoff_prover]
pub proof fn law_rewritten(
    path: Option<Seq<char>>,
    service: Seq<char>,
    r: Result<Option<String>, RewriteError>,
)
    requires
        urls::is_rewritten(path, service, r),
    ensures
        match urls::parsed_url(service) {
            Err(e) => r matches Err(RewriteError::Url(t)) && t@ == e,
            Ok((scheme, named_host, named_port)) => {
                let host = match named_host {
                    Some(h) => h,
                    None => "127.0.0.1"@,
                };
                let port: u16 = match named_port {
                    Some(p) => p,
                    None => 80,
                };
                let asked = match path {
                    Some(p) => p,
                    None => "/"@,
                };
                match urls::parsed_uri(
                    scheme + "://"@ + (host + ":"@ + text::decimal(port as nat)) + asked,
                ) {
                    Err(e) => r matches Err(RewriteError::Uri(t)) && t@ == e,
                    Ok(Some(new)) => r matches Ok(Some(p)) && p@ == new,
                    Ok(None) => r matches Ok(None),
                }
            },
        },
{
}

/// The address of a URL: its host and port, or this machine and port 80.
#[verifier::spinoff_prover]
pub proof fn law_url_address(
    url: Seq<char>,
    r: Result<(String, u16), String>,
    joined: Result<String, String>,
)
    requires
        urls::is_url_address(url, r),
        proxy::is_upstream(url, joined),
    ensures
        match urls::parsed_url(url) {
            Err(e) => r is Err && r->Err_0@ == e && joined is Err && joined->Err_0@ == e,
            Ok((_, host, port)) => {
                &&& r matches Ok(a)
                &&& host matches Some(h) ==> a.0@ == h
                &&& host is None ==> a.0@ == "127.0.0.1"@
                &&& port matches Some(p) ==> a.1 == p
                &&& port is None ==> a.1 == 80
                &&& joined matches Ok(t)
                &&& t@ == a.0@ + ":"@ + text::decimal(a.1 as nat)
            },
        },
{
}

} // verus!
