//! What holds of the answers of services: what of them goes back, unchanged, and
//! what cannot be used.

use vstd::prelude::*;
use crate::buffers;
use crate::headers;
use crate::origin;
use crate::origin::{HeadError, HttpResponse, OriginError};
use crate::text;
use crate::tunnel;

verus! {

/// The answer to a request has the status that the service gave, whichever of
/// those that HTTP has it is, its headers, and for its body exactly the bytes
/// that stand behind the head. A head without a code is a failure of the
/// service.
pub proof fn law_response_is_passed_on(
    len: nat,
    code: Option<u16>,
    list: Seq<(Seq<char>, Seq<u8>)>,
    raw: Seq<u8>,
    r: Result<HttpResponse, OriginError>,
)
    requires
        origin::is_response((len, code, list), raw, r),
        len <= raw.len(),
    ensures
        r is Ok <==> (code matches Some(c) ==> 100 <= c <= 999) && origin::collected(list) is Ok,
        r matches Ok(a) ==> {
            let body = buffers::held(a.body);
            &&& code matches Some(c) ==> a.status == c
            &&& code is None ==> a.status == 502
            &&& Ok::<_, HeadError>(headers::entries(a.headers)) == origin::collected(list)
            &&& body.len() + len == raw.len()
            &&& forall|i: int| 0 <= i < body.len() ==> #[trigger] body[i] == raw[len + i]
        },
{
}

/// Where an answer cannot be used, the code is the cause where it is no status,
/// and else the first header that is none.
pub proof fn law_unusable_response(
    len: nat,
    code: Option<u16>,
    list: Seq<(Seq<char>, Seq<u8>)>,
    raw: Seq<u8>,
    r: Result<HttpResponse, OriginError>,
)
    requires
        origin::is_response((len, code, list), raw, r),
        r is Err,
    ensures
        r matches Err(OriginError::Head(e)) && {
            &&& e == HeadError::Status <==> (code matches Some(c) && !(100 <= c <= 999))
            &&& e != HeadError::Status ==> origin::collected(list) == Err::<
                Seq<(Seq<char>, Seq<u8>)>,
                HeadError,
            >(e)
        },
{
    lemma_collected_errors(list);
}

/// No status is wrong with headers.
proof fn lemma_collected_errors(list: Seq<(Seq<char>, Seq<u8>)>)
    ensures
        origin::collected(list) matches Err(e) ==> e != HeadError::Status,
    decreases list.len(),
{
    if list.len() > 0 {
        lemma_collected_errors(list.drop_last());
    }
}

/// Whether bytes can be the value of a header: no control character but the tab.
pub open spec fn can_be_value(value: Seq<u8>) -> bool {
    forall|i: int|
        0 <= i < value.len() ==> (#[trigger] value[i] == 9 || (value[i] >= 32 && value[i] != 127))
}

/// Whether a text can be the name of a header.
pub open spec fn can_be_name(name: Seq<char>) -> bool {
    headers::name_of(vstd::utf8::encode_utf8(name)) is Some
}

/// The name of a header as a map holds it.
pub open spec fn held_name(name: Seq<char>) -> Seq<char> {
    headers::name_of(vstd::utf8::encode_utf8(name)).unwrap()
}

/// What picks the headers of a name.
pub open spec fn named(name: Seq<char>) -> spec_fn((Seq<char>, Seq<u8>)) -> bool {
    |e: (Seq<char>, Seq<u8>)| e.0 == name
}

/// The headers of a name, in order.
pub open spec fn of_name(list: Seq<(Seq<char>, Seq<u8>)>, name: Seq<char>) -> Seq<
    (Seq<char>, Seq<u8>),
> {
    list.filter(named(name))
}

/// The headers of an answer can be used if, and only if, each has a name and a
/// value that can be one.
pub proof fn law_usable_headers(list: Seq<(Seq<char>, Seq<u8>)>)
    ensures
        origin::collected(list) is Ok <==> forall|i: int|
            0 <= i < list.len() ==> can_be_name((#[trigger] list[i]).0) && can_be_value(list[i].1),
    decreases list.len(),
{
    if list.len() > 0 {
        let rest = list.drop_last();
        law_usable_headers(rest);
        assert(list.last() == list[list.len() - 1]);
        lemma_value(list.last().1);
        if origin::collected(list) is Ok {
            assert forall|i: int| 0 <= i < list.len() implies can_be_name((#[trigger] list[i]).0)
                && can_be_value(list[i].1) by {
                if i < rest.len() {
                    assert(rest[i] == list[i]);
                }
            }
        }
        if forall|i: int|
            0 <= i < list.len() ==> can_be_name((#[trigger] list[i]).0) && can_be_value(list[i].1) {
            assert forall|i: int| 0 <= i < rest.len() implies can_be_name((#[trigger] rest[i]).0)
                && can_be_value(rest[i].1) by {
                assert(rest[i] == list[i]);
            }
        }
    }
}

/// What can be a value.
proof fn lemma_value(value: Seq<u8>)
    ensures
        headers::is_value(value) <==> can_be_value(value),
{
    if headers::is_value(value) {
        assert forall|i: int| 0 <= i < value.len() implies (#[trigger] value[i] == 9 || (value[i]
            >= 32 && value[i] != 127)) by {}
    }
    if can_be_value(value) {
        assert forall|i: int| 0 <= i < value.len() implies (#[trigger] value[i] >= 32 && value[i]
            != 127) || value[i] == 9 by {}
    }
}

/// The first header that cannot be used says why the headers cannot be: its name,
/// or else its value.
pub proof fn law_first_unusable_header(list: Seq<(Seq<char>, Seq<u8>)>, k: int)
    requires
        0 <= k < list.len(),
        forall|i: int|
            0 <= i < k ==> can_be_name((#[trigger] list[i]).0) && can_be_value(list[i].1),
    ensures
        !can_be_name(list[k].0) ==> origin::collected(list) == Err::<
            Seq<(Seq<char>, Seq<u8>)>,
            HeadError,
        >(HeadError::HeaderName),
        can_be_name(list[k].0) && !can_be_value(list[k].1) ==> origin::collected(list) == Err::<
            Seq<(Seq<char>, Seq<u8>)>,
            HeadError,
        >(HeadError::HeaderValue),
    decreases list.len(),
{
    let rest = list.drop_last();
    assert(list.last() == list[list.len() - 1]);
    lemma_value(list.last().1);
    if k < rest.len() {
        assert(rest[k] == list[k]);
        assert forall|i: int| 0 <= i < k implies can_be_name((#[trigger] rest[i]).0)
            && can_be_value(rest[i].1) by {
            assert(rest[i] == list[i]);
        }
        law_first_unusable_header(rest, k);
    } else {
        assert forall|i: int| 0 <= i < rest.len() implies can_be_name((#[trigger] rest[i]).0)
            && can_be_value(rest[i].1) by {
            assert(rest[i] == list[i]);
        }
        law_usable_headers(rest);
    }
}

/// The headers of an answer with their names as a map holds them.
pub open spec fn held(list: Seq<(Seq<char>, Seq<u8>)>) -> Seq<(Seq<char>, Seq<u8>)> {
    Seq::new(list.len(), |i: int| (held_name(list[i].0), list[i].1))
}

/// A header that is put behind those of its name.
proof fn lemma_appended(
    list: Seq<(Seq<char>, Seq<u8>)>,
    name: Seq<char>,
    value: Seq<u8>,
    other: Seq<char>,
)
    ensures
        of_name(headers::appended(list, name, value), other) == (if other == name {
            of_name(list, other).push((name, value))
        } else {
            of_name(list, other)
        }),
{
    let p = named(other);
    let e = (name, value);
    if headers::has_name(list, name) {
        headers::lemma_last(list, name);
        let i = choose|i: int| headers::is_last(list, name, i);
        let a = list.take(i + 1);
        let b = list.skip(i + 1);
        assert(headers::appended(list, name, value) =~= a.push(e) + b);
        Seq::filter_distributes_over_add(a.push(e), b, p);
        a.lemma_filter_push(e, p);
        assert(list =~= a + b);
        Seq::filter_distributes_over_add(a, b, p);
        if other == name {
            assert forall|x: (Seq<char>, Seq<u8>)| #[trigger] b.contains(x) implies !p(x) by {
                let k = choose|k: int| 0 <= k < b.len() && b[k] == x;
                assert(b[k] == list[i + 1 + k]);
            }
            b.lemma_all_neg_filter_empty(p);
            assert(b.filter(p) =~= Seq::empty());
            assert(of_name(headers::appended(list, name, value), other) =~= of_name(
                list,
                other,
            ).push(e));
        } else {
            assert(of_name(headers::appended(list, name, value), other) =~= of_name(list, other));
        }
    } else {
        list.lemma_filter_push(e, p);
    }
}

/// The headers of an answer keep their values: those of a name are the same as
/// those that came with it, and in the order in which they came.
pub proof fn law_values_stay_in_order(list: Seq<(Seq<char>, Seq<u8>)>, name: Seq<char>)
    requires
        origin::collected(list) is Ok,
    ensures
        of_name(origin::collected(list)->Ok_0, name) == of_name(held(list), name),
    decreases list.len(),
{
    reveal(Seq::filter);
    if list.len() == 0 {
        assert(held(list) =~= Seq::empty());
    } else {
        let rest = list.drop_last();
        law_values_stay_in_order(rest, name);
        let before = origin::collected(rest)->Ok_0;
        let (own, value) = (held_name(list.last().0), list.last().1);
        lemma_appended(before, own, value, name);
        assert(held(list) =~= held(rest).push((own, value)));
        held(rest).lemma_filter_push((own, value), named(name));
    }
}

/// Headers of which no two have the same name stay in the order in which they
/// came.
pub proof fn law_headers_stay_in_order(list: Seq<(Seq<char>, Seq<u8>)>)
    requires
        origin::collected(list) is Ok,
        forall|i: int, j: int|
            #![trigger list[i], list[j]]
            0 <= i < j < list.len() ==> held_name(list[i].0) != held_name(list[j].0),
    ensures
        origin::collected(list)->Ok_0 == held(list),
    decreases list.len(),
{
    if list.len() > 0 {
        let rest = list.drop_last();
        assert forall|i: int, j: int|
            #![trigger rest[i], rest[j]]
            0 <= i < j < rest.len() implies held_name(rest[i].0) != held_name(rest[j].0) by {
            assert(rest[i] == list[i] && rest[j] == list[j]);
        }
        law_headers_stay_in_order(rest);
        let before = held(rest);
        let own = held_name(list.last().0);
        if headers::has_name(before, own) {
            let k = choose|k: int| 0 <= k < before.len() && (#[trigger] before[k]).0 == own;
            assert(rest[k] == list[k] && list.last() == list[list.len() - 1]);
            assert(held_name(list[k].0) != held_name(list[list.len() - 1].0));
        }
        assert(held(list) =~= before.push((own, list.last().1)));
    }
}

/// What comes of the bytes that a service sent, for the request: where a head
/// was read that can be used, its status, its headers and what stands behind it;
/// and else, or where nothing came, the answer that says that the service failed.
pub proof fn law_reply_of_a_service(received: Option<Seq<u8>>, r: HttpResponse)
    requires
        tunnel::is_origin_reply(received, r),
    ensures
        100 <= r.status <= 999,
        ({
            let failed = r.status == 502 && headers::entries(r.headers).len() == 0 && buffers::held(
                r.body,
            ) == vstd::utf8::encode_utf8("502 Bad Gateway\n"@);
            match received {
                None => failed,
                Some(raw) => match origin::parsed_head(raw, 64) {
                    Ok(Some((len, code, list))) => match (code, origin::collected(list)) {
                        (Some(c), Ok(kept)) => if 100 <= c <= 999 {
                            &&& r.status == c
                            &&& headers::entries(r.headers) == kept
                            &&& buffers::held(r.body) == raw.skip(len as int)
                        } else {
                            failed
                        },
                        (None, Ok(kept)) => {
                            &&& r.status == 502
                            &&& headers::entries(r.headers) == kept
                            &&& buffers::held(r.body) == raw.skip(len as int)
                        },
                        (_, Err(_)) => failed,
                    },
                    _ => failed,
                },
            }
        }),
{
}

/// The answers that the tunnel gives itself, byte by byte.
pub proof fn law_own_answers(a: HttpResponse)
    ensures
        a.is_bad_gateway() ==> a.status == 502 && headers::entries(a.headers).len() == 0
            && is_ascii_text(buffers::held(a.body), "502 Bad Gateway\n"@),
        a.is_not_found() ==> a.status == 404 && headers::entries(a.headers).len() == 0
            && is_ascii_text(buffers::held(a.body), "404 No matching ingress rule\n"@),
        a.is_hello_world() ==> {
            let list = headers::entries(a.headers);
            &&& a.status == 200
            &&& list.len() == 1
            &&& list[0].0 == "content-type"@
            &&& is_ascii_text(list[0].1, "text/html"@)
            &&& buffers::held(a.body) == vstd::utf8::encode_utf8(
                "<!DOCTYPE html><html><body><h1>mini-cloudflared</h1><p>Hello World! The tunnel is working.</p></body></html>"@,
            )
        },
{
    assert(vstd::utf8::is_ascii_chars("502 Bad Gateway\n"@)) by {
        reveal_strlit("502 Bad Gateway\n");
    }
    assert(vstd::utf8::is_ascii_chars("404 No matching ingress rule\n"@)) by {
        reveal_strlit("404 No matching ingress rule\n");
    }
    assert(vstd::utf8::is_ascii_chars("text/html"@)) by {
        reveal_strlit("text/html");
    }
    vstd::utf8::is_ascii_chars_encode_utf8("502 Bad Gateway\n"@);
    vstd::utf8::is_ascii_chars_encode_utf8("404 No matching ingress rule\n"@);
    vstd::utf8::is_ascii_chars_encode_utf8("text/html"@);
}

/// Whether bytes are the characters of a text, one by one.
pub open spec fn is_ascii_text(bytes: Seq<u8>, t: Seq<char>) -> bool {
    &&& bytes.len() == t.len()
    &&& forall|i: int| 0 <= i < t.len() ==> #[trigger] bytes[i] == t[i] as int
}

/// A rule for a status answers with that status, where HTTP has it, and else
/// with 404; without headers, and with the number and what HTTP calls it.
pub proof fn law_status_answer(a: HttpResponse, code: u16)
    requires
        a.is_status(code),
    ensures
        100 <= code <= 999 ==> a.status == code,
        !(100 <= code <= 999) ==> a.status == 404,
        headers::entries(a.headers).len() == 0,
        origin::reason(a.status) matches Some(phrase) ==> buffers::held(a.body)
            == vstd::utf8::encode_utf8(text::decimal(a.status as nat) + " "@ + phrase),
        origin::reason(a.status) is None ==> buffers::held(a.body) == vstd::utf8::encode_utf8(
            text::decimal(a.status as nat) + " "@ + "<unknown status code>"@,
        ),
{
}

/// What is read of the answer of a service, with room for 64 headers: an error
/// where it has no head; that the service failed where it ends in its head; and
/// else what its head says.
pub proof fn law_parsed(raw: Seq<u8>, r: Result<HttpResponse, OriginError>)
    requires
        origin::is_parsed(raw, r),
    ensures
        match origin::parsed_head(raw, 64) {
            Err(e) => r matches Err(OriginError::Parse(t)) && t@ == e,
            Ok(None) => r matches Ok(a) && a.status == 502 && a.is_bad_gateway(),
            Ok(Some(head)) => origin::is_response(head, raw, r),
        },
{
}

} // verus!
