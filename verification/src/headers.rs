//! Header maps of the `http` crate, what is taken for granted of them, and the
//! texts made of them.

use http::header::{HeaderMap, HeaderName, HeaderValue};
use vstd::prelude::*;
use vstd::string::*;
use crate::text;

verus! {

/// The header map of the `http` crate.
#[verifier::external_type_specification]
#[verifier::external_body]
#[verifier::reject_recursive_types(T)]
pub struct ExHeaderMap<T>(http::HeaderMap<T>);

/// A header value of the `http` crate.
#[verifier::external_type_specification]
#[verifier::external_body]
pub struct ExHeaderValue(http::HeaderValue);

/// The entries of a header map, name and value, in the order in which the map
/// hands them out.
pub uninterp spec fn entries(map: HeaderMap) -> Seq<(Seq<char>, Seq<u8>)>;

/// The byte that a byte of a header name becomes: a letter its lower case, a
/// digit and some signs themselves; `None` for every other byte.
pub open spec fn name_byte(b: u8) -> Option<u8> {
    if 65 <= b <= 90 {
        Some((b + 32) as u8)
    } else if 94 <= b <= 122 || 48 <= b <= 57 || b == 33 || 35 <= b <= 39 || b == 42 || b == 43
        || b == 45 || b == 46 || b == 124 || b == 126 {
        Some(b)
    } else {
        None
    }
}

/// The header name that bytes stand for.
pub open spec fn name_of(bytes: Seq<u8>) -> Option<Seq<char>> {
    if 0 < bytes.len() <= 65535 && forall|i: int|
        0 <= i < bytes.len() ==> name_byte(#[trigger] bytes[i]) is Some {
        Some(Seq::new(bytes.len(), |i: int| name_byte(bytes[i]).unwrap() as char))
    } else {
        None
    }
}

/// Whether a text can be made a header name: lower case, and with quotation
/// marks too, which HTTP/2 lets through.
pub open spec fn is_name(name: Seq<char>) -> bool {
    &&& 0 < name.len() <= 65535
    &&& forall|i: int| 0 <= i < name.len() ==> is_name_char(#[trigger] name[i])
}

/// Whether a character can stand in such a header name.
pub open spec fn is_name_char(c: char) -> bool {
    c == '"' || ('!' <= c <= '~' && name_byte(c as u8) == Some(c as u8))
}

/// Whether bytes can be a header value: no control characters but tabs.
pub open spec fn is_value(bytes: Seq<u8>) -> bool {
    forall|i: int| 0 <= i < bytes.len() ==> (#[trigger] bytes[i] >= 32 && bytes[i] != 127) || bytes[i] == 9
}

/// Whether bytes are visible ASCII characters, spaces and tabs.
pub open spec fn is_visible(bytes: Seq<u8>) -> bool {
    forall|i: int| 0 <= i < bytes.len() ==> 32 <= #[trigger] bytes[i] < 127 || bytes[i] == 9
}

/// The text of a header value, where it is visible ASCII.
pub open spec fn value_text(bytes: Seq<u8>) -> Option<Seq<char>> {
    if is_visible(bytes) {
        Some(text::ascii_chars(bytes))
    } else {
        None
    }
}

/// Whether a map has a header of this name.
pub open spec fn has_name(list: Seq<(Seq<char>, Seq<u8>)>, name: Seq<char>) -> bool {
    exists|i: int| 0 <= i < list.len() && (#[trigger] list[i]).0 == name
}

/// Whether entry `i` is the first of this name.
pub open spec fn is_first(list: Seq<(Seq<char>, Seq<u8>)>, name: Seq<char>, i: int) -> bool {
    &&& 0 <= i < list.len()
    &&& list[i].0 == name
    &&& forall|j: int| 0 <= j < i ==> (#[trigger] list[j]).0 != name
}

/// Whether entry `i` is the last of this name.
pub open spec fn is_last(list: Seq<(Seq<char>, Seq<u8>)>, name: Seq<char>, i: int) -> bool {
    &&& 0 <= i < list.len()
    &&& list[i].0 == name
    &&& forall|j: int| i < j < list.len() ==> (#[trigger] list[j]).0 != name
}

/// The value of the first header of this name.
pub open spec fn first_value(list: Seq<(Seq<char>, Seq<u8>)>, name: Seq<char>) -> Option<
    Seq<u8>,
> {
    if has_name(list, name) {
        Some(list[choose|i: int| is_first(list, name, i)].1)
    } else {
        None
    }
}

/// The entries that have another name.
pub open spec fn without(list: Seq<(Seq<char>, Seq<u8>)>, name: Seq<char>) -> Seq<
    (Seq<char>, Seq<u8>),
> {
    list.filter(|e: (Seq<char>, Seq<u8>)| e.0 != name)
}

/// The entries once a header was set: it takes the place of the first of its
/// name and all others go, or it comes last.
pub open spec fn inserted(
    list: Seq<(Seq<char>, Seq<u8>)>,
    name: Seq<char>,
    value: Seq<u8>,
) -> Seq<(Seq<char>, Seq<u8>)> {
    if has_name(list, name) {
        let i = choose|i: int| is_first(list, name, i);
        list.take(i).push((name, value)) + without(list.skip(i + 1), name)
    } else {
        list.push((name, value))
    }
}

/// The entries once a header was added: it comes behind the last of its name,
/// or at the end.
pub open spec fn appended(
    list: Seq<(Seq<char>, Seq<u8>)>,
    name: Seq<char>,
    value: Seq<u8>,
) -> Seq<(Seq<char>, Seq<u8>)> {
    if has_name(list, name) {
        let i = choose|i: int| is_last(list, name, i);
        list.insert(i + 1, (name, value))
    } else {
        list.push((name, value))
    }
}

/// A header that is added makes one more.
pub proof fn lemma_appended_len(list: Seq<(Seq<char>, Seq<u8>)>, name: Seq<char>, value: Seq<u8>)
    ensures
        appended(list, name, value).len() == list.len() + 1,
{
    if has_name(list, name) {
        lemma_last(list, name);
    }
}

/// A header that is added is there besides those that were.
pub proof fn lemma_appended_multiset(
    list: Seq<(Seq<char>, Seq<u8>)>,
    name: Seq<char>,
    value: Seq<u8>,
)
    ensures
        appended(list, name, value).to_multiset() == list.to_multiset().insert((name, value)),
{
    broadcast use vstd::seq_lib::group_to_multiset_ensures;

    if has_name(list, name) {
        lemma_last(list, name);
        let i = choose|i: int| is_last(list, name, i);
        vstd::seq_lib::to_multiset_insert(list, i + 1, (name, value));
    }
}

/// Where there is a header of this name, there is a last.
pub proof fn lemma_last(list: Seq<(Seq<char>, Seq<u8>)>, name: Seq<char>)
    requires
        has_name(list, name),
    ensures
        exists|i: int| is_last(list, name, i),
    decreases list.len(),
{
    if list.last().0 == name {
        assert(is_last(list, name, list.len() - 1));
    } else {
        let k = choose|k: int| 0 <= k < list.len() && (#[trigger] list[k]).0 == name;
        assert(list.drop_last()[k].0 == name);
        lemma_last(list.drop_last(), name);
        let i = choose|i: int| is_last(list.drop_last(), name, i);
        assert forall|j: int| i < j < list.len() implies (#[trigger] list[j]).0 != name by {
            if j < list.len() - 1 {
                assert(list.drop_last()[j].0 != name);
            }
        }
        assert(is_last(list, name, i));
    }
}

/// Where there is a header of this name, there is a first.
pub proof fn lemma_first(list: Seq<(Seq<char>, Seq<u8>)>, name: Seq<char>)
    requires
        has_name(list, name),
    ensures
        exists|i: int| is_first(list, name, i),
    decreases list.len(),
{
    if has_name(list.drop_last(), name) {
        lemma_first(list.drop_last(), name);
        let i = choose|i: int| is_first(list.drop_last(), name, i);
        assert forall|j: int| 0 <= j < i implies (#[trigger] list[j]).0 != name by {
            assert(list.drop_last()[j].0 != name);
        }
        assert(is_first(list, name, i));
    } else {
        assert forall|j: int| 0 <= j < list.len() - 1 implies (#[trigger] list[j]).0 != name by {
            assert(list.drop_last()[j].0 == list[j].0);
        }
        assert(is_first(list, name, list.len() - 1));
    }
}

/// There is only one first header of a name, and its value is the first.
pub proof fn lemma_one_first(list: Seq<(Seq<char>, Seq<u8>)>, name: Seq<char>, i: int)
    requires
        is_first(list, name, i),
    ensures
        first_value(list, name) == Some(list[i].1),
{
    let k = choose|k: int| is_first(list, name, k);
    assert(is_first(list, name, k));
    assert(list[i].0 == name && list[k].0 == name);
    assert(k == i);
}

/// Whether no two headers have the same name.
pub open spec fn distinct_names(list: Seq<(Seq<char>, Seq<u8>)>) -> bool {
    forall|i: int, j: int|
        #![trigger list[i], list[j]]
        0 <= i < j < list.len() ==> list[i].0 != list[j].0
}

/// A list has a header of this name at its end or before.
pub proof fn lemma_has_name(list: Seq<(Seq<char>, Seq<u8>)>, name: Seq<char>)
    requires
        list.len() > 0,
    ensures
        has_name(list, name) <==> has_name(list.drop_last(), name) || list.last().0 == name,
{
    if has_name(list, name) && list.last().0 != name {
        let k = choose|k: int| 0 <= k < list.len() && (#[trigger] list[k]).0 == name;
        assert(list.drop_last()[k].0 == name);
    }
    if has_name(list.drop_last(), name) {
        let k = choose|k: int|
            0 <= k < list.len() - 1 && (#[trigger] list.drop_last()[k]).0 == name;
        assert(list[k].0 == name);
    }
    if list.last().0 == name {
        assert(list[list.len() - 1].0 == name);
    }
}

/// Nothing is filtered out of a list that does not have the name.
proof fn lemma_nothing_filtered(list: Seq<(Seq<char>, Seq<u8>)>, name: Seq<char>)
    requires
        !has_name(list, name),
    ensures
        without(list, name) == list,
    decreases list.len(),
{
    reveal(Seq::filter);
    if list.len() > 0 {
        lemma_has_name(list, name);
        lemma_nothing_filtered(list.drop_last(), name);
        assert(list =~= list.drop_last().push(list.last()));
    }
}

/// Where no two headers have the same name, this stays so when one is set. The
/// new value is the only change.
pub proof fn lemma_inserted(list: Seq<(Seq<char>, Seq<u8>)>, name: Seq<char>, value: Seq<u8>)
    requires
        distinct_names(list),
    ensures
        distinct_names(inserted(list, name, value)),
        inserted(list, name, value).len() >= list.len(),
        forall|n: Seq<char>| #[trigger]
            has_name(inserted(list, name, value), n) <==> has_name(list, n) || n == name,
        forall|i: int|
            0 <= i < inserted(list, name, value).len() ==> if (#[trigger] inserted(
                list,
                name,
                value,
            )[i]).0 == name {
                inserted(list, name, value)[i].1 == value
            } else {
                i < list.len() && inserted(list, name, value)[i] == list[i]
            },
{
    let out = inserted(list, name, value);
    if has_name(list, name) {
        lemma_first(list, name);
        let k = choose|k: int| is_first(list, name, k);
        let rest = list.skip(k + 1);
        assert(!has_name(rest, name)) by {
            if has_name(rest, name) {
                let j = choose|j: int| 0 <= j < rest.len() && (#[trigger] rest[j]).0 == name;
                assert(rest[j] == list[k + 1 + j]);
                assert(list[k].0 != list[k + 1 + j].0);
            }
        }
        lemma_nothing_filtered(rest, name);
        assert(out =~= list.update(k, (name, value)));
        assert forall|n: Seq<char>| #[trigger]
            has_name(out, n) <==> has_name(list, n) || n == name by {
            if has_name(list, n) {
                let j = choose|j: int| 0 <= j < list.len() && (#[trigger] list[j]).0 == n;
                assert(out[j].0 == n);
            }
            if has_name(out, n) {
                let j = choose|j: int| 0 <= j < out.len() && (#[trigger] out[j]).0 == n;
                assert(list[j].0 == n);
            }
        }
    } else {
        assert forall|n: Seq<char>| #[trigger]
            has_name(out, n) <==> has_name(list, n) || n == name by {
            lemma_has_name(out, n);
            assert(out.drop_last() =~= list);
        }
        assert forall|i: int, j: int|
            #![trigger out[i], out[j]]
            0 <= i < j < out.len() implies out[i].0 != out[j].0 by {
            assert(out[i] == list[i]);
            if j < list.len() {
                assert(out[j] == list[j]);
            }
        }
    }
}

/// Entries in a vector, as values.
pub open spec fn entries_view(v: Seq<(String, Vec<u8>)>) -> Seq<(Seq<char>, Seq<u8>)> {
    Seq::new(v.len(), |i: int| (v[i].0@, v[i].1@))
}

/// Calls `HeaderMap::new`: a map without entries.
#[verifier::external_body]
pub(crate) fn new_headers() -> (map: HeaderMap)
    ensures
        entries(map) == Seq::<(Seq<char>, Seq<u8>)>::empty(),
{
    HeaderMap::new()
}

/// Calls `HeaderMap::iter`, which hands out every name and value.
#[verifier::external_body]
pub(crate) fn header_entries(map: &HeaderMap) -> (v: Vec<(String, Vec<u8>)>)
    ensures
        entries_view(v@) == entries(*map),
{
    map.iter().map(|(k, v)| (k.as_str().to_string(), v.as_bytes().to_vec())).collect()
}

/// Calls `HeaderMap::get`: the first value of a name.
#[verifier::external_body]
pub(crate) fn get_header(map: &HeaderMap, name: &str) -> (r: Option<Vec<u8>>)
    requires
        is_name(name@),
        !name@.contains('"'),
    ensures
        r matches Some(v) ==> first_value(entries(*map), name@) == Some(v@),
        r is None ==> first_value(entries(*map), name@) is None,
{
    map.get(name).map(|v| v.as_bytes().to_vec())
}

/// Calls `HeaderMap::try_insert`, which sets a header, with a name and a value
/// as `HeaderMap::iter` hands them out of another map. It refuses where the map
/// cannot grow, which does not happen up to 6553 entries: it would outgrow its
/// limit of 32768 slots only with at least a fifth of them in use.
#[verifier::external_body]
pub(crate) fn copy_header(from: &HeaderMap, i: usize, to: &mut HeaderMap) -> (ok: bool)
    requires
        i < entries(*from).len(),
    ensures
        entries(*final(to)) == if ok {
            inserted(
                entries(*old(to)),
                entries(*from)[i as int].0,
                entries(*from)[i as int].1,
            )
        } else {
            entries(*old(to))
        },
        entries(*old(to)).len() <= 6553 ==> ok,
{
    let (name, value) = from.iter().nth(i).unwrap();
    to.try_insert(name.clone(), value.clone()).is_ok()
}

/// Calls `HeaderMap::try_append`, which adds a header. It refuses where the
/// map cannot grow, which does not happen up to 6553 entries: it would outgrow
/// its limit of 32768 slots only with at least a fifth of them in use.
#[verifier::external_body]
pub(crate) fn append_header(map: &mut HeaderMap, name: &str, value: &[u8]) -> (ok: bool)
    requires
        is_name(name@),
        is_value(value@),
    ensures
        entries(*final(map)) == if ok {
            appended(entries(*old(map)), name@, value@)
        } else {
            entries(*old(map))
        },
        entries(*old(map)).len() <= 6553 ==> ok,
{
    let name = HeaderName::from_lowercase(name.as_bytes()).unwrap();
    map.try_append(name, HeaderValue::from_bytes(value).unwrap()).is_ok()
}

/// Finds the first header of a name.
pub fn first_header(list: &Vec<(String, Vec<u8>)>, name: &str) -> (r: Option<usize>)
    ensures
        match r {
            Some(i) => is_first(entries_view(list@), name@, i as int),
            None => !has_name(entries_view(list@), name@),
        },
{
    let n = list.len();
    let mut i: usize = 0;
    while i < n
        invariant
            i <= n,
            n == list@.len(),
            forall|k: int| 0 <= k < i ==> (#[trigger] entries_view(list@)[k]).0 != name@,
        decreases n - i,
    {
        assert(entries_view(list@)[i as int].0 == list@[i as int].0@);
        if text::same_text(list[i].0.as_str(), name) {
            return Some(i);
        }
        i = i + 1;
    }
    None
}

/// The byte that a byte of a header name becomes.
fn lower_name_byte(b: u8) -> (r: Option<u8>)
    ensures
        r == name_byte(b),
{
    if 65 <= b && b <= 90 {
        Some(b + 32)
    } else if (94 <= b && b <= 122) || (48 <= b && b <= 57) || b == 33 || (35 <= b && b <= 39) || b
        == 42 || b == 43 || b == 45 || b == 46 || b == 124 || b == 126 {
        Some(b)
    } else {
        None
    }
}

/// Reads a header name.
pub fn header_name(bytes: &[u8]) -> (r: Option<String>)
    ensures
        r matches Some(name) ==> name_of(bytes@) == Some(name@) && is_name(name@),
        r is None ==> name_of(bytes@) is None,
{
    let n = bytes.len();
    if n == 0 || n > 65535 {
        return None;
    }
    let mut out: Vec<u8> = Vec::new();
    let mut i: usize = 0;
    while i < n
        invariant
            i <= n,
            n == bytes@.len(),
            out@.len() == i,
            forall|k: int| 0 <= k < i ==> name_byte(#[trigger] bytes@[k]) == Some(out@[k]),
            forall|k: int| 0 <= k < i ==> #[trigger] out@[k] < 128 && name_byte(out@[k]) == Some(out@[k]),
        decreases n - i,
    {
        match lower_name_byte(bytes[i]) {
            Some(b) => {
                out.push(b);
            },
            None => {
                return None;
            },
        }
        i = i + 1;
    }
    let name = text::ascii_text(out.as_slice());
    proof {
        assert forall|k: int| 0 <= k < n implies name_byte(#[trigger] bytes@[k]) is Some by {}
        assert(name@ =~= name_of(bytes@).unwrap());
    }
    Some(name)
}

/// Tells whether bytes can be a header value.
pub fn header_value_ok(bytes: &[u8]) -> (r: bool)
    ensures
        r == is_value(bytes@),
{
    let n = bytes.len();
    let mut i: usize = 0;
    while i < n
        invariant
            i <= n,
            n == bytes@.len(),
            forall|k: int|
                0 <= k < i ==> (#[trigger] bytes@[k] >= 32 && bytes@[k] != 127) || bytes@[k] == 9,
        decreases n - i,
    {
        let b = bytes[i];
        if !((b >= 32 && b != 127) || b == 9) {
            return false;
        }
        i = i + 1;
    }
    true
}

/// Reads the text of a header value.
pub fn visible_text(bytes: &[u8]) -> (r: Option<String>)
    ensures
        r matches Some(t) ==> value_text(bytes@) == Some(t@),
        r is None ==> value_text(bytes@) is None,
{
    let n = bytes.len();
    let mut i: usize = 0;
    while i < n
        invariant
            i <= n,
            n == bytes@.len(),
            forall|k: int| 0 <= k < i ==> 32 <= #[trigger] bytes@[k] < 127 || bytes@[k] == 9,
        decreases n - i,
    {
        let b = bytes[i];
        if !((32 <= b && b < 127) || b == 9) {
            return None;
        }
        i = i + 1;
    }
    Some(text::ascii_text(bytes))
}

/// The text of a header value; empty where it is not visible ASCII.
pub open spec fn value_text_or_empty(bytes: Seq<u8>) -> Seq<char> {
    match value_text(bytes) {
        Some(t) => t,
        None => Seq::empty(),
    }
}

/// Reads the text of a header value, or nothing.
pub fn visible_text_or_empty(bytes: &[u8]) -> (r: String)
    ensures
        r@ == value_text_or_empty(bytes@),
{
    match visible_text(bytes) {
        Some(t) => t,
        None => String::new(),
    }
}

/// The lines of headers other than the content length, with a line break
/// between each two.
pub open spec fn serialized(list: Seq<(Seq<char>, Seq<u8>)>) -> Seq<char>
    decreases list.len(),
{
    if list.len() == 0 {
        Seq::empty()
    } else {
        let before = serialized(list.drop_last());
        let (name, value) = list.last();
        if name == "content-length"@ {
            before
        } else {
            let line = name + ": "@ + value_text_or_empty(value);
            if only_length(list.drop_last()) {
                line
            } else {
                before + "\r\n"@ + line
            }
        }
    }
}

/// Whether there is no header but the content length.
pub open spec fn only_length(list: Seq<(Seq<char>, Seq<u8>)>) -> bool {
    forall|i: int| 0 <= i < list.len() ==> (#[trigger] list[i]).0 == "content-length"@
}

/// Writes the headers other than the content length into one text.
pub fn serialize_headers(headers: &HeaderMap) -> (r: String)
    ensures
        r@ == serialized(entries(*headers)),
{
    let list = header_entries(headers);
    let ghost all = entries(*headers);
    let n = list.len();
    let mut out = String::new();
    let mut started = false;
    let mut i: usize = 0;
    assert(all.take(0) =~= Seq::<(Seq<char>, Seq<u8>)>::empty());
    while i < n
        invariant
            i <= n,
            n == list@.len(),
            all == entries_view(list@),
            out@ == serialized(all.take(i as int)),
            started == !only_length(all.take(i as int)),
        decreases n - i,
    {
        let ghost before = all.take(i as int);
        let ghost now = all.take(i + 1);
        proof {
            assert(now.drop_last() =~= before);
            assert(now.last() == all[i as int]);
            assert(all[i as int] == (list@[i as int].0@, list@[i as int].1@));
            if only_length(now) {
                assert(now[i as int].0 == "content-length"@);
                assert forall|k: int| 0 <= k < i implies (#[trigger] before[k]).0
                    == "content-length"@ by {
                    assert(before[k] == now[k]);
                }
            }
            if only_length(before) && now.last().0 == "content-length"@ {
                assert forall|k: int| 0 <= k < now.len() implies (#[trigger] now[k]).0
                    == "content-length"@ by {
                    if k < i {
                        assert(before[k] == now[k]);
                    }
                }
            }
        }
        if !text::same_text(list[i].0.as_str(), "content-length") {
            if started {
                out.append("\r\n");
            }
            out.append(list[i].0.as_str());
            out.append(": ");
            out.append(visible_text_or_empty(list[i].1.as_slice()).as_str());
            started = true;
            proof {
                let line = all[i as int].0 + ": "@ + value_text_or_empty(all[i as int].1);
                if only_length(before) {
                    lemma_only_length(before);
                    assert(out@ =~= line);
                } else {
                    assert(out@ =~= serialized(before) + "\r\n"@ + line);
                }
            }
        }
        i = i + 1;
    }
    assert(all.take(n as int) =~= all);
    out
}

/// Without other headers nothing is written.
pub proof fn lemma_only_length(list: Seq<(Seq<char>, Seq<u8>)>)
    requires
        only_length(list),
    ensures
        serialized(list) == Seq::<char>::empty(),
    decreases list.len(),
{
    if list.len() > 0 {
        assert(list.last() == list[list.len() - 1]);
        assert forall|k: int| 0 <= k < list.len() - 1 implies (#[trigger] list.drop_last()[k]).0
            == "content-length"@ by {
            assert(list.drop_last()[k] == list[k]);
        }
        lemma_only_length(list.drop_last());
    }
}

} // verus!
