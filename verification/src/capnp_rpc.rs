//! Cap'n Proto messages for the registration of a tunnel connection.

use vstd::prelude::*;
use vstd::slice::slice_subrange;
use vstd::string::*;
use crate::layout;
use crate::layout::RegisterFields;
use crate::segment;
use crate::segment::SegBuilder;
use crate::text;
use crate::words;

verus! {

/// The interface that the edge's registration server implements.
pub const REGISTRATION_SERVER_ID: u64 = 0xf71695ec7fe85497;

/// The method that registers a connection.
pub const METHOD_REGISTER: u16 = 0;

/// The method that unregisters a connection.
pub const METHOD_UNREGISTER: u16 = 1;

/// The method that updates the local configuration.
pub const METHOD_UPDATE_CONFIG: u16 = 2;

/// The words of a bootstrap message: the message struct, with the bootstrap
/// variant, and the bootstrap struct with its question.
pub open spec fn bootstrap_words(question_id: u32) -> Seq<u64> {
    seq![8, segment::struct_pointer(0, 1, 1), question_id as u64, 0]
}

/// The bytes of a bootstrap message.
pub open spec fn bootstrap_message(question_id: u32) -> Seq<u8> {
    segment::framed(bootstrap_words(question_id), 0, 1, 1)
}

/// Builds the message that asks for the edge's main capability.
pub fn build_bootstrap_msg(question_id: u32) -> (out: Vec<u8>)
    ensures
        out@ == bootstrap_message(question_id),
{
    let mut seg = SegBuilder::new();
    let msg = seg.alloc_struct(1, 1);
    let bootstrap = seg.alloc_struct(1, 1);
    seg.set_u16(msg.data_w, 0, 8);
    seg.set_struct_ptr(msg.ptr_w, 0, bootstrap.data_w, 1, 1);
    seg.set_u32(bootstrap.data_w, 0, question_id);
    proof {
        segment::lemma_with_bytes_start(0, 8, question_id);
        assert(seg@ =~= bootstrap_words(question_id));
    }
    seg.finish(msg.data_w, 1, 1)
}

/// The words behind the frame header and the root pointer of a framed
/// message; none where the message is too short to have any. Bytes that fill
/// no word are left out.
pub open spec fn stripped(framed: Seq<u8>) -> Seq<u64> {
    let start = body_start(framed);
    if framed.len() < 16 || start >= framed.len() {
        Seq::empty()
    } else {
        Seq::new(
            ((framed.len() - start) / 8) as nat,
            |i: int| words::word_at(framed, start + 8 * i),
        )
    }
}

/// Where the words of a framed message start: behind the segment table, which
/// has four bytes for the count and four for each segment and fills whole
/// words, and behind the root pointer.
pub open spec fn body_start(framed: Seq<u8>) -> int {
    (words::half_at(framed, 0) + 3) / 2 * 8 + 8
}

/// Returns the words of a framed message without its root pointer.
pub fn strip_framing(framed: &[u8]) -> (out: Vec<u64>)
    ensures
        out@ == stripped(framed@),
{
    let mut out: Vec<u64> = Vec::new();
    let len = framed.len();
    if len < 16 {
        return out;
    }
    let table: u64 = (words::get_le32(framed, 0) as u64 + 3) / 2;
    let start: u64 = table * 8 + 8;
    if start >= len as u64 {
        return out;
    }
    let start = start as usize;
    let n = (len - start) / 8;
    let mut i: usize = 0;
    while i < n
        invariant
            i <= n,
            n == (len - start) / 8,
            start < len,
            len == framed@.len(),
            out@ == Seq::new(i as nat, |k: int| words::word_at(framed@, start + 8 * k)),
        decreases n - i,
    {
        out.push(words::get_le64(framed, start + 8 * i));
        i = i + 1;
        assert(out@ =~= Seq::new(i as nat, |k: int| words::word_at(framed@, start + 8 * k)));
    }
    out
}

/// The words of a call message around the words `params` of its parameters:
/// message, call, payload, parameters, target and promised answer.
pub open spec fn call_words(question_id: u32, params: Seq<u64>) -> Seq<u64> {
    seq![
        2,
        segment::struct_pointer(0, 3, 3),
        question_id as u64,
        REGISTRATION_SERVER_ID,
        0,
        segment::struct_pointer(params.len() + 4int, 1, 1),
        segment::struct_pointer(1, 0, 2),
        0,
        segment::struct_pointer(1, 1, 3),
        0,
    ] + params + seq![0, segment::struct_pointer(0, 1, 1), 0, 0]
}

/// The bytes of a call message with the words of the framed message `params`.
pub open spec fn call_message(question_id: u32, params: Seq<u8>) -> Seq<u8> {
    segment::framed(call_words(question_id, stripped(params)), 0, 1, 1)
}

/// Builds the message that calls the registration method on the imported
/// capability, with the words of the framed message `params_struct_bytes` as
/// its parameters.
pub fn build_call_msg(question_id: u32, params_struct_bytes: &[u8]) -> (out: Vec<u8>)
    ensures
        out@ == call_message(question_id, params_struct_bytes@),
{
    let params_words = strip_framing(params_struct_bytes);
    let ghost params = params_words@;
    assert(params.len() <= params_struct_bytes.len() / 8);
    let mut seg = SegBuilder::new();
    let msg = seg.alloc_struct(1, 1);
    let call = seg.alloc_struct(3, 3);
    let payload = seg.alloc_struct(0, 2);
    let params_w = seg.alloc_raw(params_words.as_slice());
    seg.set_u16(msg.data_w, 0, 2);
    seg.set_struct_ptr(msg.ptr_w, 0, call.data_w, 3, 3);
    seg.set_u32(call.data_w, 0, question_id);
    seg.set_u16(call.data_w, 4, METHOD_REGISTER);
    seg.set_u64(call.data_w + 1, REGISTRATION_SERVER_ID);
    let target = seg.alloc_struct(1, 1);
    let answer = seg.alloc_struct(1, 1);
    seg.set_u32(answer.data_w, 0, 0);
    seg.set_struct_ptr(target.ptr_w, 0, answer.data_w, 1, 1);
    seg.set_u16(target.data_w, 0, 0);
    seg.set_u32(target.data_w, 4, 0);
    seg.set_struct_ptr(call.ptr_w, 0, target.data_w, 1, 1);
    seg.set_struct_ptr(call.ptr_w, 1, payload.data_w, 0, 2);
    seg.set_struct_ptr(payload.ptr_w, 0, params_w, 1, 3);
    proof {
        segment::lemma_with_bytes_start(0, 2, question_id);
        segment::lemma_with_bytes_start(0, 0, 0);
        segment::lemma_with_bytes_zero(question_id);
        assert(seg@ =~= call_words(question_id, params));
    }
    seg.finish(msg.data_w, 1, 1)
}

/// The values of the registration parameters, as they go on the wire.
pub open spec fn register_fields(
    account_tag: Seq<char>,
    tunnel_secret: Seq<u8>,
    tunnel_id: Seq<u8>,
    conn_index: u8,
    client_id: Seq<u8>,
    version: Seq<char>,
    arch: Seq<char>,
    features: Seq<&str>,
) -> RegisterFields {
    RegisterFields {
        account_tag: vstd::utf8::encode_utf8(account_tag),
        tunnel_secret,
        tunnel_id,
        conn_index,
        client_id,
        version: vstd::utf8::encode_utf8(version),
        arch: vstd::utf8::encode_utf8(arch),
        features: bytes_of_texts(features),
    }
}

/// The bytes of the framed message that holds the registration parameters.
pub open spec fn register_message(f: RegisterFields) -> Seq<u8> {
    segment::framed(f.words(), 0, 1, 3)
}

/// Builds the framed message that holds the registration parameters.
#[verifier::rlimit(40)]
pub fn encode_register_connection(
    account_tag: &str,
    tunnel_secret: &[u8],
    tunnel_id: &[u8; 16],
    conn_index: u8,
    client_id: &[u8; 16],
    version: &str,
    arch: &str,
    features: &[&str],
) -> (out: Vec<u8>)
    requires
        register_fields(
            account_tag@,
            tunnel_secret@,
            tunnel_id@,
            conn_index,
            client_id@,
            version@,
            arch@,
            features@,
        ).size() < usize::MAX / 8,
    ensures
        out@ == register_message(
            register_fields(
                account_tag@,
                tunnel_secret@,
                tunnel_id@,
                conn_index,
                client_id@,
                version@,
                arch@,
                features@,
            ),
        ),
{
    let ghost f = register_fields(
        account_tag@,
        tunnel_secret@,
        tunnel_id@,
        conn_index,
        client_id@,
        version@,
        arch@,
        features@,
    );
    proof {
        f.lemma_size();
    }
    let mut seg = SegBuilder::new();
    let params = seg.alloc_struct(1, 3);
    let auth = seg.alloc_struct(0, 2);
    let options = seg.alloc_struct(1, 2);
    let client = seg.alloc_struct(0, 4);
    let ghost zeros = Seq::new(13, |i: int| 0u64);
    assert(seg@ =~= zeros);
    let account_tag_w = seg.alloc_text(account_tag);
    let secret_w = seg.alloc_data(tunnel_secret);
    let tunnel_id_w = seg.alloc_data(tunnel_id.as_slice());
    let client_id_w = seg.alloc_data(client_id.as_slice());
    let version_w = seg.alloc_text(version);
    let arch_w = seg.alloc_text(arch);
    let feat_ws = alloc_texts(&mut seg, features);
    let feat_list_w = seg.alloc_ptr_list(features.len());
    proof {
        assert(f.feature_list(0) =~= Seq::new(f.feature_list_size(), |i: int| 0u64));
        layout::lemma_concat(
            zeros,
            layout::text_words(f.account_tag),
            layout::data_words(f.tunnel_secret),
            layout::data_words(f.tunnel_id),
            layout::data_words(f.client_id),
            layout::text_words(f.version),
            layout::text_words(f.arch),
            layout::texts_words(f.features),
            f.feature_list(0),
        );
        assert(seg@ == zeros + f.blobs() + f.feature_list(0));
    }
    seg.set_u8(params.data_w, 0, conn_index);
    seg.set_struct_ptr(params.ptr_w, 0, auth.data_w, 0, 2);
    seg.set_data_ptr(params.ptr_w, 1, tunnel_id_w, 16);
    seg.set_struct_ptr(params.ptr_w, 2, options.data_w, 1, 2);
    seg.set_text_ptr(auth.ptr_w, 0, account_tag_w, account_tag.as_bytes().len() + 1);
    seg.set_data_ptr(auth.ptr_w, 1, secret_w, tunnel_secret.len());
    seg.set_struct_ptr(options.ptr_w, 0, client.data_w, 0, 4);
    seg.set_data_ptr(client.ptr_w, 0, client_id_w, 16);
    seg.set_ptr_list_ptr(client.ptr_w, 1, feat_list_w, features.len());
    seg.set_text_ptr(client.ptr_w, 2, version_w, version.as_bytes().len() + 1);
    seg.set_text_ptr(client.ptr_w, 3, arch_w, arch.as_bytes().len() + 1);
    proof {
        segment::lemma_with_bytes_start(conn_index, 0, 0);
        assert(seg@ =~= f.structs() + f.blobs() + f.feature_list(0));
    }
    assert forall|k: int| 0 <= k < features@.len() implies (#[trigger] bytes_of_texts(
        features@,
    )[k]).len() < usize::MAX by {
        layout::lemma_texts_step(f.features, k);
        layout::lemma_text_place_bound(f.features, k);
        layout::lemma_text_place_bound(f.features, k + 1);
    }
    point_to_texts(&mut seg, feat_list_w, &feat_ws, features);
    assert(seg@ =~= f.words());
    seg.finish(params.data_w, 1, 3)
}

/// The UTF-8 bytes of each text.
pub open spec fn bytes_of_texts(texts: Seq<&str>) -> Seq<Seq<u8>> {
    Seq::new(texts.len(), |i: int| vstd::utf8::encode_utf8(texts[i]@))
}

/// Appends texts one after the other and returns the first word of each.
fn alloc_texts(seg: &mut SegBuilder, texts: &[&str]) -> (ws: Vec<usize>)
    requires
        old(seg)@.len() + layout::texts_words(bytes_of_texts(texts@)).len() <= usize::MAX / 8,
    ensures
        final(seg)@ == old(seg)@ + layout::texts_words(bytes_of_texts(texts@)),
        ws@.len() == texts@.len(),
        forall|k: int|
            0 <= k < texts@.len() ==> #[trigger] ws@[k] == old(seg)@.len() + layout::text_place(
                bytes_of_texts(texts@),
                k,
            ),
{
    let ghost before = seg@;
    let ghost bytes = bytes_of_texts(texts@);
    let n = texts.len();
    let mut ws: Vec<usize> = Vec::new();
    let mut i: usize = 0;
    while i < n
        invariant
            i <= n,
            n == texts@.len(),
            bytes == bytes_of_texts(texts@),
            before.len() + layout::texts_words(bytes).len() <= usize::MAX / 8,
            ws@.len() == i,
            forall|k: int|
                0 <= k < i ==> #[trigger] ws@[k] == before.len() + layout::text_place(bytes, k),
            seg@ == before + layout::texts_words(bytes.take(i as int)),
        decreases n - i,
    {
        proof {
            layout::lemma_texts_step(bytes, i as int);
            layout::lemma_text_place_bound(bytes, i + 1);
        }
        let w = seg.alloc_text(texts[i]);
        ws.push(w);
        i = i + 1;
        assert(seg@ =~= before + layout::texts_words(bytes.take(i as int)));
    }
    assert(bytes.take(n as int) =~= bytes);
    ws
}

/// Points the entries of the pointer list at `list_w` to `texts`, which stand
/// at the words `ws`.
fn point_to_texts(seg: &mut SegBuilder, list_w: usize, ws: &Vec<usize>, texts: &[&str])
    requires
        list_w + texts@.len() <= old(seg)@.len(),
        ws@.len() == texts@.len(),
        forall|k: int|
            0 <= k < texts@.len() ==> (#[trigger] bytes_of_texts(texts@)[k]).len() < usize::MAX,
    ensures
        final(seg)@ == Seq::new(
            old(seg)@.len(),
            |i: int|
                if list_w <= i < list_w + texts@.len() {
                    segment::bytes_pointer(
                        ws@[i - list_w] - i - 1,
                        bytes_of_texts(texts@)[i - list_w].len() + 1int,
                    )
                } else {
                    old(seg)@[i]
                },
        ),
{
    let ghost before = seg@;
    let ghost bytes = bytes_of_texts(texts@);
    let n = texts.len();
    let mut i: usize = 0;
    while i < n
        invariant
            i <= n,
            n == texts@.len(),
            bytes == bytes_of_texts(texts@),
            forall|k: int| 0 <= k < n ==> (#[trigger] bytes[k]).len() < usize::MAX,
            ws@.len() == n,
            list_w + n <= before.len(),
            seg@.len() == before.len(),
            forall|j: int|
                0 <= j < before.len() ==> #[trigger] seg@[j] == if list_w <= j < list_w + i {
                    segment::bytes_pointer(
                        ws@[j - list_w] - j - 1,
                        bytes[j - list_w].len() + 1int,
                    )
                } else {
                    before[j]
                },
        decreases n - i,
    {
        assert(bytes[i as int].len() < usize::MAX);
        seg.set_list_text_entry(list_w, i, ws[i], texts[i].as_bytes().len() + 1);
        i = i + 1;
    }
    assert(seg@ =~= Seq::new(
        before.len(),
        |i: int|
            if list_w <= i < list_w + texts@.len() {
                segment::bytes_pointer(
                    ws@[i - list_w] - i - 1,
                    bytes_of_texts(texts@)[i - list_w].len() + 1int,
                )
            } else {
                before[i]
            },
    ));
}

/// What a connection response says.
pub enum ConnectionReply {
    /// The connection stands; the bytes are the edge's location.
    Located(Option<Seq<u8>>),
    /// The edge refuses the connection; the bytes are its reason.
    Rejected(Option<Seq<u8>>),
    /// There are fewer bytes than a response has.
    TooShort,
    /// The root pointer is of this kind and not a struct pointer.
    NotStruct(int),
    /// The response struct reaches beyond the message.
    OutOfBounds,
    /// The response is of this variant, which is neither of the two.
    Unknown(int),
}

/// Why a connection response gives no location.
#[derive(Debug)]
pub enum ResponseError {
    /// The response has only this many bytes.
    TooShort(usize),
    /// The root pointer is of this kind and not a struct pointer.
    NotStruct(u64),
    /// The response struct reaches beyond the message.
    OutOfBounds,
    /// The edge refuses the connection, with this reason.
    Rejected(String),
    /// The response is of this variant, which is neither of the two.
    Unknown(u16),
}

impl ResponseError {
    /// What the error says.
    pub open spec fn spec_message(self) -> Seq<char> {
        match self {
            ResponseError::TooShort(n) => "ConnectionResponse too short: "@ + text::decimal(
                n as nat,
            ) + " bytes"@,
            ResponseError::NotStruct(kind) => "Root is not a struct pointer: type="@
                + text::decimal(kind as nat),
            ResponseError::OutOfBounds => "ConnectionResponse struct out of bounds"@,
            ResponseError::Rejected(cause) => "Edge rejected connection: "@ + cause@,
            ResponseError::Unknown(variant) => "Unknown ConnectionResponse discriminant: "@
                + text::decimal(variant as nat),
        }
    }

    /// What the error says.
    pub fn message(&self) -> (r: String)
        ensures
            r@ == self.spec_message(),
    {
        match self {
            ResponseError::TooShort(n) => {
                let mut r = "ConnectionResponse too short: ".to_string();
                r.append(text::decimal_text(*n as u64).as_str());
                r.append(" bytes");
                r
            },
            ResponseError::NotStruct(kind) => {
                let mut r = "Root is not a struct pointer: type=".to_string();
                r.append(text::decimal_text(*kind).as_str());
                r
            },
            ResponseError::OutOfBounds => "ConnectionResponse struct out of bounds".to_string(),
            ResponseError::Rejected(cause) => {
                let mut r = "Edge rejected connection: ".to_string();
                r.append(cause.as_str());
                r
            },
            ResponseError::Unknown(variant) => {
                let mut r = "Unknown ConnectionResponse discriminant: ".to_string();
                r.append(text::decimal_text(*variant as u64).as_str());
                r
            },
        }
    }
}

/// The bytes that pointer `slot` of the struct at byte `start` of the segment
/// names; `None` where it names no bytes of the segment.
///
/// They start the pointer's distance behind the word after the pointer. A null
/// pointer names no bytes. Otherwise the last byte is the NUL and does not
/// count.
pub open spec fn text_bytes(seg: Seq<u8>, start: int, data_words: int, slot: int) -> Option<
    Seq<u8>,
> {
    let at = start + 8 * (data_words + slot);
    let p = words::word_at(seg, at);
    let count = segment::count_of(p);
    let from = at + 8 * (1 + segment::distance(p));
    if at + 8 > seg.len() {
        None
    } else if p == 0 {
        Some(Seq::empty())
    } else if segment::kind(p) != 1 || segment::size_code_of(p) != 2 {
        None
    } else if from < 0 || from + count > seg.len() {
        None
    } else {
        Some(seg.subrange(from, if count == 0 { from } else { from + count - 1 }))
    }
}

/// Whether `t` is the text of these bytes. Bytes that are no UTF-8 have
/// replacement characters for what cannot be read.
pub open spec fn is_text_of(t: Seq<char>, bytes: Seq<u8>) -> bool {
    if vstd::utf8::valid_utf8(bytes) {
        t == vstd::utf8::decode_utf8(bytes)
    } else {
        t == text::lossy_text(bytes)
    }
}

/// Whether `t` is the text of these bytes, or `other` where there are none.
pub open spec fn is_text_or(t: Seq<char>, bytes: Option<Seq<u8>>, other: Seq<char>) -> bool {
    match bytes {
        Some(b) => is_text_of(t, b),
        None => t == other,
    }
}

/// What the bytes of a framed connection response say.
///
/// Behind eight bytes of frame header stands the root pointer. The struct that
/// it names starts with the variant: 0 for an error, whose first pointer is
/// the reason, and 1 for the connection's details, whose second pointer is the
/// location.
pub open spec fn connection_reply(data: Seq<u8>) -> ConnectionReply {
    let seg = data.skip(8);
    let root = words::word_at(seg, 0);
    let start = 8 * (1 + segment::distance(root));
    let data_words = segment::data_words_of(root);
    let ptr_count = segment::ptr_count_of(root);
    if data.len() < 24 {
        ConnectionReply::TooShort
    } else if segment::kind(root) != 0 {
        ConnectionReply::NotStruct(segment::kind(root))
    } else if start < 0 || start + 8 * (data_words + ptr_count) > seg.len() || start + 2
        > seg.len() {
        ConnectionReply::OutOfBounds
    } else if words::quarter_at(seg, start) == 0 {
        ConnectionReply::Rejected(text_bytes(seg, start, data_words, 0))
    } else if words::quarter_at(seg, start) == 1 {
        ConnectionReply::Located(text_bytes(seg, start, data_words, 1))
    } else {
        ConnectionReply::Unknown(words::quarter_at(seg, start) as int)
    }
}

/// Reads the distance of a pointer.
fn read_distance(p: u64) -> (d: i64)
    ensures
        d == segment::distance(p),
{
    let q: u64 = p % 0x1_0000_0000 / 4;
    if q < 0x2000_0000 {
        q as i64
    } else {
        (q as i64) - 0x4000_0000
    }
}

/// Reads the text that a struct's pointer names.
fn read_text_ptr(seg: &[u8], start: usize, data_words: usize, slot: usize) -> (r: Option<String>)
    requires
        start <= seg@.len(),
        data_words < 0x1_0000,
        slot < 2,
    ensures
        match text_bytes(seg@, start as int, data_words as int, slot as int) {
            Some(bytes) => r matches Some(t) && is_text_of(t@, bytes),
            None => r is None,
        },
{
    let len = seg.len();
    if 8 * (data_words + slot) + 8 > len - start {
        return None;
    }
    let at = start + 8 * (data_words + slot);
    let p = words::get_le64(seg, at);
    if p == 0 {
        return Some(String::new());
    }
    if p % 4 != 1 || p / 0x1_0000_0000 % 8 != 2 {
        return None;
    }
    let count: u64 = p / 0x8_0000_0000;
    let d = read_distance(p);
    let from: i128 = at as i128 + 8 * (1 + d as i128);
    if from < 0 || from + count as i128 > len as i128 {
        return None;
    }
    let from = from as usize;
    let end = if count == 0 {
        from
    } else {
        from + count as usize - 1
    };
    Some(text::from_utf8_lossy(slice_subrange(seg, from, end)))
}

/// Whether `r` is what a connection response comes to: the edge's location, or why
/// there is none.
pub open spec fn is_outcome(data: Seq<u8>, r: Result<String, ResponseError>) -> bool {
    match connection_reply(data) {
        ConnectionReply::Located(bytes) => r matches Ok(t) && is_text_or(t@, bytes, "unknown"@),
        ConnectionReply::Rejected(bytes) => r matches Err(ResponseError::Rejected(t))
            && is_text_or(t@, bytes, "unknown error"@),
        ConnectionReply::TooShort => r == Err::<String, ResponseError>(
            ResponseError::TooShort(data.len() as usize),
        ),
        ConnectionReply::NotStruct(kind) => r matches Err(ResponseError::NotStruct(k)) && k == kind,
        ConnectionReply::OutOfBounds => r matches Err(ResponseError::OutOfBounds),
        ConnectionReply::Unknown(variant) => r matches Err(ResponseError::Unknown(v)) && v
            == variant,
    }
}

/// Reads a connection response: the edge's location, or why there is none.
pub fn decode_connection_response(data: &[u8]) -> (r: Result<String, ResponseError>)
    ensures
        is_outcome(data@, r),
{
    let len = data.len();
    if len < 24 {
        return Err(ResponseError::TooShort(len));
    }
    let seg = slice_subrange(data, 8, len);
    assert(seg@ =~= data@.skip(8));
    let root = words::get_le64(seg, 0);
    if root % 4 != 0 {
        return Err(ResponseError::NotStruct(root % 4));
    }
    let data_words: u64 = root / 0x1_0000_0000 % 0x1_0000;
    let ptr_count: u64 = root / 0x1_0000_0000_0000;
    let start: i64 = 8 * (1 + read_distance(root));
    if start < 0 || start as u64 + 8 * (data_words + ptr_count) > seg.len() as u64 || start as u64
        + 2 > seg.len() as u64 {
        return Err(ResponseError::OutOfBounds);
    }
    let start = start as usize;
    match words::get_le16(seg, start) {
        0 => Err(
            ResponseError::Rejected(
                match read_text_ptr(seg, start, data_words as usize, 0) {
                    Some(cause) => cause,
                    None => "unknown error".to_string(),
                },
            ),
        ),
        1 => Ok(
            match read_text_ptr(seg, start, data_words as usize, 1) {
                Some(location) => location,
                None => "unknown".to_string(),
            },
        ),
        variant => Err(ResponseError::Unknown(variant)),
    }
}

} // verus!
