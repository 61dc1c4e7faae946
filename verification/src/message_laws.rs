//! What holds of the messages as a whole: what was written can be read.

use vstd::prelude::*;
use crate::capnp_rpc;
use crate::layout;
use crate::layout::RegisterFields;
use crate::segment;
use crate::words;

verus! {

/// Stripping a framed message gives back the words that were framed.
#[verifier::spinoff_prover]
pub proof fn law_strip_undoes_framing(
    body: Seq<u64>,
    root_word: int,
    data_words: int,
    ptr_count: int,
)
    ensures
        capnp_rpc::stripped(segment::framed(body, root_word, data_words, ptr_count)) == body,
{
    let msg = segment::framed(body, root_word, data_words, ptr_count);
    let root = words::le64(segment::struct_pointer(root_word, data_words, ptr_count));
    let size = words::le32(((1 + body.len()) % 0x1_0000_0000) as u32);
    assert(root.len() == 8 && size.len() == 4);
    assert(msg.len() == 16 + 8 * body.len());
    assert forall|k: int| 0 <= k < 4 implies msg[k] == 0 by {
        assert(msg[k] == words::le32(0)[k]);
    }
    assert(words::half_at(msg, 0) == 0);
    assert(capnp_rpc::body_start(msg) == 16);
    if body.len() > 0 {
        assert forall|i: int| 0 <= i < body.len() implies capnp_rpc::stripped(msg)[i] == body[i] by {
            lemma_framed_word(body, root_word, data_words, ptr_count, i);
            words::lemma_word_of_le64(body[i]);
        }
    }
    assert(capnp_rpc::stripped(msg) =~= body);
}

/// Where word `i` of the body stands in a framed message.
#[verifier::spinoff_prover]
proof fn lemma_framed_word(
    body: Seq<u64>,
    root_word: int,
    data_words: int,
    ptr_count: int,
    i: int,
)
    requires
        0 <= i < body.len(),
    ensures
        segment::framed(body, root_word, data_words, ptr_count).subrange(
            16 + 8 * i,
            16 + 8 * i + 8,
        ) == words::le64(body[i]),
{
    let msg = segment::framed(body, root_word, data_words, ptr_count);
    let part = msg.subrange(16 + 8 * i, 16 + 8 * i + 8);
    let w = words::le64(body[i]);
    assert forall|j: int| 0 <= j < 8 implies part[j] == w[j] by {
        let at = 8 * i + j;
        assert(at / 8 == i && at % 8 == j);
        assert(part[j] == words::flat(body)[at]);
    }
    assert(part =~= w);
}

/// Bytes that were packed can be read from the words they were packed into.
#[verifier::spinoff_prover]
proof fn lemma_packed_bytes(w: Seq<u64>, at: int, data: Seq<u8>, n: nat, m: int)
    requires
        0 <= at,
        at + n <= w.len(),
        0 <= m <= 8 * n,
        forall|k: int| 0 <= k < n ==> w[at + k] == #[trigger] words::packed(data, n)[k],
    ensures
        words::flat(w).subrange(8 * at, 8 * at + m) == Seq::new(
            m as nat,
            |j: int| if j < data.len() { data[j] } else { 0u8 },
        ),
{
    let a = words::flat(w).subrange(8 * at, 8 * at + m);
    let b = Seq::new(m as nat, |j: int| if j < data.len() { data[j] } else { 0u8 });
    assert forall|j: int| 0 <= j < m implies a[j] == b[j] by {
        let k = j / 8;
        let chunk = words::padded_chunk(data, k);
        assert((8 * at + j) / 8 == at + k && (8 * at + j) % 8 == j % 8);
        assert(w[at + k] == words::packed(data, n)[k]);
        words::lemma_le64_word_of(chunk);
        assert(8 * k + j % 8 == j);
        assert(chunk[j % 8] == b[j]);
    }
    assert(a =~= b);
}

/// A byte list that starts `d` words behind its pointer reads as its bytes.
#[verifier::spinoff_prover]
proof fn lemma_bytes_read(w: Seq<u64>, ptr: int, at: int, data: Seq<u8>)
    requires
        0 <= ptr < w.len() < 0x2000_0000,
        0 <= at,
        at + segment::data_size(data.len() as int) <= w.len(),
        data.len() < 0x2000_0000,
        w[ptr] == segment::bytes_pointer(at - ptr - 1, data.len() as int),
        forall|k: int|
            0 <= k < segment::data_size(data.len() as int) ==> w[at + k]
                == #[trigger] layout::data_words(data)[k],
    ensures
        segment::target(w, ptr) == at,
        segment::bytes_at(w, ptr) == data,
{
    segment::lemma_list_pointer(at - ptr - 1, 2, data.len() as int);
    let n = segment::data_size(data.len() as int) as nat;
    assert forall|k: int| 0 <= k < n implies w[at + k] == #[trigger] words::packed(data, n)[k] by {
        assert(w[at + k] == layout::data_words(data)[k]);
    }
    lemma_packed_bytes(
        w,
        at,
        data,
        n,
        data.len() as int,
    );
    assert(segment::bytes_at(w, ptr) =~= data);
}

/// A text that starts `d` words behind its pointer reads as its bytes and NUL.
#[verifier::spinoff_prover]
proof fn lemma_text_read(w: Seq<u64>, ptr: int, at: int, text: Seq<u8>)
    requires
        0 <= ptr < w.len() < 0x2000_0000,
        0 <= at,
        at + segment::text_size(text.len() as int) <= w.len(),
        text.len() + 1 < 0x2000_0000,
        w[ptr] == segment::bytes_pointer(at - ptr - 1, text.len() + 1int),
        forall|k: int|
            0 <= k < segment::text_size(text.len() as int) ==> w[at + k]
                == #[trigger] layout::text_words(text)[k],
    ensures
        segment::target(w, ptr) == at,
        segment::bytes_at(w, ptr) == text.push(0),
{
    segment::lemma_list_pointer(at - ptr - 1, 2, text.len() + 1int);
    let n = segment::text_size(text.len() as int) as nat;
    assert forall|k: int| 0 <= k < n implies w[at + k] == #[trigger] words::packed(text, n)[k] by {
        assert(w[at + k] == layout::text_words(text)[k]);
    }
    lemma_packed_bytes(
        w,
        at,
        text,
        n,
        text.len() + 1int,
    );
    assert(segment::bytes_at(w, ptr) =~= text.push(0));
}

/// Where the words of text `i` stand among all.
#[verifier::spinoff_prover]
proof fn lemma_text_among(texts: Seq<Seq<u8>>, i: int, k: int)
    requires
        0 <= i < texts.len(),
        0 <= k < layout::text_words(texts[i]).len(),
    ensures
        layout::text_place(texts, i) + k < layout::texts_words(texts).len(),
        layout::texts_words(texts)[layout::text_place(texts, i) + k] == layout::text_words(
            texts[i],
        )[k],
    decreases texts.len(),
{
    if i == texts.len() - 1 {
        assert(texts.take(i) =~= texts.drop_last());
    } else {
        lemma_text_among(texts.drop_last(), i, k);
        assert(texts.drop_last().take(i) =~= texts.take(i));
    }
}

/// Whether word `at` is a pointer to a struct of this size, which lies within
/// the words.
pub open spec fn struct_at(w: Seq<u64>, at: int, data_words: int, ptr_count: int) -> bool {
    &&& 0 <= at < w.len()
    &&& w[at] as int % 4 == 0
    &&& w[at] as int / 0x1_0000_0000 == data_words + 0x1_0000 * ptr_count
    &&& 0 <= segment::target(w, at)
    &&& segment::target(w, at) + data_words + ptr_count <= w.len()
}

/// Whether word `at` is a pointer to a list of elements of this size code, as
/// many as given.
pub open spec fn list_at(w: Seq<u64>, at: int, size_code: int, count: int) -> bool {
    &&& 0 <= at < w.len()
    &&& w[at] as int % 4 == 1
    &&& w[at] as int / 0x1_0000_0000 == size_code + 8 * count
}

/// What a reader finds who follows the pointers from the parameters' struct,
/// whose one data word and three pointers come first: structs of the announced
/// sizes, lists of bytes and of pointers, and in them the values.
pub open spec fn register_read(w: Seq<u64>, f: RegisterFields) -> bool {
    register_sizes(w, f) && register_values(w, f)
}

/// The sizes that the pointers announce.
pub open spec fn register_sizes(w: Seq<u64>, f: RegisterFields) -> bool {
    let auth = segment::target(w, 1);
    let options = segment::target(w, 3);
    let client = segment::target(w, options + 1);
    let list = segment::target(w, client + 1);
    &&& struct_at(w, 1, 0, 2)
    &&& list_at(w, auth, 2, f.account_tag.len() + 1int)
    &&& list_at(w, auth + 1, 2, f.tunnel_secret.len() as int)
    &&& list_at(w, 2, 2, f.tunnel_id.len() as int)
    &&& struct_at(w, 3, 1, 2)
    &&& struct_at(w, options + 1, 0, 4)
    &&& list_at(w, client, 2, f.client_id.len() as int)
    &&& list_at(w, client + 1, 6, f.features.len() as int)
    &&& list + f.features.len() <= w.len()
    &&& forall|i: int|
        0 <= i < f.features.len() ==> list_at(
            w,
            list + i,
            2,
            (#[trigger] f.features[i]).len() + 1int,
        )
    &&& list_at(w, client + 2, 2, f.version.len() + 1int)
    &&& list_at(w, client + 3, 2, f.arch.len() + 1int)
}

/// The values that the pointers name.
pub open spec fn register_values(w: Seq<u64>, f: RegisterFields) -> bool {
    let auth = segment::target(w, 1);
    let options = segment::target(w, 3);
    let client = segment::target(w, options + 1);
    let list = segment::target(w, client + 1);
    &&& w[0] == f.conn_index
    &&& segment::bytes_at(w, auth) == f.account_tag.push(0)
    &&& segment::bytes_at(w, auth + 1) == f.tunnel_secret
    &&& segment::bytes_at(w, 2) == f.tunnel_id
    &&& w[options] == 0
    &&& w[options + 2] == 0
    &&& segment::bytes_at(w, client) == f.client_id
    &&& forall|i: int|
        0 <= i < f.features.len() ==> #[trigger] segment::bytes_at(w, list + i)
            == f.features[i].push(0)
    &&& segment::bytes_at(w, client + 2) == f.version.push(0)
    &&& segment::bytes_at(w, client + 3) == f.arch.push(0)
}

/// A pointer to a struct, in numbers: from the lowest bit on, two bits 0, thirty
/// bits for the distance, sixteen for the data words and sixteen for the
/// pointers.
#[verifier::spinoff_prover]
pub proof fn law_struct_pointer_bits(d: int, data_words: int, ptr_count: int)
    requires
        -0x2000_0000 <= d < 0x2000_0000,
        0 <= data_words < 0x1_0000,
        0 <= ptr_count < 0x1_0000,
    ensures
        segment::struct_pointer(d, data_words, ptr_count) == 4 * (if d >= 0 {
            d
        } else {
            d + 0x4000_0000
        }) + 0x1_0000_0000 * data_words + 0x1_0000_0000_0000 * ptr_count,
{
    reveal(segment::struct_pointer);
    assert((4 * d) % 0x1_0000_0000 == 4 * (if d >= 0 {
        d
    } else {
        d + 0x4000_0000
    }));
}

/// A pointer to a list, in numbers: from the lowest bit on, two bits 1, thirty
/// bits for the distance, three for the size of the elements and twenty-nine for
/// their count.
#[verifier::spinoff_prover]
pub proof fn law_list_pointer_bits(d: int, size_code: int, count: int)
    requires
        -0x2000_0000 <= d < 0x2000_0000,
        0 <= size_code < 8,
        0 <= count < 0x2000_0000,
    ensures
        segment::list_pointer(d, size_code, count) == 1 + 4 * (if d >= 0 {
            d
        } else {
            d + 0x4000_0000
        }) + 0x1_0000_0000 * size_code + 0x8_0000_0000 * count,
        size_code == 2 ==> segment::list_pointer(d, size_code, count) == segment::bytes_pointer(
            d,
            count,
        ),
        size_code == 6 ==> segment::list_pointer(d, size_code, count) == segment::pointers_pointer(
            d,
            count,
        ),
{
    reveal(segment::list_pointer);
    assert((4 * d) % 0x1_0000_0000 == 4 * (if d >= 0 {
        d
    } else {
        d + 0x4000_0000
    }));
    assert((8 * count) % 0x1_0000_0000 == 8 * count);
}

/// What a pointer says is read from the same bits, whatever the pointer.
#[verifier::spinoff_prover]
pub proof fn law_pointer_bits_are_read(p: u64, words: Seq<u64>, at: int)
    requires
        0 <= at < words.len(),
        words[at] == p,
    ensures
        segment::kind(p) == p as int % 4,
        -0x2000_0000 <= segment::distance(p) < 0x2000_0000,
        (4 * segment::distance(p) + segment::kind(p) - p as int) % 0x1_0000_0000 == 0,
        segment::data_words_of(p) == p as int / 0x1_0000_0000 % 0x1_0000,
        segment::ptr_count_of(p) == p as int / 0x1_0000_0000_0000,
        segment::size_code_of(p) == p as int / 0x1_0000_0000 % 8,
        segment::count_of(p) == p as int / 0x8_0000_0000,
        segment::target(words, at) == at + 1 + segment::distance(p),
{
    lemma_distance_bits(p);
}

/// The low half of a pointer is four times its distance and its kind, as far as
/// thirty-two bits go.
#[verifier::spinoff_prover]
proof fn lemma_distance_bits(p: u64)
    ensures
        -0x2000_0000 <= segment::distance(p) < 0x2000_0000,
        (4 * segment::distance(p) + segment::kind(p) - p as int) % 0x1_0000_0000 == 0,
{
    let high = p as int / 0x1_0000_0000;
    let low = p as int % 0x1_0000_0000;
    let q = low / 4;
    assert(low == 4 * q + segment::kind(p)) by {
        assert(low % 4 == p as int % 4);
    }
    let part = 4 * segment::distance(p) + segment::kind(p) - p as int;
    if q < 0x2000_0000 {
        assert(part == (-high) * 0x1_0000_0000);
        vstd::arithmetic::div_mod::lemma_mod_multiples_basic(-high, 0x1_0000_0000);
    } else {
        assert(part == (-high - 1) * 0x1_0000_0000);
        vstd::arithmetic::div_mod::lemma_mod_multiples_basic(-high - 1, 0x1_0000_0000);
    }
}

/// A word is the sum of its bytes, the first counting once, each other 256 times
/// as much as the one before it.
#[verifier::spinoff_prover]
pub proof fn law_bytes_of_a_word(w: u64)
    ensures
        words::le64(w).len() == 8,
        ({
            let b = words::le64(w);
            w == b[0] + 0x100 * b[1] + 0x1_0000 * b[2] + 0x100_0000 * b[3] + 0x1_0000_0000 * b[4]
                + 0x100_0000_0000 * b[5] + 0x1_0000_0000_0000 * b[6] + 0x100_0000_0000_0000 * b[7]
        }),
{
    words::lemma_word_of_le64(w);
}

/// The bytes of words are those of each word, one word behind the other.
#[verifier::spinoff_prover]
pub proof fn law_bytes_of_words(w: Seq<u64>, i: int)
    requires
        0 <= i < w.len(),
    ensures
        words::flat(w).len() == 8 * w.len(),
        words::flat(w).subrange(8 * i, 8 * i + 8) == words::le64(w[i]),
{
    let part = words::flat(w).subrange(8 * i, 8 * i + 8);
    assert forall|j: int| 0 <= j < 8 implies part[j] == words::le64(w[i])[j] by {
        assert((8 * i + j) / 8 == i && (8 * i + j) % 8 == j);
    }
    assert(part =~= words::le64(w[i]));
}

/// A framed message is one segment: four bytes of zeros, the number of words in
/// four bytes, the root pointer and then the words, each byte in its place.
#[verifier::spinoff_prover]
pub proof fn law_framed_bytes(body: Seq<u64>, root_word: int, data_words: int, ptr_count: int)
    requires
        body.len() + 1 < 0x1_0000_0000,
    ensures
        ({
            let msg = segment::framed(body, root_word, data_words, ptr_count);
            let root = segment::struct_pointer(root_word, data_words, ptr_count);
            &&& msg.len() == 16 + 8 * body.len()
            &&& msg[0] == 0 && msg[1] == 0 && msg[2] == 0 && msg[3] == 0
            &&& msg[4] + 0x100 * msg[5] + 0x1_0000 * msg[6] + 0x100_0000 * msg[7] == 1 + body.len()
            &&& msg.subrange(8, 16) == words::le64(root)
            &&& msg.skip(16) == words::flat(body)
        }),
{
    let msg = segment::framed(body, root_word, data_words, ptr_count);
    let root = words::le64(segment::struct_pointer(root_word, data_words, ptr_count));
    let n = (1 + body.len()) as u32;
    let size = words::le32(n);
    assert(root.len() == 8 && size.len() == 4 && words::le32(0).len() == 4);
    assert(msg[4] == size[0] && msg[5] == size[1] && msg[6] == size[2] && msg[7] == size[3]);
    let q1 = n / 0x100;
    let q2 = q1 / 0x100;
    assert(n / 0x1_0000 == q2 && n / 0x100_0000 == q2 / 0x100);
    assert forall|k: int| 0 <= k < 4 implies msg[k] == 0 by {
        assert(msg[k] == words::le32(0)[k]);
    }
    assert(msg.subrange(8, 16) =~= root);
    assert(msg.skip(16) =~= words::flat(body));
}

/// Setting some bytes of a word leaves the others as they are.
#[verifier::spinoff_prover]
pub proof fn law_with_bytes(w: u64, byte: int, bytes: Seq<u8>, i: int)
    requires
        0 <= byte,
        byte + bytes.len() <= 8,
        0 <= i < 8,
    ensures
        words::le64(segment::with_bytes(w, byte, bytes))[i] == (if byte <= i < byte + bytes.len() {
            bytes[i - byte]
        } else {
            words::le64(w)[i]
        }),
{
    reveal(segment::with_bytes);
    let b = Seq::new(
        8,
        |i: int|
            if byte <= i < byte + bytes.len() {
                bytes[i - byte]
            } else {
                words::le64(w)[i]
            },
    );
    words::lemma_le64_word_of(b);
}

/// Bytes in words are the bytes, and zeros behind them.
#[verifier::spinoff_prover]
pub proof fn law_packed(data: Seq<u8>, n: nat, i: int)
    requires
        0 <= i < 8 * n,
    ensures
        words::packed(data, n).len() == n,
        words::flat(words::packed(data, n))[i] == (if i < data.len() {
            data[i]
        } else {
            0
        }),
        segment::data_size(data.len() as int) == (data.len() + 7) / 8,
        segment::text_size(data.len() as int) == (data.len() + 8) / 8,
{
    let w = words::packed(data, n);
    lemma_packed_bytes(w, 0, data, n, 8 * n as int);
    let all = words::flat(w).subrange(0, 8 * n as int);
    assert(all[i] == words::flat(w)[i]);
}

/// A bootstrap message, read from its struct at word 0 of one data word and one
/// pointer: it is of variant 8, and its pointer names the bootstrap struct, of
/// one data word and one pointer, with the question and without an object.
#[verifier::spinoff_prover]
pub proof fn law_bootstrap_message(question_id: u32)
    ensures
        ({
            let w = capnp_rpc::bootstrap_words(question_id);
            let bootstrap = segment::target(w, 1);
            &&& w[0] == 8
            &&& struct_at(w, 1, 1, 1)
            &&& bootstrap >= 2
            &&& w[bootstrap] == question_id
            &&& w[bootstrap + 1] == 0
        }),
{
    let w = capnp_rpc::bootstrap_words(question_id);
    lemma_struct_at(w, 1, 0, 1, 1);
}

/// What a struct pointer announces, in a word.
#[verifier::spinoff_prover]
proof fn lemma_struct_at(w: Seq<u64>, at: int, d: int, data_words: int, ptr_count: int)
    requires
        0 <= at < w.len(),
        -0x2000_0000 <= d < 0x2000_0000,
        0 <= data_words < 0x1_0000,
        0 <= ptr_count < 0x1_0000,
        w[at] == segment::struct_pointer(d, data_words, ptr_count),
        0 <= at + 1 + d,
        at + 1 + d + data_words + ptr_count <= w.len(),
    ensures
        struct_at(w, at, data_words, ptr_count),
        segment::target(w, at) == at + 1 + d,
{
    segment::lemma_struct_pointer(d, data_words, ptr_count);
    law_struct_pointer_bits(d, data_words, ptr_count);
}

/// What a list pointer announces, in a word.
#[verifier::spinoff_prover]
proof fn lemma_list_at(w: Seq<u64>, at: int, d: int, size_code: int, count: int)
    requires
        0 <= at < w.len(),
        -0x2000_0000 <= d < 0x2000_0000,
        0 <= size_code < 8,
        0 <= count < 0x2000_0000,
        w[at] == segment::list_pointer(d, size_code, count),
    ensures
        list_at(w, at, size_code, count),
{
    law_list_pointer_bits(d, size_code, count);
}

/// A call message, read from its struct at word 0 of one data word and one
/// pointer, by the sizes that each pointer announces. It is of variant 2, and its
/// pointer names the call, of three data words and three pointers: the question,
/// the method and the interface. The call's first pointer names its target, of
/// one data word and one pointer, which is what the first question is answered
/// with: the target's pointer names that question, which is 0. Its second
/// pointer names the payload, of two pointers. The payload's first pointer
/// names the parameters, of one data word and three pointers, word for word as
/// they were given; there is no other pointer to anything.
#[verifier::spinoff_prover]
pub proof fn law_call_message(question_id: u32, params: Seq<u64>)
    requires
        params.len() < 0x1000_0000,
    ensures
        ({
            let w = capnp_rpc::call_words(question_id, params);
            let call = segment::target(w, 1);
            let goal = segment::target(w, call + 3);
            let payload = segment::target(w, call + 4);
            let content = segment::target(w, payload);
            let answer = segment::target(w, goal + 1);
            &&& w[0] == 2
            &&& struct_at(w, 1, 3, 3)
            &&& w[call] as int % 0x1_0000_0000 == question_id
            &&& w[call] as int / 0x1_0000_0000 == 0
            &&& w[call + 1] == 0xf71695ec7fe85497u64
            &&& w[call + 2] == 0
            &&& struct_at(w, call + 3, 1, 1)
            &&& w[goal] == 0
            &&& struct_at(w, goal + 1, 1, 1)
            &&& w[answer] == 0
            &&& w[answer + 1] == 0
            &&& struct_at(w, call + 4, 0, 2)
            &&& w[call + 5] == 0
            &&& struct_at(w, payload, 1, 3)
            &&& w[payload + 1] == 0
            &&& content + params.len() <= w.len()
            &&& forall|i: int| 0 <= i < params.len() ==> w[content + i] == #[trigger] params[i]
            &&& call >= 2 && goal >= 2 && payload >= 2 && content >= 2
            &&& goal >= content + params.len() || goal + 2 <= content
        }),
{
    let w = capnp_rpc::call_words(question_id, params);
    let n = params.len() as int;
    lemma_struct_at(w, 1, 0, 3, 3);
    lemma_struct_at(w, 5, n + 4, 1, 1);
    lemma_struct_at(w, 6, 1, 0, 2);
    lemma_struct_at(w, 8, 1, 1, 3);
    assert(w[10 + n] == 0);
    lemma_struct_at(w, 11 + n, 0, 1, 1);
}

/// Whether parameters are small enough for a pointer to reach them and for the
/// length of a list to be written down.
pub open spec fn within_reach(f: RegisterFields) -> bool {
    &&& f.size() < 0x2000_0000
    &&& f.account_tag.len() + 1 < 0x2000_0000
    &&& f.tunnel_secret.len() < 0x2000_0000
    &&& f.tunnel_id.len() < 0x2000_0000
    &&& f.client_id.len() < 0x2000_0000
    &&& f.version.len() + 1 < 0x2000_0000
    &&& f.arch.len() + 1 < 0x2000_0000
    &&& forall|i: int|
        0 <= i < f.features.len() ==> (#[trigger] f.features[i]).len() + 1 < 0x2000_0000
}

/// Every field of the registration parameters can be read back from their
/// words, as long as these are within reach.
#[verifier::spinoff_prover]
pub proof fn law_register_reads_back(f: RegisterFields)
    requires
        within_reach(f),
    ensures
        register_read(f.words(), f),
{
    lemma_register_sizes(f);
    lemma_register_values(f);
}

/// Where the pointers of the parameters lead.
#[verifier::spinoff_prover]
proof fn lemma_register_targets(f: RegisterFields)
    requires
        within_reach(f),
    ensures
        segment::target(f.words(), 1) == 4,
        segment::target(f.words(), 3) == 6,
        segment::target(f.words(), 7) == 9,
        segment::target(f.words(), 10) == f.feature_list_at(),
        struct_at(f.words(), 1, 0, 2),
        struct_at(f.words(), 3, 1, 2),
        struct_at(f.words(), 7, 0, 4),
        list_at(f.words(), 10, 6, f.features.len() as int),
        f.words()[0] == f.conn_index,
        f.words()[6] == 0,
        f.words()[8] == 0,
{
    let w = f.words();
    f.lemma_size();
    let list = f.feature_list_at();
    assert(w[1] == segment::struct_pointer(2, 0, 2));
    assert(w[3] == segment::struct_pointer(2, 1, 2));
    assert(w[7] == segment::struct_pointer(1, 0, 4));
    assert(w[10] == segment::pointers_pointer(list - 11, f.features.len() as int));
    lemma_struct_at(w, 1, 2, 0, 2);
    lemma_struct_at(w, 3, 2, 1, 2);
    lemma_struct_at(w, 7, 1, 0, 4);
    lemma_list_at(w, 10, list - 11, 6, f.features.len() as int);
    segment::lemma_list_pointer(list - 11, 6, f.features.len() as int);
}

/// The sizes that the pointers of the parameters announce.
#[verifier::spinoff_prover]
proof fn lemma_register_sizes(f: RegisterFields)
    requires
        within_reach(f),
    ensures
        register_sizes(f.words(), f),
{
    let w = f.words();
    let list = f.feature_list_at();
    f.lemma_size();
    lemma_register_targets(f);
    lemma_list_at(w, 4, f.account_tag_at() - 5, 2, f.account_tag.len() + 1int);
    lemma_list_at(w, 5, f.tunnel_secret_at() - 6, 2, f.tunnel_secret.len() as int);
    lemma_list_at(w, 2, f.tunnel_id_at() - 3, 2, f.tunnel_id.len() as int);
    lemma_list_at(w, 9, f.client_id_at() - 10, 2, f.client_id.len() as int);
    lemma_list_at(w, 11, f.version_at() - 12, 2, f.version.len() + 1int);
    lemma_list_at(w, 12, f.arch_at() - 13, 2, f.arch.len() + 1int);
    assert forall|i: int| 0 <= i < f.features.len() implies list_at(
        w,
        list + i,
        2,
        (#[trigger] f.features[i]).len() + 1int,
    ) by {
        lemma_feature(f, i);
        lemma_list_at(
            w,
            list + i,
            f.feature_at(i) - (list + i) - 1,
            2,
            f.features[i].len() + 1int,
        );
    }
}

/// The values that the pointers of the parameters name.
#[verifier::spinoff_prover]
#[verifier::rlimit(40)]
proof fn lemma_register_values(f: RegisterFields)
    requires
        within_reach(f),
    ensures
        register_values(f.words(), f),
{
    let w = f.words();
    f.lemma_size();
    lemma_register_targets(f);
    lemma_blobs(f);
    lemma_text_read(w, 4, f.account_tag_at(), f.account_tag);
    lemma_bytes_read(w, 5, f.tunnel_secret_at(), f.tunnel_secret);
    lemma_bytes_read(w, 2, f.tunnel_id_at(), f.tunnel_id);
    lemma_bytes_read(w, 9, f.client_id_at(), f.client_id);
    lemma_text_read(w, 11, f.version_at(), f.version);
    lemma_text_read(w, 12, f.arch_at(), f.arch);
    let list = f.feature_list_at();
    assert forall|i: int| 0 <= i < f.features.len() implies #[trigger] segment::bytes_at(
        w,
        list + i,
    ) == f.features[i].push(0) by {
        lemma_feature(f, i);
        lemma_text_read(w, list + i, f.feature_at(i), f.features[i]);
    }
}

/// Where the texts and byte strings stand in the words of the parameters.
#[verifier::spinoff_prover]
proof fn lemma_blobs(f: RegisterFields)
    ensures
        forall|k: int|
            0 <= k < segment::text_size(f.account_tag.len() as int) ==> f.words()[f.account_tag_at()
                + k] == #[trigger] layout::text_words(f.account_tag)[k],
        forall|k: int|
            0 <= k < segment::data_size(f.tunnel_secret.len() as int)
                ==> f.words()[f.tunnel_secret_at() + k] == #[trigger] layout::data_words(
                f.tunnel_secret,
            )[k],
        forall|k: int|
            0 <= k < segment::data_size(f.tunnel_id.len() as int) ==> f.words()[f.tunnel_id_at()
                + k] == #[trigger] layout::data_words(f.tunnel_id)[k],
        forall|k: int|
            0 <= k < segment::data_size(f.client_id.len() as int) ==> f.words()[f.client_id_at()
                + k] == #[trigger] layout::data_words(f.client_id)[k],
        forall|k: int|
            0 <= k < segment::text_size(f.version.len() as int) ==> f.words()[f.version_at() + k]
                == #[trigger] layout::text_words(f.version)[k],
        forall|k: int|
            0 <= k < segment::text_size(f.arch.len() as int) ==> f.words()[f.arch_at() + k]
                == #[trigger] layout::text_words(f.arch)[k],
{
    let a = layout::text_words(f.account_tag);
    let b = layout::data_words(f.tunnel_secret);
    let c = layout::data_words(f.tunnel_id);
    let d = layout::data_words(f.client_id);
    let e = layout::text_words(f.version);
    let g = layout::text_words(f.arch);
    let t = layout::texts_words(f.features);
    let l = f.feature_list(f.features.len() as int);
    let x0 = f.structs();
    let x1 = x0 + a;
    let x2 = x1 + b;
    let x3 = x2 + c;
    let x4 = x3 + d;
    let x5 = x4 + e;
    let x6 = x5 + g;
    let x7 = x6 + t;
    layout::lemma_concat(x0, a, b, c, d, e, g, t, l);
    assert(f.words() == x7 + l);
    lemma_run(x0, a);
    lemma_run(x1, b);
    lemma_run(x2, c);
    lemma_run(x3, d);
    lemma_run(x4, e);
    lemma_run(x5, g);
    lemma_run(x6, t);
    lemma_run(x7, l);
    let w = f.words();
    assert(stands_at(w, 13, a));
    assert(stands_at(w, x1.len() as int, b));
    assert(stands_at(w, x2.len() as int, c));
    assert(stands_at(w, x3.len() as int, d));
    assert(stands_at(w, x4.len() as int, e));
    assert(stands_at(w, x5.len() as int, g));
    reveal(stands_at);
}

/// Whether a run of words stands at a word.
#[verifier::opaque]
spec fn stands_at(w: Seq<u64>, at: int, run: Seq<u64>) -> bool {
    &&& 0 <= at
    &&& at + run.len() <= w.len()
    &&& forall|k: int| 0 <= k < run.len() ==> w[at + k] == #[trigger] run[k]
}

/// A run that is put behind words stands there, and all that stood in them still
/// does.
#[verifier::spinoff_prover]
proof fn lemma_run(w: Seq<u64>, run: Seq<u64>)
    ensures
        stands_at(w + run, w.len() as int, run),
        forall|at: int, other: Seq<u64>| #[trigger]
            stands_at(w, at, other) ==> stands_at(w + run, at, other),
{
    reveal(stands_at);
    assert forall|at: int, other: Seq<u64>| #[trigger] stands_at(w, at, other) implies stands_at(
        w + run,
        at,
        other,
    ) by {
        assert forall|k: int| 0 <= k < other.len() implies (w + run)[at + k] == #[trigger] other[k] by {
            assert(w[at + k] == other[k]);
        }
    }
}

/// Where feature `i` and its pointer stand in the words of the parameters.
#[verifier::spinoff_prover]
proof fn lemma_feature(f: RegisterFields, i: int)
    requires
        0 <= i < f.features.len(),
    ensures
        f.words()[f.feature_list_at() + i] == segment::bytes_pointer(
            f.feature_at(i) - (f.feature_list_at() + i) - 1,
            f.features[i].len() + 1int,
        ),
        f.feature_at(i) + segment::text_size(f.features[i].len() as int) <= f.feature_list_at(),
        forall|k: int|
            0 <= k < segment::text_size(f.features[i].len() as int) ==> f.words()[f.feature_at(i)
                + k] == #[trigger] layout::text_words(f.features[i])[k],
{
    f.lemma_size();
    layout::lemma_texts_step(f.features, i);
    layout::lemma_text_place_bound(f.features, i + 1);
    layout::lemma_text_place_bound(f.features, i);
    assert forall|k: int|
        0 <= k < segment::text_size(f.features[i].len() as int) implies f.words()[f.feature_at(i)
        + k] == #[trigger] layout::text_words(f.features[i])[k] by {
        lemma_text_among(f.features, i, k);
    }
}

/// The call message that is built from an encoded registration holds the
/// words of its parameters unchanged, and the pointer to the call's content
/// names the first of them.
#[verifier::spinoff_prover]
pub proof fn law_call_carries_parameters(question_id: u32, f: RegisterFields)
    ensures
        ({
            let params = capnp_rpc::stripped(capnp_rpc::register_message(f));
            let call = capnp_rpc::call_words(question_id, params);
            &&& call.subrange(10, 10int + f.words().len()) == f.words()
            &&& segment::target(call, segment::target(call, 6)) == 10
        }),
{
    law_strip_undoes_framing(f.words(), 0, 1, 3);
    let call = capnp_rpc::call_words(question_id, f.words());
    segment::lemma_struct_pointer(1, 0, 2);
    segment::lemma_struct_pointer(1, 1, 3);
    assert(call[6] == segment::struct_pointer(1, 0, 2));
    assert(call[8] == segment::struct_pointer(1, 1, 3));
    assert(call.subrange(10, 10int + f.words().len()) =~= f.words());
}

/// The first word of the segment of a framed message is a pointer to a struct
/// of the given size: it names the word of the segment where word `root_word` of
/// the framed words stands, behind the pointer itself.
#[verifier::spinoff_prover]
pub proof fn law_root_pointer(body: Seq<u64>, root_word: int, data_words: int, ptr_count: int)
    requires
        0 <= root_word < 0x2000_0000,
        0 <= data_words < 0x1_0000,
        0 <= ptr_count < 0x1_0000,
    ensures
        ({
            let segment = segment::framed(body, root_word, data_words, ptr_count).skip(8);
            let root = words::word_at(segment, 0);
            &&& segment::kind(root) == 0
            &&& 1 + segment::distance(root) == 1 + root_word
            &&& segment::data_words_of(root) == data_words
            &&& segment::ptr_count_of(root) == ptr_count
        }),
{
    let root = segment::struct_pointer(root_word, data_words, ptr_count);
    let segment = segment::framed(body, root_word, data_words, ptr_count).skip(8);
    segment::lemma_struct_pointer(root_word, data_words, ptr_count);
    words::lemma_word_of_le64(root);
    assert(segment.subrange(0, 8) =~= words::le64(root));
}

/// The fields of a registration are the values that were given, each as itself,
/// texts in UTF-8.
#[verifier::spinoff_prover]
pub proof fn law_register_fields(
    account_tag: Seq<char>,
    tunnel_secret: Seq<u8>,
    tunnel_id: Seq<u8>,
    conn_index: u8,
    client_id: Seq<u8>,
    version: Seq<char>,
    arch: Seq<char>,
    features: Seq<&str>,
)
    ensures
        ({
            let f = capnp_rpc::register_fields(
                account_tag,
                tunnel_secret,
                tunnel_id,
                conn_index,
                client_id,
                version,
                arch,
                features,
            );
            &&& f.account_tag == vstd::utf8::encode_utf8(account_tag)
            &&& f.tunnel_secret == tunnel_secret
            &&& f.tunnel_id == tunnel_id
            &&& f.conn_index == conn_index
            &&& f.client_id == client_id
            &&& f.version == vstd::utf8::encode_utf8(version)
            &&& f.arch == vstd::utf8::encode_utf8(arch)
            &&& f.features.len() == features.len()
            &&& forall|i: int|
                0 <= i < features.len() ==> #[trigger] f.features[i] == vstd::utf8::encode_utf8(
                    features[i]@,
                )
        }),
{
}

/// Where the words of a framed message start, from the number of its segments:
/// with one or two segments behind 16 or 24 bytes, and with each two more behind
/// eight more.
#[verifier::spinoff_prover]
pub proof fn law_body_start(framed: Seq<u8>, segments: int)
    requires
        framed.len() >= 4,
        1 <= segments <= 0x1_0000_0000,
        framed[0] + 0x100 * framed[1] + 0x1_0000 * framed[2] + 0x100_0000 * framed[3] == segments
            - 1,
    ensures
        capnp_rpc::body_start(framed) == 8 * (segments / 2 + 2),
{
}

/// The words of a framed message are those that stand whole behind its start, in
/// order.
#[verifier::spinoff_prover]
pub proof fn law_stripped(framed: Seq<u8>, i: int)
    requires
        framed.len() >= 16,
        0 <= i,
    ensures
        ({
            let start = capnp_rpc::body_start(framed);
            let w = capnp_rpc::stripped(framed);
            &&& i < w.len() <==> start + 8 * i + 8 <= framed.len()
            &&& i < w.len() ==> words::le64(w[i]) == framed.subrange(
                start + 8 * i,
                start + 8 * i + 8,
            )
        }),
{
    let start = capnp_rpc::body_start(framed);
    let w = capnp_rpc::stripped(framed);
    if i < w.len() {
        words::lemma_le64_word_of(framed.subrange(start + 8 * i, start + 8 * i + 8));
    }
}

/// A response says what is wrong with it: fewer than 24 bytes; a root pointer
/// that is not for a struct; a struct that reaches out of the message; a variant
/// other than 0 and 1. Otherwise it is a rejection or a location.
#[verifier::spinoff_prover]
pub proof fn law_response_errors(data: Seq<u8>)
    ensures
        ({
            let reply = capnp_rpc::connection_reply(data);
            let root = words::word_at(data, 8);
            let start = 16 + 8 * segment::distance(root);
            let size = 8 * (segment::data_words_of(root) + segment::ptr_count_of(root));
            let variant = data[start] + 0x100 * data[start + 1];
            if data.len() < 24 {
                reply is TooShort
            } else if data[8] % 4 != 0 {
                reply == capnp_rpc::ConnectionReply::NotStruct(data[8] as int % 4)
            } else if start < 8 || start + size > data.len() || start + 2 > data.len() {
                reply is OutOfBounds
            } else if variant == 0 {
                reply is Rejected
            } else if variant == 1 {
                reply is Located
            } else {
                reply == capnp_rpc::ConnectionReply::Unknown(variant)
            }
        }),
{
    if data.len() >= 24 {
        lemma_response_root(data);
        let root = words::word_at(data, 8);
        let start = 16 + 8 * segment::distance(root);
        if start >= 8 && start + 2 <= data.len() {
            lemma_bytes_of_variant(data, start);
        }
    }
}

/// The root pointer of a response, and the two bits of its kind.
#[verifier::spinoff_prover]
proof fn lemma_response_root(data: Seq<u8>)
    requires
        data.len() >= 24,
    ensures
        words::word_at(data.skip(8), 0) == words::word_at(data, 8),
        segment::kind(words::word_at(data, 8)) == data[8] as int % 4,
{
    let seg = data.skip(8);
    assert(seg.subrange(0, 8) =~= data.subrange(8, 16));
    let root = words::word_at(data, 8);
    let part = data.subrange(8, 16);
    words::lemma_le64_word_of(part);
    law_bytes_of_a_word(root);
    lemma_lowest_two(root);
    assert(part[0] == data[8]);
}

/// The variant of a response whose struct starts here.
#[verifier::spinoff_prover]
proof fn lemma_bytes_of_variant(data: Seq<u8>, start: int)
    requires
        8 <= start,
        start + 2 <= data.len(),
    ensures
        words::quarter_at(data.skip(8), start - 8) == data[start] + 0x100 * data[start + 1],
{
    let seg = data.skip(8);
    assert(seg[start - 8] == data[start]);
    assert(seg[start - 7] == data[start + 1]);
}

/// A text of a response is what its bytes are in UTF-8, and `other` where there
/// are no bytes.
#[verifier::spinoff_prover]
pub proof fn law_text_of_a_response(t: Seq<char>, bytes: Seq<u8>, other: Seq<char>)
    requires
        vstd::utf8::valid_utf8(bytes),
    ensures
        capnp_rpc::is_text_or(t, Some(bytes), other) <==> t == vstd::utf8::decode_utf8(bytes),
        capnp_rpc::is_text_or(t, None, other) <==> t == other,
{
}

/// Whether pointer `at` of the words names a text in them, with the NUL behind
/// it.
pub open spec fn has_text(w: Seq<u64>, at: int) -> bool {
    &&& 0 <= at < w.len()
    &&& segment::kind(w[at]) == 1
    &&& segment::size_code_of(w[at]) == 2
    &&& segment::count_of(w[at]) > 0
    &&& segment::target(w, at) >= 0
    &&& 8 * segment::target(w, at) + segment::count_of(w[at]) <= 8 * w.len()
}

/// The answer of the edge says what its pointers name: a framed struct of the
/// details variant gives the text of its second pointer as the location, and
/// one of the error variant that of its first as the cause.
#[verifier::spinoff_prover]
pub proof fn law_response_gives_its_text(w: Seq<u64>, data_words: int, ptr_count: int, slot: int)
    requires
        1 <= data_words < 0x1_0000,
        2 <= ptr_count < 0x1_0000,
        data_words + ptr_count <= w.len(),
        slot == 0 || slot == 1,
        w[0] as int % 0x1_0000 == slot,
        has_text(w, data_words + slot),
    ensures
        ({
            let text = segment::bytes_at(w, data_words + slot).drop_last();
            let reply = capnp_rpc::connection_reply(
                segment::framed(w, 0, data_words, ptr_count),
            );
            &&& slot == 1 ==> reply == capnp_rpc::ConnectionReply::Located(Some(text))
            &&& slot == 0 ==> reply == capnp_rpc::ConnectionReply::Rejected(Some(text))
        }),
{
    let seg = segment::framed(w, 0, data_words, ptr_count).skip(8);
    law_root_pointer(w, 0, data_words, ptr_count);
    lemma_segment(w, data_words, ptr_count);
    lemma_response_text(w, data_words, ptr_count, slot);
    lemma_response_variant(w, data_words, ptr_count);
    assert(capnp_rpc::text_bytes(seg, 8, data_words, slot) is Some);
}

/// What stands behind the root pointer of a framed message.
#[verifier::spinoff_prover]
proof fn lemma_segment(w: Seq<u64>, data_words: int, ptr_count: int)
    ensures
        segment::framed(w, 0, data_words, ptr_count).len() == 16 + 8 * w.len(),
        forall|k: int|
            0 <= k < 8 * w.len() ==> #[trigger] segment::framed(w, 0, data_words, ptr_count)[16 + k]
                == words::flat(w)[k],
{
    let root = words::le64(segment::struct_pointer(0, data_words, ptr_count));
    let size = words::le32(((1 + w.len()) % 0x1_0000_0000) as u32);
    assert(root.len() == 8 && size.len() == 4 && words::le32(0).len() == 4);
}

/// The lowest two bytes of a word.
#[verifier::spinoff_prover]
proof fn lemma_lowest_two(w: u64)
    ensures
        words::le64(w)[0] + 0x100 * words::le64(w)[1] == w as int % 0x1_0000,
{
    law_bytes_of_a_word(w);
    let b = words::le64(w);
    let low = b[0] + 0x100 * b[1];
    let high = b[2] + 0x100 * b[3] + 0x1_0000 * b[4] + 0x100_0000 * b[5] + 0x1_0000_0000 * b[6]
        + 0x100_0000_0000 * b[7];
    assert(w == low + 0x1_0000 * high);
}

/// The first two bytes of a struct are the lowest of its first word.
#[verifier::spinoff_prover]
proof fn lemma_response_variant(w: Seq<u64>, data_words: int, ptr_count: int)
    requires
        w.len() > 0,
    ensures
        words::quarter_at(segment::framed(w, 0, data_words, ptr_count).skip(8), 8) as int
            == w[0] as int % 0x1_0000,
{
    let msg = segment::framed(w, 0, data_words, ptr_count);
    let seg = msg.skip(8);
    let first = words::le64(w[0]);
    lemma_segment(w, data_words, ptr_count);
    assert(seg[8] == msg[16 + 0int] && seg[9] == msg[16 + 1int]);
    assert(words::flat(w)[0] == first[0]);
    assert(words::flat(w)[1] == first[1]);
    lemma_lowest_two(w[0]);
}

/// The text that a pointer names in the words is the one that it names in the
/// framed message.
#[verifier::spinoff_prover]
proof fn lemma_response_text(w: Seq<u64>, data_words: int, ptr_count: int, slot: int)
    requires
        has_text(w, data_words + slot),
    ensures
        capnp_rpc::text_bytes(
            segment::framed(w, 0, data_words, ptr_count).skip(8),
            8,
            data_words,
            slot,
        ) == Some(segment::bytes_at(w, data_words + slot).drop_last()),
{
    let msg = segment::framed(w, 0, data_words, ptr_count);
    let seg = msg.skip(8);
    let at = data_words + slot;
    let p = w[at];
    lemma_segment(w, data_words, ptr_count);
    lemma_framed_word(w, 0, data_words, ptr_count, at);
    words::lemma_word_of_le64(p);
    assert(seg.subrange(8 + 8 * at, 16 + 8 * at) =~= words::le64(p));
    let from = 8 + 8 * segment::target(w, at);
    let a = seg.subrange(from, from + segment::count_of(p) - 1);
    let b = segment::bytes_at(w, at).drop_last();
    assert forall|k: int| 0 <= k < a.len() implies a[k] == b[k] by {
        assert(a[k] == msg[16 + (8 * segment::target(w, at) + k)]);
    }
    assert(a =~= b);
}

/// Whether a message is framed words whose root is the struct at their start, of
/// so many data words and pointers.
pub open spec fn is_message(
    msg: Seq<u8>,
    body: Seq<u64>,
    data_words: int,
    ptr_count: int,
) -> bool {
    &&& msg.len() == 16 + 8 * body.len()
    &&& msg[0] == 0 && msg[1] == 0 && msg[2] == 0 && msg[3] == 0
    &&& words::word_at(msg, 8) == 0x1_0000_0000 * data_words + 0x1_0000_0000_0000 * ptr_count
    &&& forall|i: int|
        0 <= i < body.len() ==> words::word_at(msg, 16 + 8 * i) == #[trigger] body[i]
}

/// Framed words are a message.
#[verifier::spinoff_prover]
proof fn lemma_message(body: Seq<u64>, data_words: int, ptr_count: int)
    requires
        0 <= data_words < 0x1_0000,
        0 <= ptr_count < 0x1_0000,
    ensures
        is_message(
            segment::framed(body, 0, data_words, ptr_count),
            body,
            data_words,
            ptr_count,
        ),
{
    lemma_message_root(body, data_words, ptr_count);
    let msg = segment::framed(body, 0, data_words, ptr_count);
    assert forall|i: int| 0 <= i < body.len() implies words::word_at(msg, 16 + 8 * i)
        == #[trigger] body[i] by {
        lemma_message_word(body, data_words, ptr_count, i);
    }
}

/// The start of framed words.
#[verifier::spinoff_prover]
proof fn lemma_message_root(body: Seq<u64>, data_words: int, ptr_count: int)
    requires
        0 <= data_words < 0x1_0000,
        0 <= ptr_count < 0x1_0000,
    ensures
        ({
            let msg = segment::framed(body, 0, data_words, ptr_count);
            &&& msg.len() == 16 + 8 * body.len()
            &&& msg[0] == 0 && msg[1] == 0 && msg[2] == 0 && msg[3] == 0
            &&& words::word_at(msg, 8) == 0x1_0000_0000 * data_words + 0x1_0000_0000_0000
                * ptr_count
        }),
{
    let msg = segment::framed(body, 0, data_words, ptr_count);
    let root = segment::struct_pointer(0, data_words, ptr_count);
    law_struct_pointer_bits(0, data_words, ptr_count);
    assert forall|k: int| 0 <= k < 4 implies msg[k] == 0 by {
        assert(msg[k] == words::le32(0)[k]);
    }
    words::lemma_word_of_le64(root);
    assert(msg.subrange(8, 16) =~= words::le64(root));
}

/// Word `i` of framed words.
#[verifier::spinoff_prover]
#[verifier::rlimit(40)]
proof fn lemma_message_word(body: Seq<u64>, data_words: int, ptr_count: int, i: int)
    requires
        0 <= i < body.len(),
    ensures
        words::word_at(segment::framed(body, 0, data_words, ptr_count), 16 + 8 * i) == body[i],
{
    law_bytes_of_words(body, i);
    words::lemma_word_of_le64(body[i]);
    let start = words::le32(0) + words::le32(((1 + body.len()) % 0x1_0000_0000) as u32)
        + words::le64(segment::struct_pointer(0, data_words, ptr_count));
    assert(start.len() == 16);
    lemma_behind(start, words::flat(body), 8 * i);
}

/// Eight bytes of what stands behind other bytes.
#[verifier::spinoff_prover]
proof fn lemma_behind(start: Seq<u8>, rest: Seq<u8>, at: int)
    requires
        0 <= at,
        at + 8 <= rest.len(),
    ensures
        (start + rest).subrange(start.len() + at, start.len() + at + 8) == rest.subrange(at, at + 8),
{
    assert((start + rest).subrange(start.len() + at, start.len() + at + 8) =~= rest.subrange(
        at,
        at + 8,
    ));
}

/// The bytes of the messages: one segment, whose root is the struct at the start of
/// the words. A message to the edge has one data word and one pointer; the
/// parameters of a registration have one data word and three pointers.
#[verifier::spinoff_prover]
pub proof fn law_messages(question_id: u32, params: Seq<u8>, f: RegisterFields)
    ensures
        is_message(
            capnp_rpc::bootstrap_message(question_id),
            capnp_rpc::bootstrap_words(question_id),
            1,
            1,
        ),
        is_message(
            capnp_rpc::call_message(question_id, params),
            capnp_rpc::call_words(question_id, capnp_rpc::stripped(params)),
            1,
            1,
        ),
        is_message(capnp_rpc::register_message(f), f.words(), 1, 3),
{
    lemma_message(capnp_rpc::bootstrap_words(question_id), 1, 1);
    lemma_message(capnp_rpc::call_words(question_id, capnp_rpc::stripped(params)), 1, 1);
    lemma_message(f.words(), 1, 3);
}

/// What a connection response comes to: the location that it names, as it was
/// written, or `unknown` where it names none; the reason that it names, or
/// `unknown error`; and else what is wrong with it.
#[verifier::spinoff_prover]
pub proof fn law_outcome(
    data: Seq<u8>,
    written: Seq<char>,
    r: Result<String, capnp_rpc::ResponseError>,
)
    requires
        capnp_rpc::is_outcome(data, r),
        data.len() <= usize::MAX,
    ensures
        match capnp_rpc::connection_reply(data) {
            capnp_rpc::ConnectionReply::Located(bytes) => match bytes {
                None => r matches Ok(t) && t@ == "unknown"@,
                Some(b) => r is Ok && (b == vstd::utf8::encode_utf8(written) ==> r->Ok_0@
                    == written),
            },
            capnp_rpc::ConnectionReply::Rejected(bytes) => match bytes {
                None => r matches Err(capnp_rpc::ResponseError::Rejected(t)) && t@
                    == "unknown error"@,
                Some(b) => r matches Err(capnp_rpc::ResponseError::Rejected(t)) && (b
                    == vstd::utf8::encode_utf8(written) ==> t@ == written),
            },
            capnp_rpc::ConnectionReply::TooShort => r matches Err(
                capnp_rpc::ResponseError::TooShort(n),
            ) && n == data.len(),
            capnp_rpc::ConnectionReply::NotStruct(kind) => r matches Err(
                capnp_rpc::ResponseError::NotStruct(k),
            ) && k == kind,
            capnp_rpc::ConnectionReply::OutOfBounds => r matches Err(
                capnp_rpc::ResponseError::OutOfBounds,
            ),
            capnp_rpc::ConnectionReply::Unknown(variant) => r matches Err(
                capnp_rpc::ResponseError::Unknown(v),
            ) && v == variant,
        },
{
    vstd::utf8::encode_utf8_valid_utf8(written);
    vstd::utf8::encode_utf8_decode_utf8(written);
}

/// What a pointer to a text in a response names. A pointer that is not there, one
/// of another kind than bytes, and one that reaches out of the response name
/// nothing; the null pointer names no bytes; and every other names the bytes that
/// start its distance, in words, behind the word after it, without the last, which
/// is the NUL.
#[verifier::spinoff_prover]
pub proof fn law_text_pointer(seg: Seq<u8>, start: int, data_words: int, slot: int)
    requires
        0 <= start,
        0 <= data_words,
        0 <= slot,
    ensures
        ({
            let named = capnp_rpc::text_bytes(seg, start, data_words, slot);
            let at = start + 8 * data_words + 8 * slot;
            let p = words::word_at(seg, at) as int;
            let low = p % 0x1_0000_0000 / 4;
            let distance = if low < 0x2000_0000 {
                low
            } else {
                low - 0x4000_0000
            };
            let from = at + 8 + 8 * distance;
            let count = p / 0x8_0000_0000;
            if at + 8 > seg.len() {
                named is None
            } else if p == 0 {
                named is Some && named.unwrap().len() == 0
            } else if p % 4 != 1 || p / 0x1_0000_0000 % 8 != 2 || from < 0 || from + count
                > seg.len() {
                named is None
            } else {
                &&& named is Some
                &&& named.unwrap().len() == (if count == 0 {
                    0
                } else {
                    count - 1
                })
                &&& forall|i: int|
                    0 <= i < named.unwrap().len() ==> #[trigger] named.unwrap()[i] == seg[from + i]
            }
        }),
{
}

/// A framed message that is too short for a root pointer, or that ends where its
/// words would start, has no words.
#[verifier::spinoff_prover]
pub proof fn law_nothing_to_strip(framed: Seq<u8>)
    requires
        framed.len() < 16 || capnp_rpc::body_start(framed) >= framed.len(),
    ensures
        capnp_rpc::stripped(framed).len() == 0,
{
}

} // verus!
