//! Little-endian words: how the integers of a message are laid out as bytes.

use vstd::arithmetic::div_mod::lemma_div_denominator;
use vstd::prelude::*;

verus! {

/// The two bytes of `v`, lowest first.
pub open spec fn le16(v: u16) -> Seq<u8> {
    seq![(v % 0x100) as u8, (v / 0x100) as u8]
}

/// The four bytes of `v`, lowest first.
pub open spec fn le32(v: u32) -> Seq<u8> {
    seq![
        (v % 0x100) as u8,
        (v / 0x100 % 0x100) as u8,
        (v / 0x1_0000 % 0x100) as u8,
        (v / 0x100_0000) as u8,
    ]
}

/// The eight bytes of `v`, lowest first.
pub open spec fn le64(v: u64) -> Seq<u8> {
    seq![
        (v % 0x100) as u8,
        (v / 0x100 % 0x100) as u8,
        (v / 0x1_0000 % 0x100) as u8,
        (v / 0x100_0000 % 0x100) as u8,
        (v / 0x1_0000_0000 % 0x100) as u8,
        (v / 0x100_0000_0000 % 0x100) as u8,
        (v / 0x1_0000_0000_0000 % 0x100) as u8,
        (v / 0x100_0000_0000_0000) as u8,
    ]
}

/// The integer whose lowest eight bytes are `b[0]` to `b[7]`.
pub open spec fn word_of(b: Seq<u8>) -> u64 {
    (b[0] + 0x100 * b[1] + 0x1_0000 * b[2] + 0x100_0000 * b[3] + 0x1_0000_0000 * b[4]
        + 0x100_0000_0000 * b[5] + 0x1_0000_0000_0000 * b[6]
        + 0x100_0000_0000_0000 * b[7]) as u64
}

/// The bytes of `words`, one word after the other.
pub open spec fn flat(words: Seq<u64>) -> Seq<u8> {
    Seq::new(8 * words.len(), |i: int| le64(words[i / 8])[i % 8])
}

/// The bytes `data`, filled up with zeros, as `n` words.
pub open spec fn packed(data: Seq<u8>, n: nat) -> Seq<u64> {
    Seq::new(n, |k: int| word_of(padded_chunk(data, k)))
}

/// Bytes `8 * k` to `8 * k + 7` of `data`, with zeros past its end.
pub open spec fn padded_chunk(data: Seq<u8>, k: int) -> Seq<u8> {
    Seq::new(8, |j: int| if 8 * k + j < data.len() { data[8 * k + j] } else { 0u8 })
}

/// The word at byte `at` of `data`.
pub open spec fn word_at(data: Seq<u8>, at: int) -> u64 {
    word_of(data.subrange(at, at + 8))
}

/// The two bytes of `data` from `at` on, as an integer.
pub open spec fn quarter_at(data: Seq<u8>, at: int) -> u16 {
    (data[at] + 0x100 * data[at + 1]) as u16
}

/// The four bytes of `data` from `at` on, as an integer.
pub open spec fn half_at(data: Seq<u8>, at: int) -> u32 {
    (data[at] + 0x100 * data[at + 1] + 0x1_0000 * data[at + 2] + 0x100_0000 * data[at + 3]) as u32
}

/// A word is its bytes.
pub broadcast proof fn lemma_word_of_le64(w: u64)
    ensures
        #[trigger] word_of(le64(w)) == w,
{
    let q1 = w / 0x100;
    let q2 = q1 / 0x100;
    let q3 = q2 / 0x100;
    let q4 = q3 / 0x100;
    let q5 = q4 / 0x100;
    let q6 = q5 / 0x100;
    let q7 = q6 / 0x100;
    lemma_quotients(w as int);
    assert(le64(w) == seq![
        (w % 0x100) as u8,
        (q1 % 0x100) as u8,
        (q2 % 0x100) as u8,
        (q3 % 0x100) as u8,
        (q4 % 0x100) as u8,
        (q5 % 0x100) as u8,
        (q6 % 0x100) as u8,
        q7 as u8,
    ]);
}

/// Dividing by a power of 256 is dividing by 256 that many times.
proof fn lemma_quotients(w: int)
    requires
        0 <= w,
    ensures
        w / 0x1_0000 == w / 0x100 / 0x100,
        w / 0x100_0000 == w / 0x100 / 0x100 / 0x100,
        w / 0x1_0000_0000 == w / 0x100 / 0x100 / 0x100 / 0x100,
        w / 0x100_0000_0000 == w / 0x100 / 0x100 / 0x100 / 0x100 / 0x100,
        w / 0x1_0000_0000_0000 == w / 0x100 / 0x100 / 0x100 / 0x100 / 0x100 / 0x100,
        w / 0x100_0000_0000_0000 == w / 0x100 / 0x100 / 0x100 / 0x100 / 0x100 / 0x100 / 0x100,
{
    lemma_div_denominator(w, 0x100, 0x100);
    lemma_div_denominator(w, 0x1_0000, 0x100);
    lemma_div_denominator(w, 0x100_0000, 0x100);
    lemma_div_denominator(w, 0x1_0000_0000, 0x100);
    lemma_div_denominator(w, 0x100_0000_0000, 0x100);
    lemma_div_denominator(w, 0x1_0000_0000_0000, 0x100);
}

/// Eight bytes are the bytes of their word.
pub proof fn lemma_le64_word_of(b: Seq<u8>)
    requires
        b.len() == 8,
    ensures
        le64(word_of(b)) == b,
{
    let t7: int = b[7] as int;
    let t6: int = b[6] + 0x100 * t7;
    let t5: int = b[5] + 0x100 * t6;
    let t4: int = b[4] + 0x100 * t5;
    let t3: int = b[3] + 0x100 * t4;
    let t2: int = b[2] + 0x100 * t3;
    let t1: int = b[1] + 0x100 * t2;
    let w: int = b[0] + 0x100 * t1;
    assert(w == word_of(b));
    lemma_quotients(w);
    assert(w / 0x100 == t1 && w % 0x100 == b[0]);
    assert(t1 / 0x100 == t2 && t1 % 0x100 == b[1]);
    assert(t2 / 0x100 == t3 && t2 % 0x100 == b[2]);
    assert(t3 / 0x100 == t4 && t3 % 0x100 == b[3]);
    assert(t4 / 0x100 == t5 && t4 % 0x100 == b[4]);
    assert(t5 / 0x100 == t6 && t5 % 0x100 == b[5]);
    assert(t6 / 0x100 == t7 && t6 % 0x100 == b[6]);
    assert(le64(word_of(b)) =~= b);
}

/// Writes the eight bytes of `v` behind `out`.
pub fn put_le64(out: &mut Vec<u8>, v: u64)
    ensures
        final(out)@ == old(out)@ + le64(v),
{
    out.push((v % 0x100) as u8);
    out.push((v / 0x100 % 0x100) as u8);
    out.push((v / 0x1_0000 % 0x100) as u8);
    out.push((v / 0x100_0000 % 0x100) as u8);
    out.push((v / 0x1_0000_0000 % 0x100) as u8);
    out.push((v / 0x100_0000_0000 % 0x100) as u8);
    out.push((v / 0x1_0000_0000_0000 % 0x100) as u8);
    out.push((v / 0x100_0000_0000_0000) as u8);
    assert(out@ =~= old(out)@ + le64(v));
}

/// One word more is its eight bytes more.
pub proof fn lemma_flat_push(words: Seq<u64>, w: u64)
    ensures
        flat(words.push(w)) == flat(words) + le64(w),
{
    let a = flat(words.push(w));
    let b = flat(words) + le64(w);
    assert forall|i: int| 0 <= i < a.len() implies a[i] == b[i] by {
        if i < 8 * words.len() {
            assert(words.push(w)[i / 8] == words[i / 8]);
        } else {
            assert(i / 8 == words.len());
            assert(i % 8 == i - 8 * words.len());
        }
    }
    assert(a =~= b);
}

/// Writes the bytes of `words` behind `out`.
pub fn put_words(out: &mut Vec<u8>, words: &[u64])
    ensures
        final(out)@ == old(out)@ + flat(words@),
{
    let ghost head = out@;
    let n = words.len();
    let mut i: usize = 0;
    assert(flat(words@.take(0)) =~= Seq::<u8>::empty());
    while i < n
        invariant
            i <= n,
            n == words@.len(),
            out@ == head + flat(words@.take(i as int)),
        decreases n - i,
    {
        put_le64(out, words[i]);
        proof {
            lemma_flat_push(words@.take(i as int), words@[i as int]);
            assert(words@.take(i + 1) =~= words@.take(i as int).push(words@[i as int]));
            assert(head + flat(words@.take(i as int)) + le64(words@[i as int]) =~= head + flat(words@.take(i + 1)));
        }
        i = i + 1;
    }
    assert(words@.take(n as int) =~= words@);
}

/// Writes the four bytes of `v` behind `out`.
pub fn put_le32(out: &mut Vec<u8>, v: u32)
    ensures
        final(out)@ == old(out)@ + le32(v),
{
    out.push((v % 0x100) as u8);
    out.push((v / 0x100 % 0x100) as u8);
    out.push((v / 0x1_0000 % 0x100) as u8);
    out.push((v / 0x100_0000) as u8);
    assert(out@ =~= old(out)@ + le32(v));
}

/// Reads the word at byte `at` of `data`.
pub fn get_le64(data: &[u8], at: usize) -> (w: u64)
    requires
        at + 8 <= data@.len(),
    ensures
        w == word_at(data@, at as int),
{
    let ghost b = data@.subrange(at as int, at + 8);
    (data[at] as u64) + 0x100 * (data[at + 1] as u64) + 0x1_0000 * (data[at + 2] as u64)
        + 0x100_0000 * (data[at + 3] as u64) + 0x1_0000_0000 * (data[at + 4] as u64)
        + 0x100_0000_0000 * (data[at + 5] as u64) + 0x1_0000_0000_0000 * (data[at + 6] as u64)
        + 0x100_0000_0000_0000 * (data[at + 7] as u64)
}

/// Reads the two bytes of `data` from `at` on.
pub fn get_le16(data: &[u8], at: usize) -> (v: u16)
    requires
        at + 2 <= data@.len(),
    ensures
        v == quarter_at(data@, at as int),
{
    (data[at] as u16) + 0x100 * (data[at + 1] as u16)
}

/// Reads the four bytes of `data` from `at` on.
pub fn get_le32(data: &[u8], at: usize) -> (v: u32)
    requires
        at + 4 <= data@.len(),
    ensures
        v == half_at(data@, at as int),
{
    (data[at] as u32) + 0x100 * (data[at + 1] as u32) + 0x1_0000 * (data[at + 2] as u32)
        + 0x100_0000 * (data[at + 3] as u32)
}

/// Packs the eight bytes of `data` from `8 * k` on, with zeros past its end.
pub fn pack_chunk(data: &[u8], k: usize) -> (w: u64)
    requires
        8 * k < data@.len() + 8,
        8 * k + 7 <= usize::MAX,
    ensures
        w == word_of(padded_chunk(data@, k as int)),
{
    let at = 8 * k;
    let n = data.len();
    let b0: u64 = if at < n { data[at] as u64 } else { 0 };
    let b1: u64 = if at + 1 < n { data[at + 1] as u64 } else { 0 };
    let b2: u64 = if at + 2 < n { data[at + 2] as u64 } else { 0 };
    let b3: u64 = if at + 3 < n { data[at + 3] as u64 } else { 0 };
    let b4: u64 = if at + 4 < n { data[at + 4] as u64 } else { 0 };
    let b5: u64 = if at + 5 < n { data[at + 5] as u64 } else { 0 };
    let b6: u64 = if at + 6 < n { data[at + 6] as u64 } else { 0 };
    let b7: u64 = if at + 7 < n { data[at + 7] as u64 } else { 0 };
    b0 + 0x100 * b1 + 0x1_0000 * b2 + 0x100_0000 * b3 + 0x1_0000_0000 * b4
        + 0x100_0000_0000 * b5 + 0x1_0000_0000_0000 * b6 + 0x100_0000_0000_0000 * b7
}

} // verus!
