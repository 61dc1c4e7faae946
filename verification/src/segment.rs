//! A single-segment Cap'n Proto message under construction.
//!
//! A segment is a run of 64-bit words. Structs, byte lists and pointer lists
//! are allocated behind one another; a pointer word names its target by the
//! distance in words from the word behind it.

use vstd::arithmetic::div_mod::lemma_div_denominator;
use vstd::prelude::*;
use crate::words;

verus! {

/// The low half of a pointer: the distance in words, as a 30-bit two's
/// complement number, and the kind of pointer in the lowest two bits.
pub open spec fn pointer_low(distance: int, kind: int) -> int {
    (4 * distance) % 0x1_0000_0000 + kind
}

/// A pointer to a struct of `data_words` data words and `ptr_count` pointers.
#[verifier::opaque]
pub open spec fn struct_pointer(distance: int, data_words: int, ptr_count: int) -> u64 {
    (pointer_low(distance, 0) + 0x1_0000_0000 * (data_words + 0x1_0000 * ptr_count)) as u64
}

/// A pointer to a list of `count` elements of the given element size code.
/// The count takes 29 bits: what does not fit is cut off.
#[verifier::opaque]
pub open spec fn list_pointer(distance: int, size_code: int, count: int) -> u64 {
    (pointer_low(distance, 1) + 0x1_0000_0000 * ((8 * count) % 0x1_0000_0000 + size_code)) as u64
}

/// A pointer to `count` bytes.
pub open spec fn bytes_pointer(distance: int, count: int) -> u64 {
    list_pointer(distance, 2, count)
}

/// A pointer to `count` pointers.
pub open spec fn pointers_pointer(distance: int, count: int) -> u64 {
    list_pointer(distance, 6, count)
}

/// The kind of a pointer: 0 for a struct, 1 for a list.
pub open spec fn kind(p: u64) -> int {
    p as int % 4
}

/// The distance of a pointer, from its low half: the upper 30 bits, signed.
pub open spec fn distance(p: u64) -> int {
    let q = p as int % 0x1_0000_0000 / 4;
    if q < 0x2000_0000 {
        q
    } else {
        q - 0x4000_0000
    }
}

/// The data words of the struct that a pointer names.
pub open spec fn data_words_of(p: u64) -> int {
    p as int / 0x1_0000_0000 % 0x1_0000
}

/// The pointers of the struct that a pointer names.
pub open spec fn ptr_count_of(p: u64) -> int {
    p as int / 0x1_0000_0000_0000
}

/// The element size code of the list that a pointer names.
pub open spec fn size_code_of(p: u64) -> int {
    p as int / 0x1_0000_0000 % 8
}

/// The length of the list that a pointer names.
pub open spec fn count_of(p: u64) -> int {
    p as int / 0x8_0000_0000
}

/// The word that the pointer at word `at` names.
pub open spec fn target(words: Seq<u64>, at: int) -> int {
    at + 1 + distance(words[at])
}

/// The bytes of the list that the pointer at word `at` names.
pub open spec fn bytes_at(words: Seq<u64>, at: int) -> Seq<u8> {
    let start = 8 * target(words, at);
    words::flat(words).subrange(start, start + count_of(words[at]))
}

/// A struct pointer reads back as what it was made of.
pub proof fn lemma_struct_pointer(d: int, data_words: int, ptr_count: int)
    requires
        -0x2000_0000 <= d < 0x2000_0000,
        0 <= data_words < 0x1_0000,
        0 <= ptr_count < 0x1_0000,
    ensures
        kind(struct_pointer(d, data_words, ptr_count)) == 0,
        distance(struct_pointer(d, data_words, ptr_count)) == d,
        data_words_of(struct_pointer(d, data_words, ptr_count)) == data_words,
        ptr_count_of(struct_pointer(d, data_words, ptr_count)) == ptr_count,
{
    reveal(struct_pointer);
    let lo = pointer_low(d, 0);
    let hi = data_words + 0x1_0000 * ptr_count;
    lemma_halves(lo, hi);
    lemma_low(d, 0);
    let p = struct_pointer(d, data_words, ptr_count) as int;
    assert(p / 0x1_0000_0000_0000 == p / 0x1_0000_0000 / 0x1_0000) by {
        lemma_div_denominator(p, 0x1_0000_0000, 0x1_0000);
    }
}

/// A list pointer reads back as what it was made of.
pub proof fn lemma_list_pointer(d: int, size_code: int, count: int)
    requires
        -0x2000_0000 <= d < 0x2000_0000,
        0 <= size_code < 8,
        0 <= count < 0x2000_0000,
    ensures
        kind(list_pointer(d, size_code, count)) == 1,
        distance(list_pointer(d, size_code, count)) == d,
        size_code_of(list_pointer(d, size_code, count)) == size_code,
        count_of(list_pointer(d, size_code, count)) == count,
{
    reveal(list_pointer);
    let lo = pointer_low(d, 1);
    let hi = (8 * count) % 0x1_0000_0000 + size_code;
    lemma_halves(lo, hi);
    lemma_low(d, 1);
    let p = list_pointer(d, size_code, count) as int;
    assert(p / 0x8_0000_0000 == p / 0x1_0000_0000 / 8) by {
        lemma_div_denominator(p, 0x1_0000_0000, 8);
    }
}

/// The halves of a word.
proof fn lemma_halves(lo: int, hi: int)
    requires
        0 <= lo < 0x1_0000_0000,
        0 <= hi < 0x1_0000_0000,
    ensures
        lo + 0x1_0000_0000 * hi <= u64::MAX,
        (lo + 0x1_0000_0000 * hi) / 0x1_0000_0000 == hi,
        (lo + 0x1_0000_0000 * hi) % 0x1_0000_0000 == lo,
        (lo + 0x1_0000_0000 * hi) % 4 == lo % 4,
{
}

/// The low half of a pointer reads back as kind and distance.
proof fn lemma_low(d: int, k: int)
    requires
        -0x2000_0000 <= d < 0x2000_0000,
        0 <= k < 4,
    ensures
        0 <= pointer_low(d, k) < 0x1_0000_0000,
        pointer_low(d, k) % 4 == k,
        pointer_low(d, k) / 4 == if d >= 0 { d } else { d + 0x4000_0000 },
{
    if d >= 0 {
        assert((4 * d) % 0x1_0000_0000 == 4 * d);
    } else {
        assert((4 * d) % 0x1_0000_0000 == 4 * d + 0x1_0000_0000);
    }
}

/// The words that `len` bytes take.
pub open spec fn data_size(len: int) -> int {
    (len + 7) / 8
}

/// The words that a text of `len` bytes takes, with the NUL behind it.
pub open spec fn text_size(len: int) -> int {
    (len + 8) / 8
}

/// The word `w` with the bytes from `byte` on replaced by `bytes`.
#[verifier::opaque]
pub open spec fn with_bytes(w: u64, byte: int, bytes: Seq<u8>) -> u64 {
    words::word_of(
        Seq::new(
            8,
            |i: int|
                if byte <= i < byte + bytes.len() {
                    bytes[i - byte]
                } else {
                    words::le64(w)[i]
                },
        ),
    )
}

/// A framed message of one segment: the segment count less one, the segment's
/// size in words, the root pointer, and then `body`.
///
/// The root pointer names the struct at word `root_word` of `body`, which starts
/// right behind it.
pub open spec fn framed(
    body: Seq<u64>,
    root_word: int,
    data_words: int,
    ptr_count: int,
) -> Seq<u8> {
    words::le32(0) + words::le32(((1 + body.len()) % 0x1_0000_0000) as u32) + words::le64(
        struct_pointer(root_word, data_words, ptr_count),
    ) + words::flat(body)
}

/// A small value put at the start of a zero word is the word.
pub proof fn lemma_with_bytes_start(a: u8, b: u16, c: u32)
    ensures
        with_bytes(0, 0, seq![a]) == a,
        with_bytes(0, 0, words::le16(b)) == b,
        with_bytes(0, 0, words::le32(c)) == c,
{
    reveal(with_bytes);
}

/// Zeros put into zeros change nothing.
pub proof fn lemma_with_bytes_zero(c: u32)
    ensures
        with_bytes(0, 4, words::le32(0)) == 0,
        with_bytes(c as u64, 4, words::le16(0)) == c,
{
    reveal(with_bytes);
}

/// Where a struct was put: its data section and its pointer section.
pub struct StructAlloc {
    pub data_w: usize,
    pub ptr_w: usize,
}

/// The words of a segment that is being built, without the root pointer.
pub struct SegBuilder {
    pub words: Vec<u64>,
}

impl View for SegBuilder {
    type V = Seq<u64>;

    open spec fn view(&self) -> Seq<u64> {
        self.words@
    }
}

/// The low half of a pointer at word `ptr_word` to word `target_word`.
fn low_half(ptr_word: usize, target_word: usize, kind: u64) -> (lo: u64)
    requires
        kind < 4,
    ensures
        lo == pointer_low(target_word - ptr_word - 1, kind as int),
{
    let lo: u64 = if target_word > ptr_word {
        let ahead: u64 = ((target_word - ptr_word - 1) as u64) % 0x4000_0000;
        4 * ahead
    } else {
        let back: u64 = ((ptr_word - target_word) as u64) % 0x4000_0000;
        4 * (0x4000_0000 - back - 1)
    };
    proof {
        let d = target_word - ptr_word - 1;
        assert((4 * d) % 0x1_0000_0000 == lo);
    }
    lo + kind
}

/// The pointer in front of the words of a segment to the struct at word
/// `root_word` of them.
fn root_pointer(root_word: usize, data_words: u16, ptr_count: u16) -> (w: u64)
    ensures
        w == struct_pointer(root_word as int, data_words as int, ptr_count as int),
{
    proof {
        reveal(struct_pointer);
    }
    let lo: u64 = 4 * ((root_word as u64) % 0x4000_0000);
    let hi: u64 = (data_words as u64) + 0x1_0000 * (ptr_count as u64);
    lo + 0x1_0000_0000 * hi
}

/// What is written behind nothing is all there is.
proof fn lemma_from_empty(s: Seq<u8>)
    ensures
        Seq::<u8>::empty() + s == s,
{
    assert(Seq::<u8>::empty() + s =~= s);
}

impl SegBuilder {
    /// An empty segment.
    pub fn new() -> (s: Self)
        ensures
            s@ == Seq::<u64>::empty(),
    {
        SegBuilder { words: Vec::with_capacity(32) }
    }

    /// Appends `n` zero words and returns the index of the first.
    pub fn alloc_words(&mut self, n: usize) -> (w: usize)
        requires
            old(self)@.len() + n <= usize::MAX,
        ensures
            w == old(self)@.len(),
            final(self)@ == old(self)@ + Seq::new(n as nat, |i: int| 0u64),
    {
        let w = self.words.len();
        self.words.resize(w + n, 0);
        assert(self.words@ =~= old(self)@ + Seq::new(n as nat, |i: int| 0u64));
        w
    }

    /// Appends a zeroed struct.
    pub fn alloc_struct(&mut self, data_words: usize, ptr_count: usize) -> (a: StructAlloc)
        requires
            old(self)@.len() + data_words + ptr_count <= usize::MAX,
        ensures
            a.data_w == old(self)@.len(),
            a.ptr_w == old(self)@.len() + data_words,
            final(self)@ == old(self)@ + Seq::new(
                (data_words + ptr_count) as nat,
                |i: int| 0u64,
            ),
    {
        let w = self.alloc_words(data_words + ptr_count);
        StructAlloc { data_w: w, ptr_w: w + data_words }
    }

    /// Appends the bytes `data` in `n` words.
    fn push_packed(&mut self, data: &[u8], n: usize)
        requires
            8 * n < data@.len() + 16,
            8 * n <= usize::MAX,
        ensures
            final(self)@ == old(self)@ + words::packed(data@, n as nat),
    {
        let ghost before = self.words@;
        let mut k: usize = 0;
        while k < n
            invariant
                k <= n,
                8 * n < data@.len() + 16,
                8 * n <= usize::MAX,
                self.words@ == before + words::packed(data@, k as nat),
            decreases n - k,
        {
            self.words.push(words::pack_chunk(data, k));
            k = k + 1;
            assert(self.words@ =~= before + words::packed(data@, k as nat));
        }
    }

    /// Appends a text with the NUL behind it and returns its first word.
    pub fn alloc_text(&mut self, s: &str) -> (w: usize)
        requires
            old(self)@.len() + text_size(vstd::utf8::encode_utf8(s@).len() as int) <= usize::MAX / 8,
        ensures
            w == old(self)@.len(),
            final(self)@ == old(self)@ + words::packed(
                vstd::utf8::encode_utf8(s@),
                text_size(vstd::utf8::encode_utf8(s@).len() as int) as nat,
            ),
    {
        let b = s.as_bytes();
        let w = self.words.len();
        self.push_packed(b, b.len() / 8 + 1);
        w
    }

    /// Appends the bytes `d` and returns their first word.
    pub fn alloc_data(&mut self, d: &[u8]) -> (w: usize)
        requires
            old(self)@.len() + data_size(d@.len() as int) <= usize::MAX / 8,
        ensures
            w == old(self)@.len(),
            final(self)@ == old(self)@ + words::packed(d@, data_size(d@.len() as int) as nat),
    {
        let w = self.words.len();
        let n: usize = if d.len() % 8 == 0 { d.len() / 8 } else { d.len() / 8 + 1 };
        self.push_packed(d, n);
        w
    }

    /// Appends room for `count` pointers, for one where `count` is 0.
    pub fn alloc_ptr_list(&mut self, count: usize) -> (w: usize)
        requires
            old(self)@.len() + count < usize::MAX,
        ensures
            w == old(self)@.len(),
            final(self)@ == old(self)@ + Seq::new(
                (if count == 0 { 1 } else { count as nat }),
                |i: int| 0u64,
            ),
    {
        self.alloc_words(if count == 0 { 1 } else { count })
    }

    /// Appends `words` as they are and returns the index of the first.
    pub fn alloc_raw(&mut self, words: &[u64]) -> (w: usize)
        ensures
            w == old(self)@.len(),
            final(self)@ == old(self)@ + words@,
    {
        let w = self.words.len();
        self.words.extend_from_slice(words);
        assert(self.words@ =~= old(self)@ + words@);
        w
    }

    /// Sets byte `byte` of word `word`.
    pub fn set_u8(&mut self, word: usize, byte: usize, v: u8)
        requires
            word < old(self)@.len(),
            byte < 8,
        ensures
            final(self)@ == old(self)@.update(
                word as int,
                with_bytes(old(self)@[word as int], byte as int, seq![v]),
            ),
    {
        let mut bytes: Vec<u8> = Vec::new();
        words::put_le64(&mut bytes, self.words[word]);
        bytes[byte] = v;
        let w = words::get_le64(bytes.as_slice(), 0);
        proof {
            reveal(with_bytes);
            let b = Seq::new(
                8,
                |i: int| if byte <= i < byte + 1 { seq![v][i - byte] } else {
                    words::le64(old(self)@[word as int])[i]
                },
            );
            assert(bytes@.subrange(0, 8) =~= b);
        }
        self.words[word] = w;
    }

    /// Sets two bytes of word `word` from byte `byte` on.
    pub fn set_u16(&mut self, word: usize, byte: usize, v: u16)
        requires
            word < old(self)@.len(),
            byte <= 6,
        ensures
            final(self)@ == old(self)@.update(
                word as int,
                with_bytes(old(self)@[word as int], byte as int, words::le16(v)),
            ),
    {
        let mut bytes: Vec<u8> = Vec::new();
        words::put_le64(&mut bytes, self.words[word]);
        bytes[byte] = (v % 0x100) as u8;
        bytes[byte + 1] = (v / 0x100) as u8;
        let w = words::get_le64(bytes.as_slice(), 0);
        proof {
            reveal(with_bytes);
            let b = Seq::new(
                8,
                |i: int| if byte <= i < byte + words::le16(v).len() { words::le16(v)[i - byte] } else {
                    words::le64(old(self)@[word as int])[i]
                },
            );
            assert(bytes@.subrange(0, 8) =~= b);
        }
        self.words[word] = w;
    }

    /// Sets four bytes of word `word` from byte `byte` on.
    pub fn set_u32(&mut self, word: usize, byte: usize, v: u32)
        requires
            word < old(self)@.len(),
            byte <= 4,
        ensures
            final(self)@ == old(self)@.update(
                word as int,
                with_bytes(old(self)@[word as int], byte as int, words::le32(v)),
            ),
    {
        let mut bytes: Vec<u8> = Vec::new();
        words::put_le64(&mut bytes, self.words[word]);
        bytes[byte] = (v % 0x100) as u8;
        bytes[byte + 1] = (v / 0x100 % 0x100) as u8;
        bytes[byte + 2] = (v / 0x1_0000 % 0x100) as u8;
        bytes[byte + 3] = (v / 0x100_0000) as u8;
        let w = words::get_le64(bytes.as_slice(), 0);
        proof {
            reveal(with_bytes);
            let b = Seq::new(
                8,
                |i: int| if byte <= i < byte + words::le32(v).len() { words::le32(v)[i - byte] } else {
                    words::le64(old(self)@[word as int])[i]
                },
            );
            assert(bytes@.subrange(0, 8) =~= b);
        }
        self.words[word] = w;
    }

    /// Sets word `word`.
    pub fn set_u64(&mut self, word: usize, v: u64)
        requires
            word < old(self)@.len(),
        ensures
            final(self)@ == old(self)@.update(word as int, v),
    {
        self.words[word] = v;
    }

    /// Points slot `slot` of the pointer section at `ptr_base` to a struct.
    pub fn set_struct_ptr(
        &mut self,
        ptr_base: usize,
        slot: usize,
        target_word: usize,
        data_words: u16,
        ptr_count: u16,
    )
        requires
            ptr_base + slot < old(self)@.len(),
        ensures
            final(self)@ == old(self)@.update(
                ptr_base + slot,
                struct_pointer(
                    target_word - (ptr_base + slot) - 1,
                    data_words as int,
                    ptr_count as int,
                ),
            ),
    {
        assert(self.words.len() == self@.len());
        let ptr_word = ptr_base + slot;
        proof {
            reveal(struct_pointer);
        }
        let lo = low_half(ptr_word, target_word, 0);
        let hi: u64 = (data_words as u64) + 0x1_0000 * (ptr_count as u64);
        self.words[ptr_word] = lo + 0x1_0000_0000 * hi;
    }

    /// Points a slot to `count` elements of the given element size code.
    fn set_list_ptr(
        &mut self,
        ptr_word: usize,
        target_word: usize,
        size_code: u64,
        count: usize,
    )
        requires
            ptr_word < old(self)@.len(),
            size_code < 8,
        ensures
            final(self)@ == old(self)@.update(
                ptr_word as int,
                list_pointer(target_word - ptr_word - 1, size_code as int, count as int),
            ),
    {
        proof {
            reveal(list_pointer);
        }
        let lo = low_half(ptr_word, target_word, 1);
        let hi: u64 = 8 * ((count as u64) % 0x2000_0000) + size_code;
        self.words[ptr_word] = lo + 0x1_0000_0000 * hi;
    }

    /// Points a slot to `len` bytes.
    pub fn set_data_ptr(&mut self, ptr_base: usize, slot: usize, target_word: usize, len: usize)
        requires
            ptr_base + slot < old(self)@.len(),
        ensures
            final(self)@ == old(self)@.update(
                ptr_base + slot,
                bytes_pointer(target_word - (ptr_base + slot) - 1, len as int),
            ),
    {
        assert(self.words.len() == self@.len());
        self.set_list_ptr(ptr_base + slot, target_word, 2, len);
    }

    /// Points a slot to a text of `char_count` bytes, the NUL among them.
    pub fn set_text_ptr(
        &mut self,
        ptr_base: usize,
        slot: usize,
        target_word: usize,
        char_count: usize,
    )
        requires
            ptr_base + slot < old(self)@.len(),
        ensures
            final(self)@ == old(self)@.update(
                ptr_base + slot,
                bytes_pointer(target_word - (ptr_base + slot) - 1, char_count as int),
            ),
    {
        self.set_data_ptr(ptr_base, slot, target_word, char_count);
    }

    /// Points a slot to a list of `count` pointers.
    pub fn set_ptr_list_ptr(
        &mut self,
        ptr_base: usize,
        slot: usize,
        target_word: usize,
        count: usize,
    )
        requires
            ptr_base + slot < old(self)@.len(),
        ensures
            final(self)@ == old(self)@.update(
                ptr_base + slot,
                pointers_pointer(target_word - (ptr_base + slot) - 1, count as int),
            ),
    {
        assert(self.words.len() == self@.len());
        self.set_list_ptr(ptr_base + slot, target_word, 6, count);
    }

    /// Points entry `index` of a pointer list to a text.
    pub fn set_list_text_entry(
        &mut self,
        list_base: usize,
        index: usize,
        target_word: usize,
        char_count: usize,
    )
        requires
            list_base + index < old(self)@.len(),
        ensures
            final(self)@ == old(self)@.update(
                list_base + index,
                bytes_pointer(target_word - (list_base + index) - 1, char_count as int),
            ),
    {
        self.set_text_ptr(list_base, index, target_word, char_count);
    }

    /// Frames the segment, with a root pointer to a struct.
    pub fn finish(self, root_word: usize, data_words: u16, ptr_count: u16) -> (out: Vec<u8>)
        requires
            self@.len() < usize::MAX,
        ensures
            out@ == framed(self@, root_word as int, data_words as int, ptr_count as int),
    {
        let seg_size: u64 = (1 + self.words.len()) as u64;
        let root = root_pointer(root_word, data_words, ptr_count);
        let size = (seg_size % 0x1_0000_0000) as u32;
        let mut out: Vec<u8> = Vec::new();
        words::put_le32(&mut out, 0);
        words::put_le32(&mut out, size);
        words::put_le64(&mut out, root);
        words::put_words(&mut out, self.words.as_slice());
        proof {
            lemma_from_empty(words::le32(0));
        }
        out
    }
}

} // verus!
