//! Texts: building them piece by piece and looking at their characters.

use vstd::prelude::*;
use vstd::string::*;

verus! {

/// The characters that Unicode counts as white space.
pub open spec fn is_white_space(c: char) -> bool {
    ||| '\u{9}' <= c <= '\u{d}'
    ||| c == ' '
    ||| c == '\u{85}'
    ||| c == '\u{a0}'
    ||| c == '\u{1680}'
    ||| '\u{2000}' <= c <= '\u{200a}'
    ||| c == '\u{2028}'
    ||| c == '\u{2029}'
    ||| c == '\u{202f}'
    ||| c == '\u{205f}'
    ||| c == '\u{3000}'
}

/// The text without the white space at its start.
pub open spec fn trimmed_start(s: Seq<char>) -> Seq<char>
    decreases s.len(),
{
    if s.len() > 0 && is_white_space(s[0]) {
        trimmed_start(s.drop_first())
    } else {
        s
    }
}

/// The text without the white space at its end.
pub open spec fn trimmed_end(s: Seq<char>) -> Seq<char>
    decreases s.len(),
{
    if s.len() > 0 && is_white_space(s.last()) {
        trimmed_end(s.drop_last())
    } else {
        s
    }
}

/// The text without the white space around it.
pub open spec fn trimmed(s: Seq<char>) -> Seq<char> {
    trimmed_end(trimmed_start(s))
}

/// Whether a text is white space only.
pub open spec fn all_white_space(s: Seq<char>) -> bool {
    forall|i: int| 0 <= i < s.len() ==> is_white_space(#[trigger] s[i])
}

/// White space in front is taken off.
proof fn lemma_trimmed_start(before: Seq<char>, s: Seq<char>)
    requires
        all_white_space(before),
    ensures
        trimmed_start(before + s) == trimmed_start(s),
    decreases before.len(),
{
    if before.len() == 0 {
        assert(before + s =~= s);
    } else {
        let rest = before.drop_first();
        assert((before + s).drop_first() =~= rest + s);
        assert((before + s)[0] == before[0]);
        assert forall|i: int| 0 <= i < rest.len() implies is_white_space(#[trigger] rest[i]) by {
            assert(rest[i] == before[i + 1]);
        }
        lemma_trimmed_start(rest, s);
    }
}

/// White space behind is taken off.
proof fn lemma_trimmed_end(s: Seq<char>, behind: Seq<char>)
    requires
        all_white_space(behind),
    ensures
        trimmed_end(s + behind) == trimmed_end(s),
    decreases behind.len(),
{
    if behind.len() == 0 {
        assert(s + behind =~= s);
    } else {
        let rest = behind.drop_last();
        assert((s + behind).drop_last() =~= s + rest);
        assert((s + behind).last() == behind[behind.len() - 1]);
        assert forall|i: int| 0 <= i < rest.len() implies is_white_space(#[trigger] rest[i]) by {
            assert(rest[i] == behind[i]);
        }
        lemma_trimmed_end(s, rest);
    }
}

/// What stands behind a text that is not white space only stays when the front
/// is trimmed.
proof fn lemma_trimmed_start_stops(s: Seq<char>, behind: Seq<char>)
    requires
        !all_white_space(s),
    ensures
        trimmed_start(s + behind) == trimmed_start(s) + behind,
    decreases s.len(),
{
    assert((s + behind)[0] == s[0]);
    if is_white_space(s[0]) {
        let rest = s.drop_first();
        assert((s + behind).drop_first() =~= rest + behind);
        if all_white_space(rest) {
            assert forall|i: int| 0 <= i < s.len() implies is_white_space(#[trigger] s[i]) by {
                if i > 0 {
                    assert(s[i] == rest[i - 1]);
                }
            }
        }
        lemma_trimmed_start_stops(rest, behind);
    }
}

/// White space around a text is taken off, whatever the text.
pub proof fn lemma_trimmed(before: Seq<char>, s: Seq<char>, behind: Seq<char>)
    requires
        all_white_space(before),
        all_white_space(behind),
    ensures
        trimmed(before + s + behind) == trimmed(s),
{
    assert(before + s + behind =~= before + (s + behind));
    lemma_trimmed_start(before, s + behind);
    if all_white_space(s) {
        lemma_trimmed_start(s, behind);
        lemma_trimmed_start(s, Seq::empty());
        lemma_trimmed_start(behind, Seq::empty());
        assert(s + Seq::<char>::empty() =~= s);
        assert(behind + Seq::<char>::empty() =~= behind);
    } else {
        lemma_trimmed_start_stops(s, behind);
        lemma_trimmed_end(trimmed_start(s), behind);
    }
}

/// A text without white space stays as it is.
pub proof fn lemma_nothing_trimmed(s: Seq<char>)
    requires
        forall|i: int| 0 <= i < s.len() ==> !is_white_space(#[trigger] s[i]),
    ensures
        trimmed(s) == s,
{
    if s.len() > 0 {
        assert(!is_white_space(s[0]));
        assert(!is_white_space(s[s.len() - 1]));
    }
}

/// Calls `str::trim` of std, which takes off the white space at both ends.
#[verifier::external_body]
pub(crate) fn trim(s: &str) -> (r: &str)
    ensures
        r@ == trimmed(s@),
{
    s.trim()
}

/// What `str::to_lowercase` makes of a text.
pub uninterp spec fn lowercase(s: Seq<char>) -> Seq<char>;

/// The lower case of an ASCII letter; any other character as it is.
pub open spec fn ascii_lower(c: char) -> char {
    if 'A' <= c <= 'Z' {
        (c as int + 32) as char
    } else {
        c
    }
}

/// Calls `str::to_lowercase` of std, which maps a text to its Unicode lower
/// case. Of ASCII texts the result is stated: each letter by itself.
#[verifier::external_body]
pub(crate) fn to_lowercase(s: &str) -> (r: String)
    ensures
        r@ == lowercase(s@),
        vstd::utf8::is_ascii_chars(s@) ==> r@ == s@.map_values(|c: char| ascii_lower(c)),
{
    s.to_lowercase()
}

/// What `String::from_utf8_lossy` makes of bytes.
pub uninterp spec fn lossy_text(bytes: Seq<u8>) -> Seq<char>;

/// Calls `String::from_utf8_lossy` of std, which decodes UTF-8 and puts a
/// replacement character where the bytes are none.
#[verifier::external_body]
pub(crate) fn from_utf8_lossy(bytes: &[u8]) -> (r: String)
    ensures
        r@ == lossy_text(bytes@),
        vstd::utf8::valid_utf8(bytes@) ==> r@ == vstd::utf8::decode_utf8(bytes@),
{
    String::from_utf8_lossy(bytes).to_string()
}

/// Calls `String::from_utf8` of std, which decodes UTF-8; `None` where the bytes
/// are none.
#[verifier::external_body]
pub(crate) fn from_utf8(bytes: Vec<u8>) -> (r: Option<String>)
    ensures
        r is Some <==> vstd::utf8::valid_utf8(bytes@),
        r matches Some(t) ==> t@ == vstd::utf8::decode_utf8(bytes@),
{
    String::from_utf8(bytes).ok()
}

/// The characters of ASCII bytes.
pub open spec fn ascii_chars(bytes: Seq<u8>) -> Seq<char> {
    Seq::new(bytes.len(), |i: int| bytes[i] as char)
}

/// ASCII bytes are the UTF-8 of their characters.
pub proof fn lemma_ascii(bytes: Seq<u8>)
    requires
        forall|i: int| 0 <= i < bytes.len() ==> #[trigger] bytes[i] < 128,
    ensures
        vstd::utf8::encode_utf8(ascii_chars(bytes)) == bytes,
        vstd::utf8::valid_utf8(bytes),
        vstd::utf8::decode_utf8(bytes) == ascii_chars(bytes),
{
    let chars = ascii_chars(bytes);
    assert(vstd::utf8::is_ascii_chars(chars));
    vstd::utf8::is_ascii_chars_encode_utf8(chars);
    assert(vstd::utf8::encode_utf8(chars) =~= bytes);
    vstd::utf8::encode_utf8_valid_utf8(chars);
    vstd::utf8::encode_utf8_decode_utf8(chars);
}

/// Makes a text of ASCII bytes.
pub fn ascii_text(bytes: &[u8]) -> (r: String)
    requires
        forall|i: int| 0 <= i < bytes@.len() ==> #[trigger] bytes@[i] < 128,
    ensures
        r@ == ascii_chars(bytes@),
{
    proof {
        lemma_ascii(bytes@);
    }
    from_utf8_lossy(bytes)
}

/// The characters of `s`.
pub fn chars_of(s: &str) -> (v: Vec<char>)
    ensures
        v@ == s@,
{
    let mut v: Vec<char> = Vec::new();
    for c in it: s.chars()
        invariant
            v@ == s@.take(it.index() as int),
            it.seq() == s@,
    {
        v.push(c);
        assert(v@ =~= s@.take(it.index() + 1));
    }
    assert(v@ =~= s@);
    v
}

/// A decimal digit.
pub open spec fn digit(d: nat) -> char {
    (48 + d) as char
}

/// The decimal digits of `n`, without leading zeros.
pub open spec fn decimal(n: nat) -> Seq<char>
    decreases n,
{
    if n < 10 {
        seq![digit(n)]
    } else {
        decimal(n / 10).push(digit(n % 10))
    }
}

/// The decimal digits of `n` as bytes, behind `out`.
fn push_digits(out: &mut Vec<u8>, n: u64)
    requires
        forall|i: int| 0 <= i < old(out)@.len() ==> #[trigger] old(out)@[i] < 128,
    ensures
        forall|i: int| 0 <= i < final(out)@.len() ==> #[trigger] final(out)@[i] < 128,
        ascii_chars(final(out)@) == ascii_chars(old(out)@) + decimal(n as nat),
    decreases n,
{
    if n >= 10 {
        push_digits(out, n / 10);
    }
    let ghost before = out@;
    let b = 48 + (n % 10) as u8;
    out.push(b);
    assert(ascii_chars(out@) =~= ascii_chars(before).push(digit(n as nat % 10)));
    assert(ascii_chars(out@) =~= ascii_chars(old(out)@) + decimal(n as nat));
}

/// Writes `n` in decimal.
pub fn decimal_text(n: u64) -> (r: String)
    ensures
        r@ == decimal(n as nat),
{
    let mut out: Vec<u8> = Vec::new();
    push_digits(&mut out, n);
    assert(ascii_chars(Seq::<u8>::empty()) + decimal(n as nat) =~= decimal(n as nat));
    ascii_text(out.as_slice())
}

/// Whether `s` starts with `prefix`.
pub open spec fn starts(s: Seq<char>, prefix: Seq<char>) -> bool {
    prefix.len() <= s.len() && s.take(prefix.len() as int) == prefix
}

/// Whether `s` ends with `suffix`.
pub open spec fn ends(s: Seq<char>, suffix: Seq<char>) -> bool {
    suffix.len() <= s.len() && s.skip(s.len() - suffix.len()) == suffix
}

/// Whether the characters of `s` from `at` on start with those of `part` from
/// `from` on.
fn chars_match(s: &Vec<char>, at: usize, part: &Vec<char>, from: usize) -> (r: bool)
    requires
        from <= part@.len(),
        at + (part@.len() - from) <= s@.len(),
    ensures
        r == (s@.subrange(at as int, at + (part@.len() - from)) == part@.skip(from as int)),
{
    let n = part.len() - from;
    let mut i: usize = 0;
    while i < n
        invariant
            i <= n,
            n == part@.len() - from,
            from <= part@.len(),
            at + n <= s@.len(),
            forall|k: int| 0 <= k < i ==> s@[at + k] == #[trigger] part@[from + k],
        decreases n - i,
    {
        assert(at + i < s.len() && from + i < part.len());
        if s[at + i] != part[from + i] {
            proof {
                let a = s@.subrange(at as int, at + n);
                let b = part@.skip(from as int);
                assert(a[i as int] != b[i as int]);
            }
            return false;
        }
        i = i + 1;
    }
    assert(s@.subrange(at as int, at + n) =~= part@.skip(from as int)) by {
        assert forall|k: int| 0 <= k < n implies s@.subrange(at as int, at + n)[k] == part@.skip(
            from as int,
        )[k] by {
            assert(s@[at + k] == part@[from + k]);
        }
    }
    true
}

/// Tells whether `s` starts with `prefix`.
pub fn starts_with(s: &str, prefix: &str) -> (r: bool)
    ensures
        r == starts(s@, prefix@),
{
    let a = chars_of(s);
    let b = chars_of(prefix);
    assert(prefix@.skip(0) =~= prefix@);
    b.len() <= a.len() && chars_match(&a, 0, &b, 0)
}

/// Tells whether `s` ends with `suffix` without its first `from` characters.
pub fn ends_with_rest(s: &str, suffix: &str, from: usize) -> (r: bool)
    requires
        from <= suffix@.len(),
    ensures
        r == ends(s@, suffix@.skip(from as int)),
{
    let a = chars_of(s);
    let b = chars_of(suffix);
    let n = b.len() - from;
    if n > a.len() {
        return false;
    }
    assert(s@.subrange(s@.len() - n, s@.len() as int) =~= s@.skip(s@.len() - n));
    chars_match(&a, a.len() - n, &b, from)
}

/// Tells whether two texts are equal.
pub fn same_text(a: &str, b: &str) -> (r: bool)
    ensures
        r == (a@ == b@),
{
    let a = chars_of(a);
    let b = chars_of(b);
    assert(b@.skip(0) =~= b@);
    assert(a@.subrange(0, a@.len() as int) =~= a@);
    a.len() == b.len() && chars_match(&a, 0, &b, 0)
}

/// A lower-case hexadecimal digit.
pub open spec fn hex_digit(d: int) -> char {
    if d < 10 {
        (48 + d) as char
    } else {
        (87 + d) as char
    }
}

/// The two hexadecimal digits of a byte.
pub open spec fn hex_byte(b: u8) -> Seq<char> {
    seq![hex_digit(b as int / 16), hex_digit(b as int % 16)]
}

/// Writes a byte as two hexadecimal digits.
pub fn hex_byte_text(b: u8) -> (r: String)
    ensures
        r@ == hex_byte(b),
{
    let hi = b / 16;
    let lo = b % 16;
    let mut out: Vec<u8> = Vec::new();
    out.push(if hi < 10 { 48 + hi } else { 87 + hi });
    out.push(if lo < 10 { 48 + lo } else { 87 + lo });
    let r = ascii_text(out.as_slice());
    assert(r@ =~= hex_byte(b));
    r
}

} // verus!
