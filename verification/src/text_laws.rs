//! What holds of texts, character by character.

use vstd::prelude::*;
use crate::config;
use crate::text;

verus! {

/// A text starts with another where each character of the other stands at the
/// same place in it.
pub proof fn law_starts(s: Seq<char>, prefix: Seq<char>)
    ensures
        text::starts(s, prefix) <==> prefix.len() <= s.len() && forall|i: int|
            0 <= i < prefix.len() ==> s[i] == #[trigger] prefix[i],
{
    if prefix.len() <= s.len() {
        let front = s.take(prefix.len() as int);
        if text::starts(s, prefix) {
            assert forall|i: int| 0 <= i < prefix.len() implies s[i] == #[trigger] prefix[i] by {
                assert(front[i] == prefix[i]);
            }
        }
        if forall|i: int| 0 <= i < prefix.len() ==> s[i] == #[trigger] prefix[i] {
            assert(front =~= prefix);
        }
    }
}

/// A text ends with another where each character of the other stands in it, as
/// far from the end.
pub proof fn law_ends(s: Seq<char>, suffix: Seq<char>)
    ensures
        text::ends(s, suffix) <==> suffix.len() <= s.len() && forall|i: int|
            0 <= i < suffix.len() ==> s[s.len() - suffix.len() + i] == #[trigger] suffix[i],
{
    if suffix.len() <= s.len() {
        let back = s.skip(s.len() - suffix.len());
        if text::ends(s, suffix) {
            assert forall|i: int| 0 <= i < suffix.len() implies s[s.len() - suffix.len() + i]
                == #[trigger] suffix[i] by {
                assert(back[i] == suffix[i]);
            }
        }
        if forall|i: int|
            0 <= i < suffix.len() ==> s[s.len() - suffix.len() + i] == #[trigger] suffix[i] {
            assert(back =~= suffix);
        }
    }
}

/// A number is written digit by digit: one below ten as its digit, and ten times
/// a number and a digit as that number with the digit behind it.
pub proof fn law_decimal(n: nat, d: nat)
    requires
        d < 10,
    ensures
        text::decimal(d) == seq![(48 + d) as char],
        n > 0 ==> text::decimal(10 * n + d) == text::decimal(n).push((48 + d) as char),
{
    if n > 0 {
        assert((10 * n + d) / 10 == n);
        assert((10 * n + d) % 10 == d);
    }
}

/// The characters of ASCII bytes have their numbers.
pub proof fn law_ascii_chars(bytes: Seq<u8>)
    ensures
        text::ascii_chars(bytes).len() == bytes.len(),
        forall|i: int|
            0 <= i < bytes.len() ==> (#[trigger] text::ascii_chars(bytes)[i]) as int == bytes[i],
{
}

/// A byte is written as two digits of `0` to `9` and `a` to `f`, the higher
/// first.
pub proof fn law_hex_byte(high: u8, low: u8)
    requires
        high < 16,
        low < 16,
    ensures
        text::hex_byte((16 * high + low) as u8) == seq![
            "0123456789abcdef"@[high as int],
            "0123456789abcdef"@[low as int],
        ],
{
    reveal_strlit("0123456789abcdef");
    let b = (16 * high + low) as u8;
    assert(b as int / 16 == high && b as int % 16 == low);
    assert(text::hex_byte(b) =~= seq![
        "0123456789abcdef"@[high as int],
        "0123456789abcdef"@[low as int],
    ]);
}

/// Trimming cuts white space off both ends and nothing else: what is left is a
/// stretch of the text with white space only around it, and neither starts nor
/// ends with white space.
pub proof fn law_trimmed(s: Seq<char>)
    ensures
        ({
            let t = text::trimmed(s);
            &&& t.len() > 0 ==> !text::is_white_space(t[0]) && !text::is_white_space(t.last())
            &&& exists|a: int, b: int|
                0 <= a <= b <= s.len() && t == #[trigger] s.subrange(a, b) && (forall|i: int|
                    0 <= i < a ==> text::is_white_space(#[trigger] s[i])) && (forall|i: int|
                    b <= i < s.len() ==> text::is_white_space(#[trigger] s[i]))
        }),
{
    let a = lemma_start(s);
    let rest = text::trimmed_start(s);
    let n = lemma_end(rest);
    let t = text::trimmed(s);
    assert(t =~= s.subrange(a, a + n));
    assert forall|i: int| a + n <= i < s.len() implies text::is_white_space(#[trigger] s[i]) by {
        assert(s[i] == rest[i - a]);
    }
    if t.len() > 0 {
        assert(t[0] == rest[0]);
    }
}

/// What trimming leaves of a start.
proof fn lemma_start(s: Seq<char>) -> (a: int)
    ensures
        0 <= a <= s.len(),
        text::trimmed_start(s) == s.skip(a),
        forall|i: int| 0 <= i < a ==> text::is_white_space(#[trigger] s[i]),
        a < s.len() ==> !text::is_white_space(s[a]),
    decreases s.len(),
{
    if s.len() > 0 && text::is_white_space(s[0]) {
        let rest = s.drop_first();
        let b = lemma_start(rest);
        assert(rest.skip(b) =~= s.skip(b + 1));
        assert forall|i: int| 0 <= i < b + 1 implies text::is_white_space(#[trigger] s[i]) by {
            if i > 0 {
                assert(s[i] == rest[i - 1]);
            }
        }
        b + 1
    } else {
        assert(s.skip(0) =~= s);
        0
    }
}

/// What trimming leaves of an end.
proof fn lemma_end(s: Seq<char>) -> (n: int)
    ensures
        0 <= n <= s.len(),
        text::trimmed_end(s) == s.take(n),
        forall|i: int| n <= i < s.len() ==> text::is_white_space(#[trigger] s[i]),
        n > 0 ==> !text::is_white_space(s[n - 1]),
    decreases s.len(),
{
    if s.len() > 0 && text::is_white_space(s.last()) {
        let rest = s.drop_last();
        let n = lemma_end(rest);
        assert(rest.take(n) =~= s.take(n));
        assert forall|i: int| n <= i < s.len() implies text::is_white_space(#[trigger] s[i]) by {
            if i < rest.len() {
                assert(s[i] == rest[i]);
            }
        }
        n
    } else {
        assert(s.take(s.len() as int) =~= s);
        s.len() as int
    }
}

/// The lower case of an ASCII text differs from it in the letters `A` to `Z`
/// only, which become `a` to `z`.
pub proof fn law_ascii_lowercase(s: Seq<char>)
    ensures
        config::ascii_lowercase(s).len() == s.len(),
        forall|i: int|
            0 <= i < s.len() ==> (#[trigger] config::ascii_lowercase(s)[i]) as int == (if 'A'
                <= s[i] <= 'Z' {
                s[i] as int + 32
            } else {
                s[i] as int
            }),
{
}

} // verus!
