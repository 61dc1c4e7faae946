//! Base64: the texts that stand for bytes.

use vstd::prelude::*;
use crate::text;

verus! {

/// The variants of base64.
pub ghost enum Base64 {
    /// With `+` and `/`, filled up with `=`.
    Standard,
    /// With `-` and `_`, filled up with `=`.
    UrlSafe,
    /// With `-` and `_`, not filled up.
    UrlSafeNoPad,
}

/// The digit for six bits.
pub open spec fn digit(v: int, variant: Base64) -> char {
    if v < 26 {
        (65 + v) as char
    } else if v < 52 {
        (71 + v) as char
    } else if v < 62 {
        (v - 4) as char
    } else if v == 62 {
        if variant is Standard {
            '+'
        } else {
            '-'
        }
    } else {
        if variant is Standard {
            '/'
        } else {
            '_'
        }
    }
}

/// What fills a group of four up, where `n` digits are missing.
pub open spec fn filling(n: nat, variant: Base64) -> Seq<char> {
    if variant is UrlSafeNoPad {
        Seq::empty()
    } else {
        Seq::new(n, |i: int| '=')
    }
}

/// The text that stands for bytes: four digits for each three bytes.
pub open spec fn encoded(bytes: Seq<u8>, variant: Base64) -> Seq<char>
    decreases bytes.len(),
{
    if bytes.len() == 0 {
        Seq::empty()
    } else if bytes.len() == 1 {
        let a = bytes[0] as int;
        seq![digit(a / 4, variant), digit(a % 4 * 16, variant)] + filling(2, variant)
    } else if bytes.len() == 2 {
        let a = bytes[0] as int;
        let b = bytes[1] as int;
        seq![
            digit(a / 4, variant),
            digit(a % 4 * 16 + b / 16, variant),
            digit(b % 16 * 4, variant),
        ] + filling(1, variant)
    } else {
        let a = bytes[0] as int;
        let b = bytes[1] as int;
        let c = bytes[2] as int;
        seq![
            digit(a / 4, variant),
            digit(a % 4 * 16 + b / 16, variant),
            digit(b % 16 * 4 + c / 64, variant),
            digit(c % 64, variant),
        ] + encoded(bytes.skip(3), variant)
    }
}

/// The bytes that a text stands for, where there are any.
pub open spec fn decoded(text: Seq<char>, variant: Base64) -> Option<Seq<u8>> {
    if exists|bytes: Seq<u8>| #[trigger] encoded(bytes, variant) == text {
        Some(choose|bytes: Seq<u8>| #[trigger] encoded(bytes, variant) == text)
    } else {
        None
    }
}

/// Digits of different values differ, also between the variants, and none is
/// what fills a group up.
proof fn lemma_digit(v: int, one: Base64, w: int, other: Base64)
    requires
        0 <= v < 64,
        0 <= w < 64,
    ensures
        digit(v, one) == digit(w, other) ==> v == w,
        digit(v, one) != '=',
        !text::is_white_space(digit(v, one)),
{
}

/// No two byte strings have the same text, whatever the variants.
pub proof fn lemma_encoded_once(a: Seq<u8>, one: Base64, b: Seq<u8>, other: Base64)
    requires
        encoded(a, one) == encoded(b, other),
    ensures
        a == b,
    decreases a.len() + b.len(),
{
    let s = encoded(a, one);
    let t = encoded(b, other);
    if a.len() > 0 && b.len() > 0 {
        lemma_heads(a, one, b, other);
        if a.len() >= 3 {
            assert(s.skip(4) =~= encoded(a.skip(3), one));
            assert(t.skip(4) =~= encoded(b.skip(3), other));
            lemma_encoded_once(a.skip(3), one, b.skip(3), other);
            assert forall|i: int| 0 <= i < a.len() implies a[i] == b[i] by {
                if i >= 3 {
                    assert(a.skip(3)[i - 3] == b.skip(3)[i - 3]);
                }
            }
        }
        assert(a =~= b);
    } else {
        if a.len() > 0 {
            lemma_shape(a, one);
        }
        if b.len() > 0 {
            lemma_shape(b, other);
        }
        assert(a =~= b);
    }
}

/// Where the texts of two byte strings are the same, so are their first groups.
proof fn lemma_heads(a: Seq<u8>, one: Base64, b: Seq<u8>, other: Base64)
    requires
        encoded(a, one) == encoded(b, other),
        a.len() > 0,
        b.len() > 0,
    ensures
        a.len() >= 3 <==> b.len() >= 3,
        a.len() < 3 ==> a.len() == b.len(),
        forall|i: int| 0 <= i < 3 && i < a.len() ==> #[trigger] a[i] == b[i],
{
    let s = encoded(a, one);
    let t = encoded(b, other);
    lemma_shape(a, one);
    lemma_shape(b, other);
    assert(s[0] == t[0] && s[1] == t[1]);
    lemma_digit(sextet(a, 0), one, sextet(b, 0), other);
    lemma_digit(sextet(a, 1), one, sextet(b, 1), other);
    if a.len() >= 2 && b.len() >= 2 {
        lemma_digit(sextet(a, 2), one, sextet(b, 2), other);
    }
    if a.len() >= 3 && b.len() >= 3 {
        lemma_digit(sextet(a, 3), one, sextet(b, 3), other);
    }
    assert(a.len() >= 2 <==> b.len() >= 2);
}

/// The value of digit `i` in the first group.
spec fn sextet(bytes: Seq<u8>, i: int) -> int {
    let a = bytes[0] as int;
    let b = if bytes.len() > 1 {
        bytes[1] as int
    } else {
        0
    };
    let c = if bytes.len() > 2 {
        bytes[2] as int
    } else {
        0
    };
    if i == 0 {
        a / 4
    } else if i == 1 {
        a % 4 * 16 + b / 16
    } else if i == 2 {
        b % 16 * 4 + c / 64
    } else {
        c % 64
    }
}

/// Which characters are in the first group of a text.
proof fn lemma_shape(bytes: Seq<u8>, variant: Base64)
    requires
        bytes.len() > 0,
    ensures
        ({
            let t = encoded(bytes, variant);
            &&& forall|i: int| 0 <= i < 4 ==> 0 <= #[trigger] sextet(bytes, i) < 64
            &&& t.len() >= 2
            &&& t[0] == digit(sextet(bytes, 0), variant)
            &&& t[1] == digit(sextet(bytes, 1), variant)
            &&& bytes.len() == 1 ==> t.len() == 2 || (t.len() == 4 && t[2] == '=')
            &&& bytes.len() >= 2 ==> t.len() >= 3 && t[2] == digit(sextet(bytes, 2), variant)
                && t[2] != '='
            &&& bytes.len() == 2 ==> t.len() == 3 || (t.len() == 4 && t[3] == '=')
            &&& bytes.len() >= 3 ==> t.len() >= 4 && t[3] == digit(sextet(bytes, 3), variant)
                && t[3] != '='
        }),
{
    assert forall|i: int| 0 <= i < 4 implies 0 <= #[trigger] sextet(bytes, i) < 64 by {}
    lemma_digit(sextet(bytes, 2), variant, 0, variant);
    lemma_digit(sextet(bytes, 3), variant, 0, variant);
}

/// The text of bytes is read as these bytes.
pub proof fn lemma_decoded(bytes: Seq<u8>, variant: Base64)
    ensures
        decoded(encoded(bytes, variant), variant) == Some(bytes),
{
    let t = encoded(bytes, variant);
    let b = choose|b: Seq<u8>| #[trigger] encoded(b, variant) == t;
    assert(encoded(b, variant) == t);
    lemma_encoded_once(b, variant, bytes, variant);
}

/// A text that is that of bytes in one variant is no other bytes' in another.
pub proof fn lemma_no_other(bytes: Seq<u8>, variant: Base64, other: Base64)
    ensures
        decoded(encoded(bytes, variant), other) matches Some(b) ==> b == bytes,
{
    let t = encoded(bytes, variant);
    if exists|b: Seq<u8>| #[trigger] encoded(b, other) == t {
        let b = choose|b: Seq<u8>| #[trigger] encoded(b, other) == t;
        lemma_encoded_once(b, other, bytes, variant);
    }
}

/// There is no white space in a text that stands for bytes.
pub proof fn lemma_no_white_space(bytes: Seq<u8>, variant: Base64)
    ensures
        forall|i: int|
            0 <= i < encoded(bytes, variant).len() ==> !text::is_white_space(
                #[trigger] encoded(bytes, variant)[i],
            ),
    decreases bytes.len(),
{
    if bytes.len() > 0 {
        let t = encoded(bytes, variant);
        lemma_shape(bytes, variant);
        lemma_digit(sextet(bytes, 0), variant, 0, variant);
        lemma_digit(sextet(bytes, 1), variant, 0, variant);
        lemma_digit(sextet(bytes, 2), variant, 0, variant);
        lemma_digit(sextet(bytes, 3), variant, 0, variant);
        if bytes.len() >= 3 {
            lemma_no_white_space(bytes.skip(3), variant);
            assert forall|i: int| 0 <= i < t.len() implies !text::is_white_space(
                #[trigger] t[i],
            ) by {
                if i >= 4 {
                    assert(t[i] == encoded(bytes.skip(3), variant)[i - 4]);
                }
            }
        }
    }
}

} // verus!
