//! The layout of the registration parameters in a segment.

use vstd::prelude::*;
use crate::segment;
use crate::words;

verus! {

/// The values of the registration parameters, texts as their UTF-8 bytes.
pub struct RegisterFields {
    pub account_tag: Seq<u8>,
    pub tunnel_secret: Seq<u8>,
    pub tunnel_id: Seq<u8>,
    pub conn_index: u8,
    pub client_id: Seq<u8>,
    pub version: Seq<u8>,
    pub arch: Seq<u8>,
    pub features: Seq<Seq<u8>>,
}

/// A text in whole words, with at least one NUL behind it.
pub open spec fn text_words(text: Seq<u8>) -> Seq<u64> {
    words::packed(text, segment::text_size(text.len() as int) as nat)
}

/// Bytes in whole words.
pub open spec fn data_words(data: Seq<u8>) -> Seq<u64> {
    words::packed(data, segment::data_size(data.len() as int) as nat)
}

/// Texts one after the other.
pub open spec fn texts_words(texts: Seq<Seq<u8>>) -> Seq<u64>
    decreases texts.len(),
{
    if texts.len() == 0 {
        Seq::empty()
    } else {
        texts_words(texts.drop_last()) + text_words(texts.last())
    }
}

/// The word of text `i` among `texts`, counted from the first.
pub open spec fn text_place(texts: Seq<Seq<u8>>, i: int) -> int {
    texts_words(texts.take(i)).len() as int
}

impl RegisterFields {
    /// The word of the account tag: behind the four structs.
    pub open spec fn account_tag_at(self) -> int {
        13
    }

    /// The word of the tunnel secret.
    pub open spec fn tunnel_secret_at(self) -> int {
        self.account_tag_at() + segment::text_size(self.account_tag.len() as int)
    }

    /// The word of the tunnel's id.
    pub open spec fn tunnel_id_at(self) -> int {
        self.tunnel_secret_at() + segment::data_size(self.tunnel_secret.len() as int)
    }

    /// The word of the client's id.
    pub open spec fn client_id_at(self) -> int {
        self.tunnel_id_at() + segment::data_size(self.tunnel_id.len() as int)
    }

    /// The word of the version.
    pub open spec fn version_at(self) -> int {
        self.client_id_at() + segment::data_size(self.client_id.len() as int)
    }

    /// The word of the architecture.
    pub open spec fn arch_at(self) -> int {
        self.version_at() + segment::text_size(self.version.len() as int)
    }

    /// The word of the first feature.
    pub open spec fn features_at(self) -> int {
        self.arch_at() + segment::text_size(self.arch.len() as int)
    }

    /// The word of feature `i`.
    pub open spec fn feature_at(self, i: int) -> int {
        self.features_at() + text_place(self.features, i)
    }

    /// The word of the list of features.
    pub open spec fn feature_list_at(self) -> int {
        self.features_at() + texts_words(self.features).len()
    }

    /// The words of the list of features; one where there are none.
    pub open spec fn feature_list_size(self) -> nat {
        if self.features.len() == 0 {
            1
        } else {
            self.features.len()
        }
    }

    /// The words of the four structs: parameters, auth, options, client.
    pub open spec fn structs(self) -> Seq<u64> {
        seq![
            self.conn_index as u64,
            segment::struct_pointer(2, 0, 2),
            segment::bytes_pointer(self.tunnel_id_at() - 3, self.tunnel_id.len() as int),
            segment::struct_pointer(2, 1, 2),
            segment::bytes_pointer(self.account_tag_at() - 5, self.account_tag.len() + 1int),
            segment::bytes_pointer(self.tunnel_secret_at() - 6, self.tunnel_secret.len() as int),
            0,
            segment::struct_pointer(1, 0, 4),
            0,
            segment::bytes_pointer(self.client_id_at() - 10, self.client_id.len() as int),
            segment::pointers_pointer(self.feature_list_at() - 11, self.features.len() as int),
            segment::bytes_pointer(self.version_at() - 12, self.version.len() + 1int),
            segment::bytes_pointer(self.arch_at() - 13, self.arch.len() + 1int),
        ]
    }

    /// The words of the texts and byte strings.
    pub open spec fn blobs(self) -> Seq<u64> {
        text_words(self.account_tag) + data_words(self.tunnel_secret) + data_words(self.tunnel_id)
            + data_words(self.client_id) + text_words(self.version) + text_words(self.arch)
            + texts_words(self.features)
    }

    /// The first `n` pointers of the list of features, and zeros behind them.
    pub open spec fn feature_list(self, n: int) -> Seq<u64> {
        Seq::new(
            self.feature_list_size(),
            |i: int|
                if i < n {
                    segment::bytes_pointer(
                        self.feature_at(i) - (self.feature_list_at() + i) - 1,
                        self.features[i].len() + 1int,
                    )
                } else {
                    0
                },
        )
    }

    /// The words of the parameters, from their struct on.
    pub open spec fn words(self) -> Seq<u64> {
        self.structs() + self.blobs() + self.feature_list(self.features.len() as int)
    }

    /// How many words the parameters take.
    pub open spec fn size(self) -> int {
        self.feature_list_at() + self.feature_list_size()
    }

    /// The words of the parameters are as many as the layout says.
    pub proof fn lemma_size(self)
        ensures
            self.words().len() == self.size(),
            self.blobs().len() == self.feature_list_at() - 13,
    {
    }
}

/// How runs of words are grouped does not matter.
pub proof fn lemma_concat(
    h: Seq<u64>,
    a: Seq<u64>,
    b: Seq<u64>,
    c: Seq<u64>,
    d: Seq<u64>,
    e: Seq<u64>,
    f: Seq<u64>,
    g: Seq<u64>,
    l: Seq<u64>,
)
    ensures
        h + a + b + c + d + e + f + g + l == h + (a + b + c + d + e + f + g) + l,
{
    assert(h + a + b + c + d + e + f + g =~= h + (a + b + c + d + e + f + g));
}

/// One text more takes its words more.
pub proof fn lemma_texts_step(texts: Seq<Seq<u8>>, i: int)
    requires
        0 <= i < texts.len(),
    ensures
        texts_words(texts.take(i + 1)) == texts_words(texts.take(i)) + text_words(texts[i]),
        text_place(texts, i + 1) == text_place(texts, i) + segment::text_size(
            texts[i].len() as int,
        ),
{
    assert(texts.take(i + 1).drop_last() =~= texts.take(i));
}

/// A text stands before the end of all texts.
pub proof fn lemma_text_place_bound(texts: Seq<Seq<u8>>, i: int)
    requires
        0 <= i <= texts.len(),
    ensures
        0 <= text_place(texts, i) <= texts_words(texts).len(),
    decreases texts.len() - i,
{
    if i == texts.len() {
        assert(texts.take(i) =~= texts);
    } else {
        lemma_texts_step(texts, i);
        lemma_text_place_bound(texts, i + 1);
    }
}

} // verus!
