//! The parameters of `registerConnection` in Cap'n Proto: which value stands
//! in which slot of which struct.
//!
//! ```text
//! registerConnection @0 (
//!   auth      @0 :TunnelAuth,        # pointer 0
//!   tunnelId  @1 :Data,              # pointer 1
//!   connIndex @2 :UInt8,             # data byte 0
//!   options   @3 :ConnectionOptions  # pointer 2
//! )
//!
//! struct TunnelAuth {
//!   accountTag   @0 :Text            # pointer 0
//!   tunnelSecret @1 :Data            # pointer 1
//! }
//!
//! struct ConnectionOptions {
//!   client              @0 :ClientInfo  # pointer 0
//!   originLocalIp       @1 :Data        # pointer 1, left null
//!   numPreviousAttempts @4 :UInt8       # data byte 4
//! }
//!
//! struct ClientInfo {
//!   clientId @0 :Data                # pointer 0
//!   features @1 :List(Text)          # pointer 1
//!   version  @2 :Text                # pointer 2
//!   arch     @3 :Text                # pointer 3
//! }
//! ```

use vstd::prelude::*;
use vstd::string::*;

verus! {

/// A struct: the bytes of its data section, and its pointers.
#[derive(Debug)]
pub struct StructValue {
    pub data: Vec<u8>,
    pub pointers: Vec<PointerValue>,
}

/// What a pointer points to.
#[derive(Debug)]
pub enum PointerValue {
    Null,
    Text(String),
    Data(Vec<u8>),
    Texts(Vec<String>),
    Struct(StructValue),
}

impl PointerValue {
    /// Whether this is a text.
    pub open spec fn is_text(self, t: Seq<char>) -> bool {
        self matches PointerValue::Text(s) && s@ == t
    }

    /// Whether these are bytes.
    pub open spec fn is_data(self, d: Seq<u8>) -> bool {
        self matches PointerValue::Data(v) && v@ == d
    }

    /// Whether this is a list of texts.
    pub open spec fn is_texts(self, list: Seq<&str>) -> bool {
        self matches PointerValue::Texts(v) && v@.len() == list.len() && forall|i: int|
            0 <= i < list.len() ==> (#[trigger] v@[i])@ == list[i]@
    }

    /// Whether this is the struct `TunnelAuth` with these fields.
    pub open spec fn is_auth(self, account_tag: Seq<char>, tunnel_secret: Seq<u8>) -> bool {
        &&& self matches PointerValue::Struct(s)
        &&& s.data@ == Seq::<u8>::empty()
        &&& s.pointers@.len() == 2
        &&& s.pointers@[0].is_text(account_tag)
        &&& s.pointers@[1].is_data(tunnel_secret)
    }

    /// Whether this is the struct `ClientInfo` with these fields.
    pub open spec fn is_client(
        self,
        client_id: Seq<u8>,
        features: Seq<&str>,
        version: Seq<char>,
        arch: Seq<char>,
    ) -> bool {
        &&& self matches PointerValue::Struct(s)
        &&& s.data@ == Seq::<u8>::empty()
        &&& s.pointers@.len() == 4
        &&& s.pointers@[0].is_data(client_id)
        &&& s.pointers@[1].is_texts(features)
        &&& s.pointers@[2].is_text(version)
        &&& s.pointers@[3].is_text(arch)
    }

    /// Whether this is the struct `ConnectionOptions` for a client without
    /// previous attempts.
    pub open spec fn is_options(
        self,
        client_id: Seq<u8>,
        features: Seq<&str>,
        version: Seq<char>,
        arch: Seq<char>,
    ) -> bool {
        &&& self matches PointerValue::Struct(s)
        &&& s.data@ == seq![0u8, 0, 0, 0, 0, 0, 0, 0]
        &&& s.pointers@.len() == 2
        &&& s.pointers@[0].is_client(client_id, features, version, arch)
        &&& s.pointers@[1] is Null
    }
}

/// Copies bytes.
fn copied(bytes: &[u8]) -> (r: PointerValue)
    ensures
        r.is_data(bytes@),
{
    let mut v: Vec<u8> = Vec::new();
    v.extend_from_slice(bytes);
    assert(v@ =~= bytes@);
    PointerValue::Data(v)
}

/// Copies texts.
fn copied_texts(texts: &[&str]) -> (r: PointerValue)
    ensures
        r.is_texts(texts@),
{
    let n = texts.len();
    let mut v: Vec<String> = Vec::new();
    let mut i: usize = 0;
    while i < n
        invariant
            i <= n,
            n == texts@.len(),
            v@.len() == i,
            forall|k: int| 0 <= k < i ==> (#[trigger] v@[k])@ == texts@[k]@,
        decreases n - i,
    {
        v.push(texts[i].to_string());
        i = i + 1;
    }
    PointerValue::Texts(v)
}

/// A data section of one word: `value` in byte `at`, and zeros.
fn word_with(at: usize, value: u8) -> (v: Vec<u8>)
    requires
        at < 8,
    ensures
        v@ == seq![0u8, 0, 0, 0, 0, 0, 0, 0].update(at as int, value),
{
    let mut v: Vec<u8> = Vec::new();
    let mut i: usize = 0;
    while i < 8
        invariant
            i <= 8,
            v@ =~= seq![0u8, 0, 0, 0, 0, 0, 0, 0].take(i as int),
        decreases 8 - i,
    {
        v.push(0);
        i = i + 1;
    }
    v.set(at, value);
    assert(v@ =~= seq![0u8, 0, 0, 0, 0, 0, 0, 0].update(at as int, value));
    v
}

/// Lays out the parameters of `registerConnection`.
pub fn fill_register_connection(
    account_tag: &str,
    tunnel_secret: &[u8],
    tunnel_id: &[u8; 16],
    conn_index: u8,
    client_id: &[u8; 16],
    version: &str,
    arch: &str,
    features: &[&str],
) -> (p: StructValue)
    ensures
        p.data@ == seq![conn_index, 0, 0, 0, 0, 0, 0, 0],
        p.pointers@.len() == 3,
        p.pointers@[0].is_auth(account_tag@, tunnel_secret@),
        p.pointers@[1].is_data(tunnel_id@),
        p.pointers@[2].is_options(client_id@, features@, version@, arch@),
{
    let data = word_with(0, conn_index);

    let mut auth: Vec<PointerValue> = Vec::new();
    auth.push(PointerValue::Text(account_tag.to_string()));
    auth.push(copied(tunnel_secret));

    let mut client: Vec<PointerValue> = Vec::new();
    client.push(copied(client_id.as_slice()));
    client.push(copied_texts(features));
    client.push(PointerValue::Text(version.to_string()));
    client.push(PointerValue::Text(arch.to_string()));

    let mut options: Vec<PointerValue> = Vec::new();
    options.push(PointerValue::Struct(StructValue { data: Vec::new(), pointers: client }));
    options.push(PointerValue::Null);

    let mut pointers: Vec<PointerValue> = Vec::new();
    pointers.push(PointerValue::Struct(StructValue { data: Vec::new(), pointers: auth }));
    pointers.push(copied(tunnel_id.as_slice()));
    let options_data = word_with(4, 0);
    assert(options_data@ =~= seq![0u8, 0, 0, 0, 0, 0, 0, 0]);
    pointers.push(PointerValue::Struct(StructValue { data: options_data, pointers: options }));
    StructValue { data, pointers }
}

} // verus!
