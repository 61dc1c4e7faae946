//! The registration of a connection in JSON.

use vstd::prelude::*;
use vstd::string::*;
use crate::text;

verus! {

/// The version that a client gives itself.
pub const CLIENT_VERSION: &'static str = "2024.11.1";

/// The feature of a client that has several connections.
pub const FEATURE_HA_ORIGIN: &'static str = "ha-origin";

/// The feature of a client that sends the headers of an answer in one.
pub const FEATURE_SERIALIZED_HEADERS: &'static str = "serialized-headers";

/// Who opens a connection.
#[derive(Debug, Clone)]
pub struct ClientInfo {
    pub client_id: String,
    pub features: Vec<String>,
    pub version: String,
    pub arch: String,
}

/// What a client asks for.
#[derive(Debug, Clone)]
pub struct ConnectionOptions {
    pub client: ClientInfo,
    pub num_previous_attempts: u8,
    pub unregister_pause: u64,
    pub features: Vec<String>,
}

/// The hexadecimal digits of bytes.
pub open spec fn hex_text(bytes: Seq<u8>) -> Seq<char>
    decreases bytes.len(),
{
    if bytes.len() == 0 {
        Seq::empty()
    } else {
        hex_text(bytes.drop_last()) + text::hex_byte(bytes.last())
    }
}

/// Calls `hex::encode`: two lower-case hexadecimal digits for each byte.
#[verifier::external_body]
fn encode_hex(bytes: &[u8]) -> (r: String)
    ensures
        r@ == hex_text(bytes@),
{
    hex::encode(bytes)
}

/// The text of a UUID: its hexadecimal digits, in five groups.
pub open spec fn uuid_text(id: Seq<u8>) -> Seq<char> {
    hex_text(id.subrange(0, 4)) + "-"@ + hex_text(id.subrange(4, 6)) + "-"@ + hex_text(
        id.subrange(6, 8),
    ) + "-"@ + hex_text(id.subrange(8, 10)) + "-"@ + hex_text(id.subrange(10, 16))
}

/// Calls `ToString::to_string` on a `Uuid`: its hexadecimal digits in lower
/// case, in five groups.
#[verifier::external_body]
fn write_uuid(id: &[u8; 16]) -> (r: String)
    ensures
        r@ == uuid_text(id@),
{
    uuid::Uuid::from_bytes(*id).to_string()
}

/// What `Uuid::parse_str` reads in a text: sixteen bytes, or what its error
/// says.
pub uninterp spec fn parsed_uuid(text: Seq<char>) -> Result<Seq<u8>, Seq<char>>;

/// A UUID that was read, as a value.
pub open spec fn id_view(r: Result<[u8; 16], String>) -> Result<Seq<u8>, Seq<char>> {
    match r {
        Ok(id) => Ok(id@),
        Err(e) => Err(e@),
    }
}

/// Whether `r` is the UUID that a text was written of, where there is one.
pub open spec fn reads_written(text: Seq<char>, r: Result<Seq<u8>, Seq<char>>) -> bool {
    forall|id: Seq<u8>| id.len() == 16 && text == #[trigger] uuid_text(id) ==> r == Ok::<
        Seq<u8>,
        Seq<char>,
    >(id)
}

/// Calls `Uuid::parse_str`, which reads the notations of a UUID; an error
/// becomes what it says. The text that is written of a UUID is read as the same
/// UUID; else the result is named. It depends on the text alone.
#[verifier::external_body]
pub(crate) fn parse_uuid(text: &str) -> (r: Result<[u8; 16], String>)
    ensures
        id_view(r) == parsed_uuid(text@),
        reads_written(text@, id_view(r)),
{
    match uuid::Uuid::parse_str(text) {
        Ok(id) => Ok(*id.as_bytes()),
        Err(e) => Err(e.to_string()),
    }
}

/// An operating system and an architecture in one text.
pub open spec fn platform_text(os: Seq<char>, arch: Seq<char>) -> Seq<char> {
    os + "-"@ + arch
}

/// Writes an operating system and an architecture in one text.
pub fn platform(os: &str, arch: &str) -> (r: String)
    ensures
        r@ == platform_text(os@, arch@),
{
    let mut r = os.to_string();
    r.append("-");
    r.append(arch);
    r
}

impl ClientInfo {
    /// Whether this is the client with this identifier on this platform.
    pub open spec fn is(self, connector_id: Seq<u8>, os: Seq<char>, arch: Seq<char>) -> bool {
        &&& self.client_id@ == uuid_text(connector_id)
        &&& self.features@.len() == 2
        &&& self.features@[0]@ == FEATURE_HA_ORIGIN@
        &&& self.features@[1]@ == FEATURE_SERIALIZED_HEADERS@
        &&& self.version@ == CLIENT_VERSION@
        &&& self.arch@ == platform_text(os, arch)
    }

    /// The client with this identifier on this platform.
    pub fn new(connector_id: &[u8; 16], os: &str, arch: &str) -> (c: Self)
        ensures
            c.is(connector_id@, os@, arch@),
    {
        let mut features: Vec<String> = Vec::new();
        features.push(FEATURE_HA_ORIGIN.to_string());
        features.push(FEATURE_SERIALIZED_HEADERS.to_string());
        ClientInfo {
            client_id: write_uuid(connector_id),
            features,
            version: CLIENT_VERSION.to_string(),
            arch: platform(os, arch),
        }
    }
}

/// How a character stands in a JSON string.
pub open spec fn json_char(c: char) -> Seq<char> {
    if c == '"' {
        seq!['\\', '"']
    } else if c == '\\' {
        seq!['\\', '\\']
    } else if c == '\u{8}' {
        seq!['\\', 'b']
    } else if c == '\t' {
        seq!['\\', 't']
    } else if c == '\n' {
        seq!['\\', 'n']
    } else if c == '\u{c}' {
        seq!['\\', 'f']
    } else if c == '\r' {
        seq!['\\', 'r']
    } else if c <= '\u{1f}' {
        seq!['\\', 'u', '0', '0'] + text::hex_byte(c as u8)
    } else {
        seq![c]
    }
}

/// How characters stand in a JSON string.
pub open spec fn json_chars(s: Seq<char>) -> Seq<char>
    decreases s.len(),
{
    if s.len() == 0 {
        Seq::empty()
    } else {
        json_chars(s.drop_last()) + json_char(s.last())
    }
}

/// A text as a JSON string.
pub open spec fn json_string(s: Seq<char>) -> Seq<char> {
    "\""@ + json_chars(s) + "\""@
}

/// Calls `serde_json::to_string` on a text: the text in quotation marks, with
/// quotation marks, backslashes and control characters escaped.
#[verifier::external_body]
fn write_json_string(s: &str) -> (r: String)
    ensures
        r@ == json_string(s@),
{
    serde_json::to_string(s).unwrap()
}

/// Texts as the elements of a JSON array, with a comma between each two.
pub open spec fn json_elements(list: Seq<String>) -> Seq<char>
    decreases list.len(),
{
    if list.len() == 0 {
        Seq::empty()
    } else if list.len() == 1 {
        json_string(list[0]@)
    } else {
        json_elements(list.drop_last()) + ","@ + json_string(list.last()@)
    }
}

/// Writes texts as the elements of a JSON array.
fn write_json_elements(list: &Vec<String>) -> (r: String)
    ensures
        r@ == json_elements(list@),
{
    let n = list.len();
    let mut r = String::new();
    let mut i: usize = 0;
    assert(r@ =~= json_elements(list@.take(0)));
    while i < n
        invariant
            i <= n,
            n == list@.len(),
            r@ == json_elements(list@.take(i as int)),
        decreases n - i,
    {
        let ghost now = list@.take(i + 1);
        assert(now.drop_last() =~= list@.take(i as int));
        let ghost before = r@;
        if i > 0 {
            r.append(",");
        }
        r.append(write_json_string(list[i].as_str()).as_str());
        proof {
            assert(now.last() == list@[i as int]);
            if i == 0 {
                assert(r@ =~= json_string(list@[0]@));
            }
            assert(r@ =~= json_elements(now));
        }
        i = i + 1;
    }
    assert(list@.take(n as int) =~= list@);
    r
}

/// A field of a JSON object behind another.
pub open spec fn json_field(name: Seq<char>, value: Seq<char>) -> Seq<char> {
    ",\""@ + name + "\":"@ + value
}

/// Writes a field of a JSON object behind another.
fn write_json_field(out: &mut String, name: &str, value: &str)
    ensures
        final(out)@ == old(out)@ + json_field(name@, value@),
{
    let ghost before = out@;
    out.append(",\"");
    out.append(name);
    out.append("\":");
    out.append(value);
    assert(out@ =~= before + json_field(name@, value@));
}

/// The registration of a connection in JSON.
pub open spec fn register_json(
    account_tag: Seq<char>,
    tunnel_secret: Seq<u8>,
    tunnel_id: Seq<u8>,
    conn_index: u8,
    client: ClientInfo,
    edge_addr: Seq<char>,
) -> Seq<char> {
    "{\"account_tag\":"@ + json_string(account_tag) + json_field(
        "tunnel_secret"@,
        json_string(hex_text(tunnel_secret)),
    ) + json_field("tunnel_id"@, json_string(hex_text(tunnel_id))) + json_field(
        "conn_index"@,
        text::decimal(conn_index as nat),
    ) + json_field("client_id"@, json_string(client.client_id@)) + json_field(
        "features"@,
        "["@ + json_elements(client.features@) + "]"@,
    ) + json_field("version"@, json_string(client.version@)) + json_field(
        "arch"@,
        json_string(client.arch@),
    ) + json_field("edge_address"@, json_string(edge_addr)) + "}"@
}

/// Writes the registration of a connection in JSON.
pub fn build_capnp_register(
    account_tag: &str,
    tunnel_secret: &[u8],
    tunnel_id: &[u8; 16],
    conn_index: u8,
    opts: &ConnectionOptions,
    edge_addr: &str,
) -> (out: Vec<u8>)
    ensures
        out@ == vstd::utf8::encode_utf8(
            register_json(
                account_tag@,
                tunnel_secret@,
                tunnel_id@,
                conn_index,
                opts.client,
                edge_addr@,
            ),
        ),
{
    let secret = encode_hex(tunnel_secret);
    let id = encode_hex(tunnel_id.as_slice());
    let mut features = "[".to_string();
    features.append(write_json_elements(&opts.client.features).as_str());
    features.append("]");
    let mut json = "{\"account_tag\":".to_string();
    json.append(write_json_string(account_tag).as_str());
    write_json_field(
        &mut json,
        "tunnel_secret",
        write_json_string(secret.as_str()).as_str(),
    );
    write_json_field(&mut json, "tunnel_id", write_json_string(id.as_str()).as_str());
    write_json_field(&mut json, "conn_index", text::decimal_text(conn_index as u64).as_str());
    write_json_field(
        &mut json,
        "client_id",
        write_json_string(opts.client.client_id.as_str()).as_str(),
    );
    write_json_field(&mut json, "features", features.as_str());
    write_json_field(
        &mut json,
        "version",
        write_json_string(opts.client.version.as_str()).as_str(),
    );
    write_json_field(&mut json, "arch", write_json_string(opts.client.arch.as_str()).as_str());
    write_json_field(&mut json, "edge_address", write_json_string(edge_addr).as_str());
    json.append("}");
    json.as_str().as_bytes_vec()
}

} // verus!
