//! What holds of the registration of a tunnel: where the edge is, what is sent
//! there, and what the answer means.

use vstd::prelude::*;
use crate::base64_text;
use crate::base64_text::Base64;
use crate::capnp_params;
use crate::capnp_params::PointerValue;
use crate::config;
use crate::config::{IngressRule, TokenCreds};
use crate::control;
use crate::control::Registration;
use crate::edge;
use crate::edge::EdgeAddr;
use crate::ingress;
use crate::ingress::{ConfigFormat, LoadError, RulesError};
use crate::proxy;
use crate::rpc;
use crate::rpc::ClientInfo;
use crate::text;
use crate::tunnel;

verus! {

/// Whether an address is this one, byte by byte, with the port of the edge.
pub open spec fn is_edge_address(addr: EdgeAddr, a: u8, b: u8, c: u8, d: u8) -> bool {
    addr matches EdgeAddr::V4 { ip, port } && ip@[0] == a && ip@[1] == b && ip@[2] == c && ip@[3]
        == d && port == 7844
}

/// The addresses that are used where none was found.
pub proof fn law_fallback(addrs: Seq<EdgeAddr>)
    requires
        edge::is_fallback(addrs),
    ensures
        addrs.len() == 4,
        is_edge_address(addrs[0], 198, 41, 192, 167),
        is_edge_address(addrs[1], 198, 41, 192, 67),
        is_edge_address(addrs[2], 198, 41, 192, 57),
        is_edge_address(addrs[3], 198, 41, 200, 13),
{
}

/// The hosts that are looked up, one after the other, and their port.
pub proof fn law_edge_hosts(n: nat)
    ensures
        n == 0 ==> edge::edge_host(n) == "region1.v2.argotunnel.com"@,
        n > 0 ==> edge::edge_host(n) == "region2.v2.argotunnel.com"@,
        edge::EDGE_HOSTS == 2,
        edge::EDGE_PORT == 7844,
{
}

/// The first answer with addresses has at least one, and every answer before it
/// has none or is missing.
pub proof fn law_first_found(answers: Seq<Option<Vec<EdgeAddr>>>, i: int)
    ensures
        edge::first_found(answers, i) <==> 0 <= i < answers.len() && answers[i] is Some
            && answers[i].unwrap()@.len() >= 1 && forall|j: int|
            0 <= j < i ==> ((#[trigger] answers[j]) is None || answers[j].unwrap()@.len() == 0),
        edge::none_found(answers) <==> forall|j: int|
            0 <= j < answers.len() ==> ((#[trigger] answers[j]) is None || answers[j].unwrap()@.len()
                == 0),
{
    if edge::first_found(answers, i) {
        assert forall|j: int| 0 <= j < i implies ((#[trigger] answers[j]) is None
            || answers[j].unwrap()@.len() == 0) by {
            assert(!edge::has_addrs(answers[j]));
        }
    }
    if edge::none_found(answers) {
        assert forall|j: int| 0 <= j < answers.len() implies ((#[trigger] answers[j]) is None
            || answers[j].unwrap()@.len() == 0) by {
            assert(!edge::has_addrs(answers[j]));
        }
    }
}

/// What a token is read as was encoded to the token, white space around it aside,
/// in one of the three variants. Where no bytes were, the error is that of the
/// last variant.
pub proof fn law_token_was_encoded(token: Seq<char>)
    ensures
        ({
            let t = text::trimmed(token);
            match config::token_bytes(token) {
                Ok(bytes) => {
                    ||| base64_text::encoded(bytes, Base64::Standard) == t
                    ||| base64_text::encoded(bytes, Base64::UrlSafe) == t
                    ||| base64_text::encoded(bytes, Base64::UrlSafeNoPad) == t
                },
                Err(e) => e == config::url_safe_no_pad_error(t) && forall|bytes: Seq<u8>, v: Base64|
                    #[trigger] base64_text::encoded(bytes, v) != t,
            }
        }),
{
    let t = text::trimmed(token);
    if config::token_bytes(token) is Err {
        assert forall|bytes: Seq<u8>, v: Base64| #[trigger] base64_text::encoded(bytes, v) != t by {
            if base64_text::encoded(bytes, v) == t {
                assert(base64_text::decoded(t, v) is Some);
                match v {
                    Base64::Standard => {},
                    Base64::UrlSafe => {},
                    Base64::UrlSafeNoPad => {},
                }
            }
        }
    }
}

/// What a secret is read as was encoded to the secret, in standard base64 or in
/// base64 for URLs without filling. Where no bytes were, the error is that of the
/// latter.
pub proof fn law_secret_was_encoded(secret: Seq<char>)
    ensures
        match config::secret_decoded(secret) {
            Ok(bytes) => {
                ||| base64_text::encoded(bytes, Base64::Standard) == secret
                ||| base64_text::encoded(bytes, Base64::UrlSafeNoPad) == secret
            },
            Err(e) => e == config::url_safe_no_pad_error(secret) && forall|bytes: Seq<u8>|
                #![trigger base64_text::encoded(bytes, Base64::Standard)]
                #![trigger base64_text::encoded(bytes, Base64::UrlSafeNoPad)]
                base64_text::encoded(bytes, Base64::Standard) != secret && base64_text::encoded(
                    bytes,
                    Base64::UrlSafeNoPad,
                ) != secret,
        },
{
    if config::secret_decoded(secret) is Err {
        assert forall|bytes: Seq<u8>|
            #![trigger base64_text::encoded(bytes, Base64::Standard)]
            #![trigger base64_text::encoded(bytes, Base64::UrlSafeNoPad)]
            base64_text::encoded(bytes, Base64::Standard) != secret && base64_text::encoded(
                bytes,
                Base64::UrlSafeNoPad,
            ) != secret by {
            assert(base64_text::decoded(secret, Base64::Standard) is None);
            assert(base64_text::decoded(secret, Base64::UrlSafeNoPad) is None);
        }
    }
}

/// The secret that a tunnel registers with is the decoded one where it has 32
/// bytes or more, and else there is none.
pub proof fn law_registered_secret(secret: Seq<char>)
    ensures
        config::secret_decoded(secret) matches Ok(bytes) && bytes.len() >= 32
            ==> control::secret_or_empty(secret) == config::secret_decoded(secret)->Ok_0,
        !(config::secret_decoded(secret) matches Ok(bytes) && bytes.len() >= 32)
            ==> control::secret_or_empty(secret).len() == 0,
{
}

/// A text in the answer to a registration is read as it was written, and one
/// that is missing as `unknown`.
pub proof fn law_answered_text(bytes: Vec<u8>, t: Seq<char>)
    ensures
        control::field_text(None) == "unknown"@,
        bytes@ == vstd::utf8::encode_utf8(t) ==> control::field_text(Some(bytes)) == t,
        !vstd::utf8::valid_utf8(bytes@) ==> control::field_text(Some(bytes)).len() == 0,
{
    vstd::utf8::encode_utf8_valid_utf8(t);
    vstd::utf8::encode_utf8_decode_utf8(t);
}

/// Where the fields of the credentials stand: the account in the first pointer
/// and the secret in the second.
pub proof fn law_auth_slots(p: PointerValue, account_tag: Seq<char>, tunnel_secret: Seq<u8>)
    requires
        p.is_auth(account_tag, tunnel_secret),
    ensures
        p matches PointerValue::Struct(s) && s.data@.len() == 0 && s.pointers@.len() == 2 && (
        s.pointers@[0] matches PointerValue::Text(t) && t@ == account_tag) && (
        s.pointers@[1] matches PointerValue::Data(d) && d@ == tunnel_secret),
{
}

/// Where the fields of the options stand: the client in the first pointer, with
/// its id, features, version and platform in this order; the address of the
/// client, in the second, is left out; and there are no previous attempts.
pub proof fn law_options_slots(
    p: PointerValue,
    client_id: Seq<u8>,
    features: Seq<&str>,
    version: Seq<char>,
    arch: Seq<char>,
)
    requires
        p.is_options(client_id, features, version, arch),
    ensures
        p matches PointerValue::Struct(o) && {
            &&& o.data@.len() == 8
            &&& forall|i: int| 0 <= i < 8 ==> #[trigger] o.data@[i] == 0
            &&& o.pointers@.len() == 2
            &&& o.pointers@[1] is Null
            &&& o.pointers@[0] matches PointerValue::Struct(c)
            &&& c.data@.len() == 0
            &&& c.pointers@.len() == 4
            &&& c.pointers@[0] matches PointerValue::Data(d)
            &&& d@ == client_id
            &&& c.pointers@[1] matches PointerValue::Texts(f)
            &&& f@.len() == features.len()
            &&& forall|i: int| 0 <= i < features.len() ==> (#[trigger] f@[i])@ == features[i]@
            &&& c.pointers@[2] matches PointerValue::Text(v)
            &&& v@ == version
            &&& c.pointers@[3] matches PointerValue::Text(a)
            &&& a@ == arch
        },
{
}

/// Texts one behind the other are the elements of an array with a comma between
/// them, and a single text is its only element.
pub proof fn law_elements(one: Seq<String>, more: Seq<String>)
    ensures
        one.len() == 0 ==> rpc::json_elements(one).len() == 0,
        one.len() == 1 ==> rpc::json_elements(one) == rpc::json_string(one[0]@),
        one.len() > 0 && more.len() > 0 ==> rpc::json_elements(one + more) == rpc::json_elements(one)
            + ","@ + rpc::json_elements(more),
    decreases more.len(),
{
    if one.len() > 0 && more.len() > 0 {
        let rest = more.drop_last();
        let all = one + more;
        assert(all.drop_last() =~= one + rest);
        assert(all.last() == more.last());
        if rest.len() == 0 {
            assert(one + rest =~= one);
            assert(more[0] == more.last());
        } else {
            law_elements(one, rest);
            assert(rpc::json_elements(all) =~= rpc::json_elements(one) + ","@ + rpc::json_elements(
                more,
            ));
        }
    }
}

/// The registration in JSON, field by field and in this order: account, secret
/// and id in hexadecimal digits, number of the connection, client, features,
/// version, platform and address.
pub proof fn law_registration_fields(
    account_tag: Seq<char>,
    tunnel_secret: Seq<u8>,
    tunnel_id: Seq<u8>,
    conn_index: u8,
    client: ClientInfo,
    edge_addr: Seq<char>,
)
    ensures
        rpc::register_json(
            account_tag,
            tunnel_secret,
            tunnel_id,
            conn_index,
            client,
            edge_addr,
        ) == "{\"account_tag\":"@ + rpc::json_string(account_tag) + ",\"tunnel_secret\":"@ + rpc::json_string(
            rpc::hex_text(tunnel_secret),
        ) + ",\"tunnel_id\":"@ + rpc::json_string(rpc::hex_text(tunnel_id)) + ",\"conn_index\":"@
            + text::decimal(conn_index as nat) + ",\"client_id\":"@ + rpc::json_string(
            client.client_id@,
        ) + ",\"features\":"@ + ("["@ + rpc::json_elements(client.features@) + "]"@)
            + ",\"version\":"@ + rpc::json_string(client.version@) + ",\"arch\":"@
            + rpc::json_string(client.arch@) + ",\"edge_address\":"@ + rpc::json_string(edge_addr)
            + "}"@,
{
    lemma_key_start();
    lemma_key_end();
    let secret = rpc::json_string(rpc::hex_text(tunnel_secret));
    let id = rpc::json_string(rpc::hex_text(tunnel_id));
    let index = text::decimal(conn_index as nat);
    let client_id = rpc::json_string(client.client_id@);
    let features = "["@ + rpc::json_elements(client.features@) + "]"@;
    let version = rpc::json_string(client.version@);
    let arch = rpc::json_string(client.arch@);
    let address = rpc::json_string(edge_addr);
    let s0 = "{\"account_tag\":"@ + rpc::json_string(account_tag);
    lemma_field(s0, "tunnel_secret"@, secret);
    let s1 = s0 + ",\"tunnel_secret\":"@ + secret;
    lemma_field(s1, "tunnel_id"@, id);
    let s2 = s1 + ",\"tunnel_id\":"@ + id;
    lemma_field(s2, "conn_index"@, index);
    let s3 = s2 + ",\"conn_index\":"@ + index;
    lemma_field(s3, "client_id"@, client_id);
    let s4 = s3 + ",\"client_id\":"@ + client_id;
    lemma_field(s4, "features"@, features);
    let s5 = s4 + ",\"features\":"@ + features;
    lemma_field(s5, "version"@, version);
    let s6 = s5 + ",\"version\":"@ + version;
    lemma_field(s6, "arch"@, arch);
    let s7 = s6 + ",\"arch\":"@ + arch;
    lemma_field(s7, "edge_address"@, address);
}

/// A field behind a text: a comma, the key in quotation marks, a colon and the
/// value.
proof fn lemma_field(out: Seq<char>, name: Seq<char>, value: Seq<char>)
    ensures
        out + rpc::json_field(name, value) == out + (",\""@ + name + "\":"@) + value,
{
    assert(out + rpc::json_field(name, value) =~= out + (",\""@ + name + "\":"@) + value);
}

/// The keys in the first half of a registration.
proof fn lemma_key_start()
    ensures
        ",\""@ + "tunnel_secret"@ + "\":"@ == ",\"tunnel_secret\":"@,
        ",\""@ + "tunnel_id"@ + "\":"@ == ",\"tunnel_id\":"@,
        ",\""@ + "conn_index"@ + "\":"@ == ",\"conn_index\":"@,
        ",\""@ + "client_id"@ + "\":"@ == ",\"client_id\":"@,
{
    reveal_strlit(",\"");
    reveal_strlit("\":");
    reveal_strlit("tunnel_secret");
    reveal_strlit(",\"tunnel_secret\":");
    reveal_strlit("tunnel_id");
    reveal_strlit(",\"tunnel_id\":");
    reveal_strlit("conn_index");
    reveal_strlit(",\"conn_index\":");
    reveal_strlit("client_id");
    reveal_strlit(",\"client_id\":");
    assert(",\""@ + "tunnel_secret"@ + "\":"@ =~= ",\"tunnel_secret\":"@);
    assert(",\""@ + "tunnel_id"@ + "\":"@ =~= ",\"tunnel_id\":"@);
    assert(",\""@ + "conn_index"@ + "\":"@ =~= ",\"conn_index\":"@);
    assert(",\""@ + "client_id"@ + "\":"@ =~= ",\"client_id\":"@);
}

/// The keys in the second half of a registration.
proof fn lemma_key_end()
    ensures
        ",\""@ + "features"@ + "\":"@ == ",\"features\":"@,
        ",\""@ + "version"@ + "\":"@ == ",\"version\":"@,
        ",\""@ + "arch"@ + "\":"@ == ",\"arch\":"@,
        ",\""@ + "edge_address"@ + "\":"@ == ",\"edge_address\":"@,
{
    reveal_strlit(",\"");
    reveal_strlit("\":");
    reveal_strlit("features");
    reveal_strlit(",\"features\":");
    reveal_strlit("version");
    reveal_strlit(",\"version\":");
    reveal_strlit("arch");
    reveal_strlit(",\"arch\":");
    reveal_strlit("edge_address");
    reveal_strlit(",\"edge_address\":");
    assert(",\""@ + "features"@ + "\":"@ =~= ",\"features\":"@);
    assert(",\""@ + "version"@ + "\":"@ =~= ",\"version\":"@);
    assert(",\""@ + "arch"@ + "\":"@ =~= ",\"arch\":"@);
    assert(",\""@ + "edge_address"@ + "\":"@ =~= ",\"edge_address\":"@);
}

/// What a client says of itself: the platform is the operating system, a hyphen
/// and the architecture, character by character.
pub proof fn law_platform(os: Seq<char>, arch: Seq<char>)
    ensures
        ({
            let p = rpc::platform_text(os, arch);
            &&& p.len() == os.len() + 1 + arch.len()
            &&& p.take(os.len() as int) == os
            &&& p[os.len() as int] == '-'
            &&& p.skip(os.len() + 1int) == arch
        }),
{
    reveal_strlit("-");
    let p = rpc::platform_text(os, arch);
    assert(p.take(os.len() as int) =~= os);
    assert(p.skip(os.len() + 1int) =~= arch);
}

/// Rules that were read are taken as they are where there are any and the last is
/// for every host; a document that cannot be read is the error with its path, its
/// format and its cause.
pub proof fn law_loaded(
    path: Seq<char>,
    format: ConfigFormat,
    parsed: Result<Vec<IngressRule>, String>,
    r: Result<Vec<IngressRule>, LoadError>,
)
    requires
        ingress::is_loaded(path, format, parsed, r),
    ensures
        match parsed {
            Err(e) => r matches Err(LoadError::Parse { format: f, path: p, cause }) && f == format
                && p@ == path && cause@ == e@,
            Ok(rules) => {
                let n = rules@.len() as int;
                &&& n == 0 ==> r == Err::<Vec<IngressRule>, LoadError>(
                    LoadError::Rules(RulesError::Empty),
                )
                &&& n > 0 && rules@[n - 1].hostname@.len() > 0 ==> r == Err::<
                    Vec<IngressRule>,
                    LoadError,
                >(LoadError::Rules(RulesError::NoCatchAll))
                &&& n > 0 && rules@[n - 1].hostname@.len() == 0 ==> r == Ok::<
                    Vec<IngressRule>,
                    LoadError,
                >(rules)
            },
        },
{
}

/// A secret can be used where it was decoded to 32 bytes or more, and is these
/// bytes.
pub proof fn law_secret(
    decoded: Result<Seq<u8>, Seq<char>>,
    r: Result<Vec<u8>, config::SecretError>,
)
    requires
        config::is_secret(decoded, r),
    ensures
        r is Ok <==> decoded is Ok && decoded->Ok_0.len() >= 32,
        r is Ok ==> r->Ok_0@ == decoded->Ok_0,
        decoded is Ok && decoded->Ok_0.len() <= 31 ==> r->Err_0 is TooShort,
        decoded is Err ==> (r matches Err(config::SecretError::Base64(m)) && m@ == decoded->Err_0),
{
}

/// What the search for the edge comes to: a lookup only while fewer than two were
/// made and none has addresses, of the next host; and else the addresses of the
/// first answer that has any, each as often as there, or the four that are always
/// there.
pub proof fn law_edge_step(answers: Seq<Option<Vec<EdgeAddr>>>, r: edge::EdgeStep)
    requires
        edge::is_edge_step(answers, r),
    ensures
        r is Lookup <==> answers.len() < 2 && edge::none_found(answers),
        r matches edge::EdgeStep::Lookup(host) ==> host@ == (if answers.len() == 0 {
            "region1.v2.argotunnel.com"@
        } else {
            "region2.v2.argotunnel.com"@
        }) + ":"@ + text::decimal(7844),
        r matches edge::EdgeStep::Found(addrs) ==> {
            &&& edge::none_found(answers) ==> exists|all: Seq<EdgeAddr>| #[trigger]
                edge::is_fallback(all) && addrs@.to_multiset() == all.to_multiset()
            &&& !edge::none_found(answers) ==> exists|i: int| #[trigger]
                edge::first_found(answers, i) && addrs@.to_multiset()
                    == answers[i].unwrap()@.to_multiset()
        },
{
}

/// A tunnel registers with the account of its credentials, their secret, the id
/// that they name and the id of the connector.
pub proof fn law_registration(
    creds: TokenCreds,
    connector_id: [u8; 16],
    r: Result<Registration, String>,
)
    requires
        control::is_registration(creds, connector_id, r),
    ensures
        rpc::parsed_uuid(creds.t@) is Err ==> r is Err && r->Err_0@ == rpc::parsed_uuid(
            creds.t@,
        )->Err_0,
        rpc::parsed_uuid(creds.t@) is Ok ==> {
            &&& r matches Ok(reg)
            &&& reg.account_tag@ == creds.a@
            &&& reg.tunnel_secret@ == control::secret_or_empty(creds.s@)
            &&& reg.tunnel_id@ == rpc::parsed_uuid(creds.t@)->Ok_0
            &&& reg.client_id@ == connector_id@
        },
{
}

/// The parameters of a registration: the number of the connection, which is 0, in
/// the first byte; the credentials; the id of the tunnel; and the options with the
/// two features, the version and the platform.
pub proof fn law_params(
    reg: Registration,
    os: Seq<char>,
    arch: Seq<char>,
    p: capnp_params::StructValue,
)
    requires
        control::are_params(reg, os, arch, p),
    ensures
        p.data@.len() == 8,
        forall|i: int| 0 <= i < 8 ==> #[trigger] p.data@[i] == 0,
        p.pointers@.len() == 3,
        p.pointers@[0].is_auth(reg.account_tag@, reg.tunnel_secret@),
        p.pointers@[1] is Data,
        p.pointers@[1]->Data_0@ == reg.tunnel_id@,
        p.pointers@[2].is_options(
            reg.client_id@,
            seq!["ha-origin", "serialized-headers"],
            "2024.11.1"@,
            rpc::platform_text(os, arch),
        ),
{
}

/// An answer with details registers the tunnel, at the location that it names; an
/// error does not, and says why.
pub proof fn law_registration_outcome(
    bytes: Option<Vec<u8>>,
    accepted: Result<String, String>,
    refused: Result<String, String>,
)
    requires
        control::is_outcome(control::RegistrationReply::Details(bytes), accepted),
        control::is_outcome(control::RegistrationReply::Error(bytes), refused),
    ensures
        accepted is Ok,
        accepted->Ok_0@ == control::field_text(bytes),
        refused is Err,
        refused->Err_0@ == "Edge rejected registration: "@ + control::field_text(bytes),
{
}

/// What a client says of itself: its id as a UUID, two features, its version and
/// its platform.
pub proof fn law_client(c: ClientInfo, connector_id: Seq<u8>, os: Seq<char>, arch: Seq<char>)
    requires
        c.is(connector_id, os, arch),
    ensures
        c.client_id@ == rpc::uuid_text(connector_id),
        c.features@.len() == 2,
        c.features@[0]@ == "ha-origin"@,
        c.features@[1]@ == "serialized-headers"@,
        c.version@ == "2024.11.1"@,
        c.arch@ == rpc::platform_text(os, arch),
{
}

/// What the control stream is answered with, which connection it is, and where
/// and by which name the edge and the local proxy are reached.
pub proof fn law_fixed_values()
    ensures
        control::CONTROL_TYPE@ == "application/grpc+proto"@,
        control::CONN_INDEX == 0,
        edge::EDGE_SNI@ == "h2.cftunnel.com"@,
        proxy::ANY_HOST@ == "0.0.0.0"@,
        tunnel::CONFIG_RELOAD_INTERVAL == 30,
{
}

} // verus!
