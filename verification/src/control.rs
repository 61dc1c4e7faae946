//! The control stream: how a tunnel registers at the edge.

use http::header::HeaderMap;
use vstd::prelude::*;
use vstd::string::*;
use crate::capnp_params;
use crate::capnp_params::StructValue;
use crate::config;
use crate::config::TokenCreds;
use crate::headers;
use crate::rpc;
use crate::text;

verus! {

/// The type of what is sent on the control stream.
pub const CONTROL_TYPE: &'static str = "application/grpc+proto";

/// The number of the only connection.
pub const CONN_INDEX: u8 = 0;

/// The headers of the answer on the control stream, whose status is 200.
pub fn control_headers() -> (map: HeaderMap)
    ensures
        headers::entries(map) == seq![
            ("content-type"@, vstd::utf8::encode_utf8(CONTROL_TYPE@)),
        ],
{
    let mut map = headers::new_headers();
    proof {
        reveal_strlit("content-type");
        reveal_strlit("application/grpc+proto");
        vstd::utf8::is_ascii_chars_encode_utf8(CONTROL_TYPE@);
    }
    let added = headers::append_header(&mut map, "content-type", CONTROL_TYPE.as_bytes());
    assert(headers::entries(map) =~= seq![
        ("content-type"@, vstd::utf8::encode_utf8(CONTROL_TYPE@)),
    ]);
    map
}

/// Reads a UUID. The text that is written of one is read as the same.
pub fn parse_uuid_bytes(s: &str) -> (r: Result<[u8; 16], String>)
    ensures
        rpc::id_view(r) == rpc::parsed_uuid(s@),
        rpc::reads_written(s@, rpc::id_view(r)),
{
    rpc::parse_uuid(s)
}

/// Who registers which tunnel.
#[derive(Debug)]
pub struct Registration {
    pub account_tag: String,
    pub tunnel_secret: Vec<u8>,
    pub tunnel_id: [u8; 16],
    pub client_id: [u8; 16],
}

/// The secret that a tunnel registers with: empty where there is none that can
/// be used.
pub open spec fn secret_or_empty(secret: Seq<char>) -> Seq<u8> {
    match config::secret_decoded(secret) {
        Ok(bytes) => if bytes.len() < 32 {
            Seq::empty()
        } else {
            bytes
        },
        Err(_) => Seq::empty(),
    }
}

/// Whether `r` is the registration of the tunnel that these credentials are for.
pub open spec fn is_registration(
    creds: TokenCreds,
    connector_id: [u8; 16],
    r: Result<Registration, String>,
) -> bool {
    match rpc::parsed_uuid(creds.t@) {
        Err(e) => r matches Err(t) && t@ == e,
        Ok(id) => {
            &&& r matches Ok(reg)
            &&& reg.account_tag@ == creds.a@
            &&& reg.tunnel_secret@ == secret_or_empty(creds.s@)
            &&& reg.tunnel_id@ == id
            &&& reg.client_id == connector_id
        },
    }
}

/// Whether these are the parameters of the call that registers a tunnel.
pub open spec fn are_params(
    reg: Registration,
    os: Seq<char>,
    arch: Seq<char>,
    p: StructValue,
) -> bool {
    &&& p.data@ == seq![CONN_INDEX, 0, 0, 0, 0, 0, 0, 0]
    &&& p.pointers@.len() == 3
    &&& p.pointers@[0].is_auth(reg.account_tag@, reg.tunnel_secret@)
    &&& p.pointers@[1].is_data(reg.tunnel_id@)
    &&& p.pointers@[2].is_options(
        reg.client_id@,
        seq![rpc::FEATURE_HA_ORIGIN, rpc::FEATURE_SERIALIZED_HEADERS],
        rpc::CLIENT_VERSION@,
        rpc::platform_text(os, arch),
    )
}

impl Registration {
    /// The registration of the tunnel that these credentials are for. It fails
    /// where the tunnel has no UUID.
    pub fn new(creds: &TokenCreds, connector_id: &[u8; 16]) -> (r: Result<Self, String>)
        ensures
            is_registration(*creds, *connector_id, r),
    {
        let tunnel_secret = match creds.secret_bytes() {
            Ok(bytes) => bytes,
            Err(_) => Vec::new(),
        };
        match parse_uuid_bytes(creds.t.as_str()) {
            Err(e) => Err(e),
            Ok(tunnel_id) => Ok(
                Registration {
                    account_tag: creds.a.as_str().to_string(),
                    tunnel_secret,
                    tunnel_id,
                    client_id: *connector_id,
                },
            ),
        }
    }

    /// The parameters of the call that registers the tunnel from this platform.
    pub fn params(&self, os: &str, arch: &str) -> (p: StructValue)
        ensures
            are_params(*self, os@, arch@, p),
    {
        let mut features: Vec<&str> = Vec::new();
        features.push(rpc::FEATURE_HA_ORIGIN);
        features.push(rpc::FEATURE_SERIALIZED_HEADERS);
        assert(features@ =~= seq![rpc::FEATURE_HA_ORIGIN, rpc::FEATURE_SERIALIZED_HEADERS]);
        capnp_params::fill_register_connection(
            self.account_tag.as_str(),
            self.tunnel_secret.as_slice(),
            &self.tunnel_id,
            CONN_INDEX,
            &self.client_id,
            rpc::CLIENT_VERSION,
            rpc::platform(os, arch).as_str(),
            features.as_slice(),
        )
    }
}

/// What the edge answers to a registration. A text is given as its bytes, where
/// it could be read.
#[derive(Debug)]
pub enum RegistrationReply {
    /// It refuses, for this cause.
    Error(Option<Vec<u8>>),
    /// It accepts, at this location.
    Details(Option<Vec<u8>>),
}

/// The text of a field of an answer.
pub open spec fn field_text(bytes: Option<Vec<u8>>) -> Seq<char> {
    match bytes {
        None => "unknown"@,
        Some(b) => if vstd::utf8::valid_utf8(b@) {
            vstd::utf8::decode_utf8(b@)
        } else {
            Seq::empty()
        },
    }
}

/// Reads the text of a field of an answer.
fn read_field(bytes: Option<Vec<u8>>) -> (r: String)
    ensures
        r@ == field_text(bytes),
{
    match bytes {
        None => "unknown".to_string(),
        Some(b) => match text::from_utf8(b) {
            Some(t) => t,
            None => String::new(),
        },
    }
}

/// Whether `r` is what the answer to a registration comes to.
pub open spec fn is_outcome(reply: RegistrationReply, r: Result<String, String>) -> bool {
    match reply {
        RegistrationReply::Details(b) => r matches Ok(t) && t@ == field_text(b),
        RegistrationReply::Error(b) => r matches Err(t) && t@ == "Edge rejected registration: "@
            + field_text(b),
    }
}

/// What the answer to a registration comes to: the location, or why the tunnel
/// is not registered.
pub fn registration_outcome(reply: RegistrationReply) -> (r: Result<String, String>)
    ensures
        is_outcome(reply, r),
{
    match reply {
        RegistrationReply::Details(b) => Ok(read_field(b)),
        RegistrationReply::Error(b) => {
            let mut t = "Edge rejected registration: ".to_string();
            t.append(read_field(b).as_str());
            Err(t)
        },
    }
}

} // verus!
