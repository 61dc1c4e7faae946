//! What errors say.

use vstd::prelude::*;
use crate::capnp_rpc::ResponseError;
use crate::config::{SecretError, TokenError};
use crate::ingress::{ConfigFormat, LoadError, RulesError};
use crate::origin::{HeadError, OriginError};
use crate::protocol::FrameError;
use crate::text;
use crate::tunnel::ProxyError;
use crate::urls::RewriteError;

verus! {

/// What is wrong with a frame: the number of the opcode in two hexadecimal digits,
/// and lengths in decimal digits.
pub proof fn law_frame_errors(v: u8, n: usize, m: usize)
    ensures
        FrameError::UnknownOpcode(v).spec_message() == "Unknown opcode: 0x"@ + text::hex_byte(v),
        FrameError::TooShort(n).spec_message() == "Frame too short: "@ + text::decimal(n as nat)
            + " bytes"@,
        (FrameError::Truncated { expected: n, got: m }).spec_message()
            == "Truncated payload: expected "@ + text::decimal(n as nat) + ", got "@
            + text::decimal(m as nat),
{
}

/// What is wrong with a connection response: its length, the kind of its root and
/// its variant in decimal digits, and the reason of the edge as it is.
pub proof fn law_response_errors(n: usize, kind: u64, variant: u16, cause: String)
    ensures
        ResponseError::TooShort(n).spec_message() == "ConnectionResponse too short: "@
            + text::decimal(n as nat) + " bytes"@,
        ResponseError::NotStruct(kind).spec_message() == "Root is not a struct pointer: type="@
            + text::decimal(kind as nat),
        ResponseError::OutOfBounds.spec_message() == "ConnectionResponse struct out of bounds"@,
        ResponseError::Rejected(cause).spec_message() == "Edge rejected connection: "@ + cause@,
        ResponseError::Unknown(variant).spec_message()
            == "Unknown ConnectionResponse discriminant: "@ + text::decimal(variant as nat),
{
}

/// What is wrong with a configuration file: its path, and what is behind it where
/// that came from outside.
pub proof fn law_load_errors(path: String, cause: String, e: RulesError)
    ensures
        ({
            let read = LoadError::Read { path, cause };
            let json = LoadError::Parse { format: ConfigFormat::Json, path, cause };
            let yaml = LoadError::Parse { format: ConfigFormat::Yaml, path, cause };
            &&& read.spec_message() == "Cannot read config file: "@ + path@
            &&& json.spec_message() == "Invalid JSON in "@ + path@
            &&& yaml.spec_message() == "Invalid YAML in "@ + path@
            &&& read.spec_cause() == Some(cause@)
            &&& json.spec_cause() == Some(cause@)
            &&& yaml.spec_cause() == Some(cause@)
            &&& LoadError::Rules(e).spec_message() == e.spec_message()
            &&& LoadError::Rules(e).spec_cause() is None
        }),
{
}

/// Errors that came from outside say what they said there.
pub proof fn law_outside_errors(m: String)
    ensures
        TokenError::Base64(m).spec_message() == m@,
        TokenError::Json(m).spec_message() == m@,
        SecretError::Base64(m).spec_message() == m@,
        OriginError::Parse(m).spec_message() == m@,
        RewriteError::Url(m).spec_message() == m@,
        RewriteError::Uri(m).spec_message() == m@,
        ProxyError::Rewrite(RewriteError::Url(m)).spec_message() == m@,
        ProxyError::Rewrite(RewriteError::Uri(m)).spec_message() == m@,
{
}

/// What the other errors say.
pub proof fn law_own_errors(e: HeadError)
    ensures
        SecretError::TooShort.spec_message() == "Tunnel secret too short"@,
        RulesError::Empty.spec_message() == "Config file has no ingress rules"@,
        RulesError::NoCatchAll.spec_message()
            == "Last ingress rule must be a catch-all (no hostname). Add:\n  - service: http_status:404"@,
        HeadError::Status.spec_message() == "invalid status code"@,
        HeadError::HeaderName.spec_message() == "invalid HTTP header name"@,
        HeadError::HeaderValue.spec_message() == "failed to parse header value"@,
        OriginError::Head(e).spec_message() == e.spec_message(),
        ProxyError::TooManyHeaders.spec_message() == "max size reached"@,
        ProxyError::ReplyHeaders.spec_message() == "failed to parse header value"@,
{
}

} // verus!
