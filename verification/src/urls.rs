//! Addresses of services: the parts of a URL that a connection needs, and the
//! URI of a request to a service.

use vstd::prelude::*;
use vstd::string::*;
use crate::text;

verus! {

/// The host of a service whose URL names none.
pub const DEFAULT_HOST: &'static str = "127.0.0.1";

/// The port of a service whose URL names none and whose scheme has none.
pub const DEFAULT_PORT: u16 = 80;

/// The parts of a URL that a connection needs.
#[derive(Debug)]
pub struct UrlParts {
    pub scheme: String,
    pub host: Option<String>,
    /// The port that the URL names, or else that of its scheme.
    pub port: Option<u16>,
}

/// What `Url::parse` reads in a text: scheme, host and port, or what its error
/// says. The port is that of the scheme where the text names none.
pub uninterp spec fn parsed_url(text: Seq<char>) -> Result<
    (Seq<char>, Option<Seq<char>>, Option<u16>),
    Seq<char>,
>;

/// A text that may be missing, as a value.
pub open spec fn text_view(t: Option<String>) -> Option<Seq<char>> {
    match t {
        Some(t) => Some(t@),
        None => None,
    }
}

/// The parts of a URL, as values.
pub open spec fn url_view(r: Result<UrlParts, String>) -> Result<
    (Seq<char>, Option<Seq<char>>, Option<u16>),
    Seq<char>,
> {
    match r {
        Ok(p) => Ok((p.scheme@, text_view(p.host), p.port)),
        Err(e) => Err(e@),
    }
}

/// Calls `Url::parse`, and `scheme`, `host_str` and `port_or_known_default` on
/// the URL that came of it; an error becomes what it says. The result depends
/// on the text alone.
#[verifier::external_body]
pub(crate) fn parse_url(text: &str) -> (r: Result<UrlParts, String>)
    ensures
        url_view(r) == parsed_url(text@),
{
    match url::Url::parse(text) {
        Ok(u) => Ok(
            UrlParts {
                scheme: u.scheme().to_string(),
                host: u.host_str().map(|h| h.to_string()),
                port: u.port_or_known_default(),
            },
        ),
        Err(e) => Err(e.to_string()),
    }
}

/// The host to connect to.
pub open spec fn host_or_default(host: Option<Seq<char>>) -> Seq<char> {
    match host {
        Some(h) => h,
        None => DEFAULT_HOST@,
    }
}

/// The port to connect to.
pub open spec fn port_or_default(port: Option<u16>) -> u16 {
    match port {
        Some(p) => p,
        None => DEFAULT_PORT,
    }
}

/// A host and a port in one text.
pub open spec fn address_text(host: Seq<char>, port: u16) -> Seq<char> {
    host + ":"@ + text::decimal(port as nat)
}

/// The host and the port of a service with these parts.
pub fn service_address(host: Option<String>, port: Option<u16>) -> (r: (String, u16))
    ensures
        r.0@ == host_or_default(text_view(host)),
        r.1 == port_or_default(port),
{
    let h = match host {
        Some(h) => h,
        None => DEFAULT_HOST.to_string(),
    };
    let p = match port {
        Some(p) => p,
        None => DEFAULT_PORT,
    };
    (h, p)
}

/// Writes a host and a port in one text.
pub fn address(host: &str, port: u16) -> (r: String)
    ensures
        r@ == address_text(host@, port),
{
    let mut r = host.to_string();
    r.append(":");
    r.append(text::decimal_text(port as u64).as_str());
    r
}

/// What `Uri::from_str` reads in a text: the path with the query, where there
/// is one, or what its error says.
pub uninterp spec fn parsed_uri(text: Seq<char>) -> Result<Option<Seq<char>>, Seq<char>>;

/// The path with the query of a URI, as a value.
pub open spec fn uri_view(r: Result<Option<String>, String>) -> Result<
    Option<Seq<char>>,
    Seq<char>,
> {
    match r {
        Ok(p) => Ok(text_view(p)),
        Err(e) => Err(e@),
    }
}

/// Calls `Uri::from_str`, and `path_and_query` on the URI that came of it; an
/// error becomes what it says. The result depends on the text alone.
#[verifier::external_body]
fn parse_uri(text: &str) -> (r: Result<Option<String>, String>)
    ensures
        uri_view(r) == parsed_uri(text@),
{
    match text.parse::<http::Uri>() {
        Ok(uri) => Ok(uri.path_and_query().map(|p| p.as_str().to_string())),
        Err(e) => Err(e.to_string()),
    }
}

/// The URI of a request to a service: scheme, host and port of the service,
/// path and query of the request.
pub open spec fn rewritten_text(
    service: (Seq<char>, Option<Seq<char>>, Option<u16>),
    path: Option<Seq<char>>,
) -> Seq<char> {
    service.0 + "://"@ + address_text(host_or_default(service.1), port_or_default(service.2))
        + path_or_root(path)
}

/// The path with the query of a request.
pub open spec fn path_or_root(path: Option<Seq<char>>) -> Seq<char> {
    match path {
        Some(p) => p,
        None => "/"@,
    }
}

/// Writes the URI of a request to a service.
pub fn rewritten(service: UrlParts, path: Option<&str>) -> (r: String)
    ensures
        r@ == rewritten_text(
            (service.scheme@, text_view(service.host), service.port),
            match path {
                Some(p) => Some(p@),
                None => None,
            },
        ),
{
    let mut r = service.scheme;
    r.append("://");
    let (host, port) = service_address(service.host, service.port);
    r.append(address(host.as_str(), port).as_str());
    match path {
        Some(p) => {
            r.append(p);
        },
        None => {
            r.append("/");
        },
    }
    r
}

/// Why a request has no URI at a service.
#[derive(Debug)]
pub enum RewriteError {
    /// The service is no URL.
    Url(String),
    /// What comes out is no URI.
    Uri(String),
}

impl RewriteError {
    /// What the error says.
    pub open spec fn spec_message(self) -> Seq<char> {
        match self {
            RewriteError::Url(m) => m@,
            RewriteError::Uri(m) => m@,
        }
    }

    /// What the error says.
    pub fn message(&self) -> (r: String)
        ensures
            r@ == self.spec_message(),
    {
        match self {
            RewriteError::Url(m) => m.as_str().to_string(),
            RewriteError::Uri(m) => m.as_str().to_string(),
        }
    }
}

/// Whether `r` is the path with the query of a request at a service.
pub open spec fn is_rewritten(
    path: Option<Seq<char>>,
    service: Seq<char>,
    r: Result<Option<String>, RewriteError>,
) -> bool {
    match parsed_url(service) {
        Err(e) => r matches Err(RewriteError::Url(t)) && t@ == e,
        Ok(parts) => match parsed_uri(rewritten_text(parts, path)) {
            Err(e) => r matches Err(RewriteError::Uri(t)) && t@ == e,
            Ok(new) => r matches Ok(p) && text_view(p) == new,
        },
    }
}

/// Turns the URI of a request to that of the same request at a service. The
/// result is the path with the query that the new URI has.
pub fn rewrite_uri(path: Option<&str>, service: &str) -> (r: Result<Option<String>, RewriteError>)
    ensures
        is_rewritten(
            match path {
                Some(p) => Some(p@),
                None => None,
            },
            service@,
            r,
        ),
{
    let parts = match parse_url(service) {
        Err(e) => {
            return Err(RewriteError::Url(e));
        },
        Ok(parts) => parts,
    };
    match parse_uri(rewritten(parts, path).as_str()) {
        Err(e) => Err(RewriteError::Uri(e)),
        Ok(p) => Ok(p),
    }
}

/// Whether `r` is the address of the service at a URL.
pub open spec fn is_url_address(url: Seq<char>, r: Result<(String, u16), String>) -> bool {
    match parsed_url(url) {
        Err(e) => r matches Err(t) && t@ == e,
        Ok(parts) => r matches Ok(a) && a.0@ == host_or_default(parts.1) && a.1 == port_or_default(
            parts.2,
        ),
    }
}

/// Finds the address of the service at a URL.
pub fn url_address(url: &str) -> (r: Result<(String, u16), String>)
    ensures
        is_url_address(url@, r),
{
    match parse_url(url) {
        Err(e) => Err(e),
        Ok(parts) => Ok(service_address(parts.host, parts.port)),
    }
}

} // verus!
