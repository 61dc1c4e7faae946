//! The local reverse proxy: where it listens and where it connects to.

use vstd::prelude::*;
use crate::urls;

verus! {

/// The address of all interfaces.
pub const ANY_HOST: &'static str = "0.0.0.0";

/// The address that the proxy listens at.
pub fn listen_address(port: u16) -> (r: String)
    ensures
        r@ == urls::address_text(ANY_HOST@, port),
{
    urls::address(ANY_HOST, port)
}

/// Whether `r` is the address that the proxy connects to for a target.
pub open spec fn is_upstream(target: Seq<char>, r: Result<String, String>) -> bool {
    match urls::parsed_url(target) {
        Err(e) => r matches Err(t) && t@ == e,
        Ok(parts) => r matches Ok(a) && a@ == urls::address_text(
            urls::host_or_default(parts.1),
            urls::port_or_default(parts.2),
        ),
    }
}

/// The address that the proxy connects to for a target, or why the target is no
/// URL.
pub fn upstream_address(target: &str) -> (r: Result<String, String>)
    ensures
        is_upstream(target@, r),
{
    match urls::url_address(target) {
        Err(e) => Err(e),
        Ok((host, port)) => Ok(urls::address(host.as_str(), port)),
    }
}

} // verus!
