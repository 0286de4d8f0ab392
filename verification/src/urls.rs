//! The two questions that the rewriting of service URLs asks of the `url`
//! crate: where a URL points, and what it reads once it points at another
//! IPv4 address and port.

use vstd::prelude::*;
use crate::text::decimal;

verus! {

/// The host (rendered as text) and the port that `url::Url::parse` followed
/// by `Url::host` and `Url::port_or_known_default` give for a text; `None`
/// when the text is no URL, has no host, or has neither an explicit port nor
/// a default one for its scheme.
pub uninterp spec fn url_endpoint_of(text: Seq<char>) -> Option<(Seq<char>, u16)>;

/// The serialization that `url::Url::parse` followed by `Url::set_ip_host`
/// with the IPv4 address `octets`, `Url::set_port(Some(port))` and
/// `to_string` give for a text; `None` when the text is no URL or either
/// setter refuses.
pub uninterp spec fn url_relocated_of(
    text: Seq<char>,
    octets: (u8, u8, u8, u8),
    port: u16,
) -> Option<Seq<char>>;

/// The dotted-decimal text of an IPv4 address, as `Ipv4Addr` renders it.
pub open spec fn dotted(octets: (u8, u8, u8, u8)) -> Seq<char> {
    decimal(octets.0 as nat) + seq!['.'] + decimal(octets.1 as nat) + seq!['.'] + decimal(
        octets.2 as nat,
    ) + seq!['.'] + decimal(octets.3 as nat)
}

/// Calls `url::Url::parse`, then `Url::host` (rendered with `Host`'s
/// `Display`) and `Url::port_or_known_default`. The contract claims only that
/// the result is the one that `url_endpoint_of` names for the text: a
/// function of the text alone.
#[verifier::external_body]
pub(crate) fn url_endpoint(text: &str) -> (r: Option<(String, u16)>)
    ensures
        r matches Some((h, p)) ==> url_endpoint_of(text@) == Some((h@, p)),
        r is None ==> url_endpoint_of(text@) is None,
{
    let url = match url::Url::parse(text) {
        Ok(url) => url,
        Err(_) => return None,
    };
    let host = match url.host() {
        Some(host) => host.to_string(),
        None => return None,
    };
    match url.port_or_known_default() {
        Some(port) => Some((host, port)),
        None => None,
    }
}

/// Calls `url::Url::parse`, then `Url::set_ip_host` with the IPv4 address
/// `octets` and `Url::set_port` with `port`, and renders the URL with
/// `to_string`. The contract claims that the result is the one that
/// `url_relocated_of` names for these arguments, and that the rendered URL
/// reads back with host `dotted(octets)` and port `port`: a URL's
/// serialization parses back to the same host and port (`Url::check_invariants`
/// holds the crate to that; a non-special scheme reads the address back as a
/// domain of the same text), an IPv4 host renders in dotted decimal, and
/// `set_port` drops the port only when it is the scheme's default, which
/// `port_or_known_default` then gives back.
#[verifier::external_body]
pub(crate) fn url_relocate(text: &str, octets: (u8, u8, u8, u8), port: u16) -> (r: Option<String>)
    ensures
        r matches Some(s) ==> url_relocated_of(text@, octets, port) == Some(s@),
        r matches Some(s) ==> url_endpoint_of(s@) == Some((dotted(octets), port)),
        r is None ==> url_relocated_of(text@, octets, port) is None,
{
    let mut url = match url::Url::parse(text) {
        Ok(url) => url,
        Err(_) => return None,
    };
    let address = core::net::Ipv4Addr::new(octets.0, octets.1, octets.2, octets.3);
    if url.set_ip_host(core::net::IpAddr::V4(address)).is_err() {
        return None;
    }
    if url.set_port(Some(port)).is_err() {
        return None;
    }
    Some(url.to_string())
}

} // verus!
