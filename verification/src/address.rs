//! IP addresses as plain values, and the reading of an address literal.

use vstd::prelude::*;

verus! {

/// An IPv4 or IPv6 address, held as its octets in network order.
#[derive(Clone, Copy, Debug, PartialEq, Eq, Hash)]
pub enum IpAddress {
    V4([u8; 4]),
    V6([u8; 16]),
}

/// The address that a text denotes when it is an IP address literal, as the
/// standard library reads one; `None` for any other text.
pub uninterp spec fn ip_literal(text: Seq<char>) -> Option<IpAddress>;

/// Calls the standard library's `FromStr` for `IpAddr`. Trusted: the outcome
/// is a function of the text alone, and the octets handed back are those of
/// the address that was read.
#[verifier::external_body]
pub(crate) fn parse_ip(text: &str) -> (r: Option<IpAddress>)
    ensures
        r == ip_literal(text@),
{
    match text.parse() {
        Ok(core::net::IpAddr::V4(ip)) => Some(IpAddress::V4(ip.octets())),
        Ok(core::net::IpAddr::V6(ip)) => Some(IpAddress::V6(ip.octets())),
        Err(_) => None,
    }
}

} // verus!
