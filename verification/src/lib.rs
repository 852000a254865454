//! The real address of the client behind an incoming request.
//!
//! A request that has passed through reverse proxies arrives from the last of
//! them, and each proxy records in a header whom it took the request from:
//! `Forwarded`, `X-Forwarded-For` or `X-Real-IP`. A client can write such a
//! header as well, so a declared hop counts only as far as the proxies that
//! report it are trusted. The trusted proxies are given as a list of
//! [`IpNetwork`]s, each a single address or a range.
//!
//! The hops that the headers declare, followed by the address that the
//! request arrived from, form a chain. It is walked from the near end, and the
//! first hop that lies in no trusted range is the real address; a chain that
//! is trusted throughout gives its first hop. With nested proxies, every
//! proxy of the chain has to lie in a trusted range for the address behind
//! them to be reached.

pub mod address;
pub mod headers;
pub mod request;
pub mod token;
pub mod trust;

use crate::address::IpAddress;
use crate::request::{forwarded_for_from_headers, header_fields, header_hops};
use crate::trust::{is_trusted, lemma_untrusted_peer, resolve, resolved};
use http::{HeaderMap, Request};
use ipnetwork::IpNetwork;
use vstd::prelude::*;

verus! {

/// The real address of the client of a request that carries `headers` and
/// arrived from `remote`.
///
/// The hops that the headers declare, followed by `remote`, form the chain;
/// the result is the hop at which trust ends.
pub fn real_ip_from_headers(
    headers: &HeaderMap,
    remote: IpAddress,
    trusted_proxies: &[IpNetwork],
) -> (r: Option<IpAddress>)
    ensures
        r == resolved(header_hops(header_fields(*headers)).push(remote), trusted_proxies@),
        r is Some,
{
    let hops = forwarded_for_from_headers(headers);
    resolve(hops.as_slice(), remote, trusted_proxies)
}

/// The real address of the client of an incoming request that arrived from
/// `remote`.
///
/// What is known of the result holds for whatever header map the request
/// hands out; [`real_ip_from_headers`] says which address it is.
pub fn real_ip<B>(request: &Request<B>, remote: IpAddress, trusted_proxies: &[IpNetwork]) -> (r:
    Option<IpAddress>)
    ensures
        exists|headers: HeaderMap|
            r == resolved(
                header_hops(#[trigger] header_fields(headers)).push(remote),
                trusted_proxies@,
            ),
        r is Some,
        !is_trusted(remote, trusted_proxies@) ==> r == Some(remote),
{
    let headers = request.headers();
    proof {
        if !is_trusted(remote, trusted_proxies@) {
            lemma_untrusted_peer(header_hops(header_fields(*headers)), remote, trusted_proxies@);
        }
    }
    real_ip_from_headers(headers, remote, trusted_proxies)
}

/// The chain of hops that the headers of a request declare, from the claimed
/// origin to the nearest proxy.
///
/// Nothing here guards against a client that forges the headers: that is what
/// [`real_ip`] is for.
pub fn get_forwarded_for<B>(request: &Request<B>) -> (r: Vec<IpAddress>)
    ensures
        exists|headers: HeaderMap| r@ == header_hops(#[trigger] header_fields(headers)),
{
    forwarded_for_from_headers(request.headers())
}

} // verus!
