//! The trust walk: from the hop nearest to us towards the claimed origin,
//! stopping at the first hop that no trusted range vouches for.

use crate::address::IpAddress;
use ipnetwork::IpNetwork;
use vstd::prelude::*;
use vstd::seq_lib::to_multiset_contains;

verus! {

/// `ipnetwork::IpNetwork`, a range of addresses. It is carried through as it
/// is: nothing here looks inside one.
#[verifier::external_type_specification]
#[verifier::external_body]
pub struct ExIpNetwork(IpNetwork);

/// The addresses that lie inside a network range.
pub uninterp spec fn network_addresses(network: IpNetwork) -> Set<IpAddress>;

/// Calls `IpNetwork::contains`. Trusted: whether an address lies in a range
/// depends on the range and the address alone.
#[verifier::external_body]
pub(crate) fn network_contains(network: &IpNetwork, ip: IpAddress) -> (r: bool)
    ensures
        r == network_addresses(*network).contains(ip),
{
    match ip {
        IpAddress::V4(octets) => network.contains(octets.into()),
        IpAddress::V6(octets) => network.contains(octets.into()),
    }
}

/// An address is trusted when at least one of the ranges holds it.
pub open spec fn is_trusted(ip: IpAddress, trusted: Seq<IpNetwork>) -> bool {
    exists|i: int| 0 <= i < trusted.len() && #[trigger] network_addresses(trusted[i]).contains(ip)
}

/// Position `i` is where trust ends in `chain`: every later hop is trusted,
/// and the hop at `i` is not, unless `i` is the first position, which has
/// nothing before it to fall back on.
pub open spec fn is_boundary(chain: Seq<IpAddress>, trusted: Seq<IpNetwork>, i: int) -> bool {
    &&& 0 <= i < chain.len()
    &&& forall|j: int| i < j < chain.len() ==> is_trusted(#[trigger] chain[j], trusted)
    &&& i > 0 ==> !is_trusted(chain[i], trusted)
}

/// The real address of a chain of hops ordered from the claimed origin to the
/// nearest hop: the hop at the trust boundary. An empty chain has none.
pub open spec fn resolved(chain: Seq<IpAddress>, trusted: Seq<IpNetwork>) -> Option<IpAddress> {
    if chain.len() == 0 {
        None
    } else {
        Some(chain[choose|i: int| is_boundary(chain, trusted, i)])
    }
}

/// A chain has at most one trust boundary.
pub proof fn lemma_boundary_unique(
    chain: Seq<IpAddress>,
    trusted: Seq<IpNetwork>,
    i: int,
    k: int,
)
    requires
        is_boundary(chain, trusted, i),
        is_boundary(chain, trusted, k),
    ensures
        i == k,
{
    if i < k {
        assert(is_trusted(chain[k], trusted));
    } else if k < i {
        assert(is_trusted(chain[i], trusted));
    }
}

/// Once a boundary is known, it is the one `resolved` speaks of.
pub proof fn lemma_resolved_at(chain: Seq<IpAddress>, trusted: Seq<IpNetwork>, i: int)
    requires
        is_boundary(chain, trusted, i),
    ensures
        resolved(chain, trusted) == Some(chain[i]),
{
    let k = choose|k: int| is_boundary(chain, trusted, k);
    lemma_boundary_unique(chain, trusted, i, k);
}

/// Every chain that is not empty has a trust boundary.
pub proof fn lemma_boundary_exists(chain: Seq<IpAddress>, trusted: Seq<IpNetwork>)
    requires
        chain.len() > 0,
    ensures
        exists|i: int| is_boundary(chain, trusted, i),
    decreases chain.len(),
{
    let last = chain.len() - 1;
    if !is_trusted(chain[last], trusted) || chain.len() == 1 {
        assert(is_boundary(chain, trusted, last));
    } else {
        let front = chain.drop_last();
        lemma_boundary_exists(front, trusted);
        let i = choose|i: int| is_boundary(front, trusted, i);
        assert forall|j: int| i < j < chain.len() implies is_trusted(
            #[trigger] chain[j],
            trusted,
        ) by {
            if j < last {
                assert(chain[j] == front[j]);
            }
        }
        assert(chain[i] == front[i]);
        assert(is_boundary(chain, trusted, i));
    }
}

/// The resolved address is always there, and it is the peer or one of the
/// hops: no address is made up.
pub proof fn lemma_resolved_in_chain(
    hops: Seq<IpAddress>,
    peer: IpAddress,
    trusted: Seq<IpNetwork>,
)
    ensures
        resolved(hops.push(peer), trusted) is Some,
        hops.push(peer).contains(resolved(hops.push(peer), trusted)->0),
{
    let chain = hops.push(peer);
    lemma_boundary_exists(chain, trusted);
    let i = choose|i: int| is_boundary(chain, trusted, i);
    assert(chain[i] == resolved(chain, trusted)->0);
}

/// A peer that no trusted range holds is its own real address, whatever the
/// hops claim.
pub proof fn lemma_untrusted_peer(hops: Seq<IpAddress>, peer: IpAddress, trusted: Seq<IpNetwork>)
    requires
        !is_trusted(peer, trusted),
    ensures
        resolved(hops.push(peer), trusted) == Some(peer),
{
    lemma_resolved_at(hops.push(peer), trusted, hops.len() as int);
}

/// When the peer and every hop are trusted, the real address is the first of
/// the chain.
pub proof fn lemma_all_trusted(hops: Seq<IpAddress>, peer: IpAddress, trusted: Seq<IpNetwork>)
    requires
        is_trusted(peer, trusted),
        forall|j: int| 0 <= j < hops.len() ==> is_trusted(#[trigger] hops[j], trusted),
    ensures
        resolved(hops.push(peer), trusted) == Some(hops.push(peer)[0]),
{
    let chain = hops.push(peer);
    assert forall|j: int| 0 < j < chain.len() implies is_trusted(#[trigger] chain[j], trusted) by {
        if j < hops.len() {
            assert(chain[j] == hops[j]);
        }
    }
    lemma_resolved_at(chain, trusted, 0);
}

/// Trust does not depend on the order of the ranges: two lists that hold the
/// same ranges trust the same addresses.
pub proof fn lemma_is_trusted_reordered(ip: IpAddress, a: Seq<IpNetwork>, b: Seq<IpNetwork>)
    requires
        a.to_multiset() == b.to_multiset(),
    ensures
        is_trusted(ip, a) == is_trusted(ip, b),
{
    if is_trusted(ip, a) {
        let i = choose|i: int| 0 <= i < a.len() && #[trigger] network_addresses(a[i]).contains(ip);
        assert(a.contains(a[i]));
        to_multiset_contains(a, a[i]);
        to_multiset_contains(b, a[i]);
        let k = choose|k: int| 0 <= k < b.len() && b[k] == a[i];
        assert(network_addresses(b[k]).contains(ip));
    }
    if is_trusted(ip, b) {
        let i = choose|i: int| 0 <= i < b.len() && #[trigger] network_addresses(b[i]).contains(ip);
        assert(b.contains(b[i]));
        to_multiset_contains(b, b[i]);
        to_multiset_contains(a, b[i]);
        let k = choose|k: int| 0 <= k < a.len() && a[k] == b[i];
        assert(network_addresses(a[k]).contains(ip));
    }
}

/// Reordering the trusted ranges does not change the resolved address.
pub proof fn lemma_resolved_reordered(
    hops: Seq<IpAddress>,
    peer: IpAddress,
    a: Seq<IpNetwork>,
    b: Seq<IpNetwork>,
)
    requires
        a.to_multiset() == b.to_multiset(),
    ensures
        resolved(hops.push(peer), a) == resolved(hops.push(peer), b),
{
    let chain = hops.push(peer);
    lemma_boundary_exists(chain, a);
    let i = choose|i: int| is_boundary(chain, a, i);
    assert forall|j: int| 0 <= j < chain.len() implies is_trusted(chain[j], a) == is_trusted(
        #[trigger] chain[j],
        b,
    ) by {
        lemma_is_trusted_reordered(chain[j], a, b);
    }
    assert(is_boundary(chain, b, i));
    lemma_resolved_at(chain, a, i);
    lemma_resolved_at(chain, b, i);
}

/// Tells whether one of the trusted ranges holds `ip`.
pub fn is_trusted_proxy(ip: IpAddress, trusted: &[IpNetwork]) -> (r: bool)
    ensures
        r == is_trusted(ip, trusted@),
{
    let mut i: usize = 0;
    while i < trusted.len()
        invariant
            i <= trusted.len(),
            forall|j: int| 0 <= j < i ==> !(#[trigger] network_addresses(trusted@[j])).contains(ip),
        decreases trusted.len() - i,
    {
        if network_contains(&trusted[i], ip) {
            return true;
        }
        i += 1;
    }
    false
}

/// Resolves the real address behind `peer`.
///
/// The chain is `hops` followed by `peer`. It is walked from `peer` backwards;
/// the first hop that is not trusted is the answer, and when every hop is
/// trusted the answer is the first of the chain.
pub fn resolve(hops: &[IpAddress], peer: IpAddress, trusted: &[IpNetwork]) -> (r: Option<
    IpAddress,
>)
    ensures
        r == resolved(hops@.push(peer), trusted@),
        r is Some,
{
    let ghost chain = hops@.push(peer);
    if !is_trusted_proxy(peer, trusted) {
        proof {
            lemma_resolved_at(chain, trusted@, hops@.len() as int);
        }
        return Some(peer);
    }
    let mut i: usize = hops.len();
    while i > 0
        invariant
            i <= hops.len(),
            chain == hops@.push(peer),
            forall|j: int| i <= j < chain.len() ==> is_trusted(#[trigger] chain[j], trusted@),
        decreases i,
    {
        i -= 1;
        let hop = hops[i];
        if !is_trusted_proxy(hop, trusted) {
            proof {
                lemma_resolved_at(chain, trusted@, i as int);
            }
            return Some(hop);
        }
    }
    proof {
        lemma_resolved_at(chain, trusted@, 0);
    }
    if hops.len() > 0 {
        Some(hops[0])
    } else {
        Some(peer)
    }
}

} // verus!
