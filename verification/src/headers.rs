//! The three header families that can carry the chain of hops, each read from
//! the raw text of one header value.

use crate::address::{ip_literal, parse_ip, IpAddress};
use crate::token::{
    bracketed, lemma_unbracketed_of_bracketed, lemma_unquoted_of_quoted, maybe_bracketed,
    maybe_quoted, quoted, trim, trimmed, unbracketed, unquoted,
};
use comma_separated::CommaSeparatedIterator;
use rfc7239::{Forwarded, NodeName};
use std::borrow::Cow;
use vstd::prelude::*;

verus! {

/// What one element of a `Forwarded` header says of the node that the request
/// was forwarded for.
#[derive(Clone, Copy, Debug, PartialEq, Eq)]
pub enum ForwardedFor {
    /// The element does not parse.
    Malformed,
    /// The element has no `for` parameter.
    Absent,
    /// The node is `unknown`.
    Unknown,
    /// The node hides behind an obfuscated identifier.
    Obfuscated,
    /// The node is given by its address.
    Ip(IpAddress),
}

impl ForwardedFor {
    /// The address that the element names, if it names one.
    pub open spec fn address(self) -> Option<IpAddress> {
        match self {
            ForwardedFor::Ip(ip) => Some(ip),
            _ => None,
        }
    }
}

/// The elements of a `Forwarded` header value, in order, as `rfc7239` reads
/// them.
pub uninterp spec fn forwarded_elements(header: Seq<char>) -> Seq<ForwardedFor>;

/// Calls `rfc7239::parse` and keeps, of each element, what it says of the
/// `for` node. Trusted: the elements are a function of the header text alone,
/// and each is handed over variant by variant.
#[verifier::external_body]
pub(crate) fn parse_forwarded(header: &str) -> (r: Vec<ForwardedFor>)
    ensures
        r@ == forwarded_elements(header@),
{
    rfc7239::parse(header).map(|element| match element {
        Err(_) => ForwardedFor::Malformed,
        Ok(Forwarded { forwarded_for: None, .. }) => ForwardedFor::Absent,
        Ok(Forwarded { forwarded_for: Some(node), .. }) => match node.name {
            NodeName::Unknown => ForwardedFor::Unknown,
            NodeName::Obfuscated(_) => ForwardedFor::Obfuscated,
            NodeName::Ip(core::net::IpAddr::V4(ip)) => ForwardedFor::Ip(IpAddress::V4(ip.octets())),
            NodeName::Ip(core::net::IpAddr::V6(ip)) => ForwardedFor::Ip(IpAddress::V6(ip.octets())),
        },
    }).collect()
}

/// The segments of a comma-separated text, in order, as `comma_separated`
/// cuts them: a comma inside a quoted part does not separate.
pub uninterp spec fn comma_segments(text: Seq<char>) -> Seq<Seq<char>>;

/// Runs `CommaSeparatedIterator` over `text` from the front and collects the
/// segments. Trusted: the segments are a function of the text alone.
#[verifier::external_body]
pub(crate) fn split_commas(text: &str) -> (r: Vec<&str>)
    ensures
        r.deep_view() == comma_segments(text@),
{
    CommaSeparatedIterator::new(text).collect()
}

/// The values that are present, in their order.
pub open spec fn present<T>(items: Seq<Option<T>>) -> Seq<T>
    decreases items.len(),
{
    if items.len() == 0 {
        Seq::empty()
    } else {
        let front = present(items.drop_last());
        match items.last() {
            Some(value) => front.push(value),
            None => front,
        }
    }
}

/// The address that one token denotes, once a layer of quotes and a layer of
/// brackets are taken off.
pub open spec fn token_address(token: Seq<char>) -> Option<IpAddress> {
    ip_literal(unbracketed(unquoted(token)))
}

/// The hops that a `Forwarded` header value names: the addresses among the
/// `for` nodes of its elements.
pub open spec fn forwarded_hops(header: Seq<char>) -> Seq<IpAddress> {
    addresses_for(forwarded_elements(header))
}

/// The addresses among the `for` nodes of the given elements.
pub open spec fn addresses_for(elements: Seq<ForwardedFor>) -> Seq<IpAddress> {
    present(elements.map_values(|element: ForwardedFor| element.address()))
}

/// The hops that an `X-Forwarded-For` header value names: its segments that
/// denote an address.
pub open spec fn x_forwarded_for_hops(header: Seq<char>) -> Seq<IpAddress> {
    addresses_in(comma_segments(header))
}

/// The addresses that the given segments denote, each trimmed first; segments
/// that denote none are left out.
pub open spec fn addresses_in(segments: Seq<Seq<char>>) -> Seq<IpAddress> {
    present(segments.map_values(|segment: Seq<char>| token_address(trimmed(segment))))
}

/// The hops that an `X-Real-IP` header value names: the one address that the
/// whole value denotes, or none.
pub open spec fn real_ip_hops(header: Seq<char>) -> Seq<IpAddress> {
    match token_address(header) {
        Some(ip) => seq![ip],
        None => Seq::empty(),
    }
}

/// A quoted token denotes the address that the text inside the quotes
/// denotes.
pub proof fn lemma_quoted_token(text: Seq<char>)
    ensures
        token_address(quoted(text)) == ip_literal(unbracketed(text)),
{
    lemma_unquoted_of_quoted(text, Seq::empty());
    assert(quoted(text) + Seq::<char>::empty() == quoted(text));
}

/// A token in quotes and the same token without them denote the same address,
/// as long as the token does not itself open with a quote.
pub proof fn lemma_quotes_do_not_matter(token: Seq<char>)
    requires
        token.len() == 0 || token[0] != '"',
    ensures
        token_address(quoted(token)) == token_address(token),
{
    lemma_quoted_token(token);
}

/// A bracketed token denotes the address that the text inside the brackets
/// denotes.
pub proof fn lemma_bracketed_token(text: Seq<char>)
    ensures
        token_address(bracketed(text)) == ip_literal(text),
{
    assert(bracketed(text)[0] == '[');
    lemma_unbracketed_of_bracketed(text);
}

proof fn lemma_present_step<T>(items: Seq<Option<T>>, i: int)
    requires
        0 <= i < items.len(),
    ensures
        present(items.take(i + 1)) == match items[i] {
            Some(value) => present(items.take(i)).push(value),
            None => present(items.take(i)),
        },
{
    assert(items.take(i + 1).drop_last() == items.take(i));
}

/// Reads the address that `token` denotes, if it denotes one.
pub fn read_token(token: &str) -> (r: Option<IpAddress>)
    ensures
        r == token_address(token@),
{
    let text = maybe_quoted(token);
    match &text {
        Cow::Borrowed(borrowed) => parse_ip(maybe_bracketed(borrowed)),
        Cow::Owned(owned) => parse_ip(maybe_bracketed(owned.as_str())),
    }
}

/// Picks the addresses out of the elements of a `Forwarded` header.
pub fn forwarded_addresses(elements: &[ForwardedFor]) -> (r: Vec<IpAddress>)
    ensures
        r@ == addresses_for(elements@),
{
    let ghost candidates = elements@.map_values(|element: ForwardedFor| element.address());
    let mut hops: Vec<IpAddress> = Vec::new();
    let mut i: usize = 0;
    while i < elements.len()
        invariant
            i <= elements.len(),
            candidates == elements@.map_values(|element: ForwardedFor| element.address()),
            hops@ == present(candidates.take(i as int)),
        decreases elements.len() - i,
    {
        proof {
            lemma_present_step(candidates, i as int);
        }
        match elements[i] {
            ForwardedFor::Ip(ip) => hops.push(ip),
            _ => {},
        }
        i += 1;
    }
    assert(candidates.take(i as int) == candidates);
    hops
}

/// Reads the addresses that the segments of an `X-Forwarded-For` header
/// denote, leaving out the segments that denote none.
pub fn segment_addresses(segments: &[&str]) -> (r: Vec<IpAddress>)
    ensures
        r@ == addresses_in(segments.deep_view()),
{
    let ghost candidates = segments.deep_view().map_values(
        |segment: Seq<char>| token_address(trimmed(segment)),
    );
    let mut hops: Vec<IpAddress> = Vec::new();
    let mut i: usize = 0;
    while i < segments.len()
        invariant
            i <= segments.len(),
            candidates == segments.deep_view().map_values(
                |segment: Seq<char>| token_address(trimmed(segment)),
            ),
            hops@ == present(candidates.take(i as int)),
        decreases segments.len() - i,
    {
        proof {
            lemma_present_step(candidates, i as int);
        }
        match read_token(trim(segments[i])) {
            Some(ip) => hops.push(ip),
            None => {},
        }
        i += 1;
    }
    assert(candidates.take(i as int) == candidates);
    hops
}

/// The addresses that the value of a `Forwarded` header names, in order.
pub fn extract_forwarded_header(header_value: &str) -> (r: Vec<IpAddress>)
    ensures
        r@ == forwarded_hops(header_value@),
{
    let elements = parse_forwarded(header_value);
    forwarded_addresses(elements.as_slice())
}

/// The addresses that the value of an `X-Forwarded-For` header names, in
/// order.
pub fn extract_x_forwarded_for_header(header_value: &str) -> (r: Vec<IpAddress>)
    ensures
        r@ == x_forwarded_for_hops(header_value@),
{
    let segments = split_commas(header_value);
    segment_addresses(segments.as_slice())
}

/// The address that the value of an `X-Real-IP` header names: one or none.
pub fn extract_real_ip_header(header_value: &str) -> (r: Vec<IpAddress>)
    ensures
        r@ == real_ip_hops(header_value@),
{
    let mut hops: Vec<IpAddress> = Vec::new();
    match read_token(header_value) {
        Some(ip) => hops.push(ip),
        None => {},
    }
    hops
}

} // verus!
