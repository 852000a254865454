//! The header fields of a request, and the choice of the one header family
//! that the hops are read from.

use crate::address::IpAddress;
use crate::headers::{
    extract_forwarded_header, extract_real_ip_header, extract_x_forwarded_for_header,
    forwarded_hops, real_ip_hops, x_forwarded_for_hops,
};
use http::header::ToStrError;
use http::{HeaderMap, HeaderValue, Request};
use vstd::prelude::*;

verus! {

/// `http::Request`, used only to reach its header map.
#[verifier::external_type_specification]
#[verifier::external_body]
#[verifier::reject_recursive_types(T)]
pub struct ExRequest<T>(Request<T>);

/// `http::HeaderMap`, known by the fields that lookups find in it.
#[verifier::external_type_specification]
#[verifier::external_body]
#[verifier::reject_recursive_types(T)]
pub struct ExHeaderMap<T>(HeaderMap<T>);

/// `http::HeaderValue`, known by its bytes.
#[verifier::external_type_specification]
#[verifier::external_body]
pub struct ExHeaderValue(HeaderValue);

/// `http::header::ToStrError`, the failure of `HeaderValue::to_str`. It says
/// no more than that the value is not text.
#[verifier::external_type_specification]
#[verifier::external_body]
pub struct ExToStrError(ToStrError);

/// What a header map holds: for each name under which a lookup finds a field,
/// the bytes of the first value of that field.
pub uninterp spec fn header_fields(headers: HeaderMap) -> Map<Seq<char>, Seq<u8>>;

/// The bytes of a header value.
pub uninterp spec fn header_value_bytes(value: HeaderValue) -> Seq<u8>;

/// `Request::headers` hands out the header map of the request. Nothing is
/// claimed of the map that comes back.
pub assume_specification<T>[ Request::<T>::headers ](request: &Request<T>) -> (headers: &HeaderMap<
    HeaderValue,
>)
;

/// Calls `HeaderMap::get` with a name given as text. Trusted: it finds a
/// value exactly for the names that the map holds a field under, and the
/// value it finds is the first one of that field.
#[verifier::external_body]
pub(crate) fn first_value<'a>(headers: &'a HeaderMap, name: &str) -> (r: Option<&'a HeaderValue>)
    ensures
        r is Some <==> header_fields(*headers).contains_key(name@),
        r matches Some(value) ==> header_value_bytes(*value) == header_fields(*headers)[name@],
{
    headers.get(name)
}

/// A byte that `HeaderValue::to_str` lets through: printable ASCII, or a tab.
pub open spec fn is_visible_ascii(byte: u8) -> bool {
    32 <= byte < 127 || byte == 9
}

/// Every byte is visible ASCII.
pub open spec fn is_visible_text(bytes: Seq<u8>) -> bool {
    forall|i: int| 0 <= i < bytes.len() ==> is_visible_ascii(#[trigger] bytes[i])
}

/// The characters that ASCII bytes stand for.
pub open spec fn ascii_text(bytes: Seq<u8>) -> Seq<char> {
    bytes.map_values(|byte: u8| byte as char)
}

/// `HeaderValue::to_str` yields the value as text when all of its bytes are
/// visible ASCII, and fails otherwise.
pub assume_specification[ HeaderValue::to_str ](value: &HeaderValue) -> (r: Result<&str, ToStrError>)
    ensures
        r is Ok <==> is_visible_text(header_value_bytes(*value)),
        r matches Ok(text) ==> text@ == ascii_text(header_value_bytes(*value)),
;

/// The text of the header `name`: none when no field has that name, and the
/// empty text when the first value of the field is not text.
pub open spec fn header_text_of(fields: Map<Seq<char>, Seq<u8>>, name: Seq<char>) -> Option<
    Seq<char>,
> {
    if !fields.contains_key(name) {
        None
    } else if is_visible_text(fields[name]) {
        Some(ascii_text(fields[name]))
    } else {
        Some(Seq::empty())
    }
}

/// The hops of the one header family that is in force: `Forwarded` when it is
/// there, else `X-Forwarded-For`, else `X-Real-IP`, else none. A family that
/// is there is in force whatever its value holds.
pub open spec fn selected_hops(
    forwarded: Option<Seq<char>>,
    x_forwarded_for: Option<Seq<char>>,
    x_real_ip: Option<Seq<char>>,
) -> Seq<IpAddress> {
    match (forwarded, x_forwarded_for, x_real_ip) {
        (Some(value), _, _) => forwarded_hops(value),
        (None, Some(value), _) => x_forwarded_for_hops(value),
        (None, None, Some(value)) => real_ip_hops(value),
        (None, None, None) => Seq::empty(),
    }
}

/// The hops that the fields of a request declare.
pub open spec fn header_hops(fields: Map<Seq<char>, Seq<u8>>) -> Seq<IpAddress> {
    selected_hops(
        header_text_of(fields, "forwarded"@),
        header_text_of(fields, "x-forwarded-for"@),
        header_text_of(fields, "x-real-ip"@),
    )
}

/// Where a `Forwarded` field is present, the hops are those of its value
/// alone: the other two families are not consulted, even when the value names
/// no address at all.
pub proof fn lemma_forwarded_takes_priority(fields: Map<Seq<char>, Seq<u8>>)
    requires
        fields.contains_key("forwarded"@),
    ensures
        header_hops(fields) == forwarded_hops(header_text_of(fields, "forwarded"@)->0),
{
}

/// Looks up the header `name` and reads its first value as text. A value that
/// is not text counts as empty.
pub fn header_text<'a>(headers: &'a HeaderMap, name: &str) -> (r: Option<&'a str>)
    ensures
        r.deep_view() == header_text_of(header_fields(*headers), name@),
{
    match first_value(headers, name) {
        None => None,
        Some(value) => match value.to_str() {
            Ok(text) => Some(text),
            Err(_) => {
                proof {
                    reveal_strlit("");
                }
                Some("")
            },
        },
    }
}

/// Reads the hops from the one header family that is in force, given the value
/// of each family that is present.
pub fn select_hops(
    forwarded: Option<&str>,
    x_forwarded_for: Option<&str>,
    x_real_ip: Option<&str>,
) -> (r: Vec<IpAddress>)
    ensures
        r@ == selected_hops(
            forwarded.deep_view(),
            x_forwarded_for.deep_view(),
            x_real_ip.deep_view(),
        ),
{
    if let Some(value) = forwarded {
        extract_forwarded_header(value)
    } else if let Some(value) = x_forwarded_for {
        extract_x_forwarded_for_header(value)
    } else if let Some(value) = x_real_ip {
        extract_real_ip_header(value)
    } else {
        Vec::new()
    }
}

/// The chain of hops that a header map declares, from the claimed origin to
/// the nearest proxy.
pub fn forwarded_for_from_headers(headers: &HeaderMap) -> (r: Vec<IpAddress>)
    ensures
        r@ == header_hops(header_fields(*headers)),
{
    let forwarded = header_text(headers, "forwarded");
    let x_forwarded_for = header_text(headers, "x-forwarded-for");
    let x_real_ip = header_text(headers, "x-real-ip");
    select_hops(forwarded, x_forwarded_for, x_real_ip)
}

} // verus!
