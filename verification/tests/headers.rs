use real_ip::address::IpAddress;
use real_ip::headers::{
    extract_forwarded_header, extract_real_ip_header, extract_x_forwarded_for_header,
    forwarded_addresses, read_token, segment_addresses, ForwardedFor,
};

fn v4(a: u8, b: u8, c: u8, d: u8) -> IpAddress {
    IpAddress::V4([a, b, c, d])
}

fn v6(groups: [u16; 8]) -> IpAddress {
    let mut octets = [0u8; 16];
    for (i, group) in groups.iter().enumerate() {
        octets[2 * i] = (group >> 8) as u8;
        octets[2 * i + 1] = (group & 0xff) as u8;
    }
    IpAddress::V6(octets)
}

#[test]
fn forwarded_header_lists_its_for_addresses() {
    assert_eq!(
        vec![v4(10, 10, 10, 10), v4(10, 10, 10, 20)],
        extract_forwarded_header("for=10.10.10.10, for=10.10.10.20;proto=https")
    );
}

#[test]
fn forwarded_header_with_other_parameters() {
    assert_eq!(
        vec![v4(192, 0, 2, 60), v4(192, 168, 10, 10)],
        extract_forwarded_header("for=192.0.2.60;proto=http;by=203.0.113.43,for=192.168.10.10")
    );
}

#[test]
fn forwarded_parameter_names_ignore_case() {
    assert_eq!(vec![v4(1, 2, 3, 4)], extract_forwarded_header("For=1.2.3.4"));
}

#[test]
fn forwarded_quoted_ipv6_with_port() {
    assert_eq!(
        vec![v6([0x2001, 0xdb8, 0xcafe, 0, 0, 0, 0, 0x17])],
        extract_forwarded_header("for=\"[2001:db8:cafe::17]:4711\"")
    );
}

#[test]
fn forwarded_ipv4_with_port() {
    assert_eq!(vec![v4(192, 0, 2, 43)], extract_forwarded_header("for=192.0.2.43:47011"));
}

#[test]
fn forwarded_token_identifiers_are_left_out() {
    assert_eq!(
        vec![v4(192, 0, 2, 1)],
        extract_forwarded_header("for=_hidden, for=unknown, for=192.0.2.1, for=_SEVKISEK")
    );
}

#[test]
fn forwarded_element_without_for_is_left_out() {
    assert_eq!(Vec::<IpAddress>::new(), extract_forwarded_header("proto=https;by=10.0.0.1"));
    assert_eq!(
        vec![v4(10, 0, 0, 2)],
        extract_forwarded_header("proto=https, for=10.0.0.2")
    );
}

#[test]
fn forwarded_malformed_elements_are_skipped() {
    assert_eq!(
        vec![v4(10, 0, 0, 1), v4(10, 0, 0, 3)],
        extract_forwarded_header("for=10.0.0.1, garbage, for=10.0.0.3")
    );
    assert_eq!(
        vec![v4(10, 0, 0, 3)],
        extract_forwarded_header("for=not-an-ip, for=10.0.0.1:port, for=10.0.0.3")
    );
}

#[test]
fn forwarded_bare_ipv6_is_not_an_address() {
    assert_eq!(Vec::<IpAddress>::new(), extract_forwarded_header("for=2001:db8::1"));
}

#[test]
fn forwarded_empty_value_has_no_hops() {
    assert_eq!(Vec::<IpAddress>::new(), extract_forwarded_header(""));
}

#[test]
fn forwarded_addresses_keeps_the_addresses_in_order() {
    let a = v4(1, 2, 3, 4);
    let b = v6([0, 0, 0, 0, 0, 0, 0, 1]);
    let elements = [
        ForwardedFor::Malformed,
        ForwardedFor::Ip(a),
        ForwardedFor::Absent,
        ForwardedFor::Unknown,
        ForwardedFor::Ip(b),
        ForwardedFor::Obfuscated,
        ForwardedFor::Ip(a),
    ];
    assert_eq!(vec![a, b, a], forwarded_addresses(&elements));
}

#[test]
fn forwarded_addresses_of_nothing() {
    assert_eq!(Vec::<IpAddress>::new(), forwarded_addresses(&[]));
    assert_eq!(
        Vec::<IpAddress>::new(),
        forwarded_addresses(&[ForwardedFor::Unknown, ForwardedFor::Malformed])
    );
}

#[test]
fn x_forwarded_for_lists_its_addresses() {
    assert_eq!(
        vec![v4(10, 10, 10, 10), v4(10, 10, 10, 20)],
        extract_x_forwarded_for_header("10.10.10.10,10.10.10.20")
    );
}

#[test]
fn x_forwarded_for_single_address() {
    assert_eq!(vec![v4(10, 10, 10, 10)], extract_x_forwarded_for_header("10.10.10.10"));
}

#[test]
fn x_forwarded_for_trims_each_segment() {
    assert_eq!(
        vec![v4(192, 0, 2, 1), v4(10, 10, 10, 10), v4(10, 0, 0, 7)],
        extract_x_forwarded_for_header("192.0.2.1, 10.10.10.10 ,\t10.0.0.7  ")
    );
}

#[test]
fn x_forwarded_for_quoted_segment() {
    assert_eq!(vec![v4(10, 10, 10, 10)], extract_x_forwarded_for_header("\"10.10.10.10\""));
    assert_eq!(
        vec![v4(192, 0, 2, 1), v4(10, 10, 10, 10)],
        extract_x_forwarded_for_header("192.0.2.1, \"10.10.10.10\"")
    );
}

#[test]
fn x_forwarded_for_bracketed_ipv6() {
    assert_eq!(
        vec![v6([0, 0, 0, 0, 0, 0, 0, 1])],
        extract_x_forwarded_for_header("[::1]")
    );
    assert_eq!(
        vec![v6([0, 0, 0, 0, 0, 0, 0, 1]), v6([0x2001, 0xdb8, 0, 0, 0, 0, 0, 0x45])],
        extract_x_forwarded_for_header("::1, \"[2001:db8::45]\"")
    );
}

#[test]
fn x_forwarded_for_drops_what_is_no_address() {
    assert_eq!(
        vec![v4(1, 2, 3, 4), v4(5, 6, 7, 8)],
        extract_x_forwarded_for_header("1.2.3.4, unknown, 256.0.0.1, , 5.6.7.8, 1.2.3")
    );
}

#[test]
fn x_forwarded_for_comma_inside_quotes_does_not_separate() {
    assert_eq!(
        vec![v4(5, 6, 7, 8)],
        extract_x_forwarded_for_header("\"1.2.3.4, 9.9.9.9\", 5.6.7.8")
    );
}

#[test]
fn x_forwarded_for_empty_value_has_no_hops() {
    assert_eq!(Vec::<IpAddress>::new(), extract_x_forwarded_for_header(""));
    assert_eq!(Vec::<IpAddress>::new(), extract_x_forwarded_for_header(" , ,"));
}

#[test]
fn segment_addresses_reads_each_segment() {
    assert_eq!(
        vec![v4(10, 0, 0, 1), v6([0, 0, 0, 0, 0, 0, 0, 1]), v4(10, 0, 0, 2)],
        segment_addresses(&[" 10.0.0.1 ", "junk", "\"[::1]\"", "", "10.0.0.2"])
    );
    assert_eq!(Vec::<IpAddress>::new(), segment_addresses(&[]));
}

#[test]
fn x_real_ip_single_address() {
    assert_eq!(vec![v4(10, 10, 10, 10)], extract_real_ip_header("10.10.10.10"));
}

#[test]
fn x_real_ip_quoted_and_bracketed() {
    assert_eq!(vec![v4(10, 10, 10, 10)], extract_real_ip_header("\"10.10.10.10\""));
    assert_eq!(vec![v6([0, 0, 0, 0, 0, 0, 0, 1])], extract_real_ip_header("[::1]"));
    assert_eq!(vec![v6([0, 0, 0, 0, 0, 0, 0, 1])], extract_real_ip_header("\"[::1]\""));
    assert_eq!(vec![v6([0, 0, 0, 0, 0, 0, 0, 1])], extract_real_ip_header("::1"));
}

#[test]
fn x_real_ip_is_one_value_not_a_list() {
    assert_eq!(Vec::<IpAddress>::new(), extract_real_ip_header("10.10.10.10,10.10.10.20"));
}

#[test]
fn x_real_ip_is_not_trimmed() {
    assert_eq!(Vec::<IpAddress>::new(), extract_real_ip_header(" 10.10.10.10"));
}

#[test]
fn x_real_ip_malformed_has_no_hops() {
    assert_eq!(Vec::<IpAddress>::new(), extract_real_ip_header("localhost"));
    assert_eq!(Vec::<IpAddress>::new(), extract_real_ip_header(""));
}

#[test]
fn read_token_reads_both_families() {
    assert_eq!(Some(v4(127, 0, 0, 1)), read_token("127.0.0.1"));
    assert_eq!(Some(v4(255, 255, 255, 255)), read_token("255.255.255.255"));
    assert_eq!(
        Some(v6([0x2001, 0xdb8, 0, 0, 0, 0, 0, 0x45])),
        read_token("2001:db8::45")
    );
    assert_eq!(
        Some(v6([0, 0, 0, 0, 0, 0xffff, 0xc000, 0x0201])),
        read_token("[::ffff:192.0.2.1]")
    );
}

#[test]
fn read_token_rejects_what_is_no_literal() {
    assert_eq!(None, read_token("127.0.0.1:80"));
    assert_eq!(None, read_token("127.0.0.01"));
    assert_eq!(None, read_token("[[::1]]"));
    assert_eq!(None, read_token("10.0.0.0/8"));
}

#[test]
fn quoted_and_bare_token_read_alike() {
    assert_eq!(read_token("10.10.10.10"), read_token("\"10.10.10.10\""));
    assert_eq!(read_token("[::1]"), read_token("\"[::1]\""));
    assert_eq!(read_token("nonsense"), read_token("\"nonsense\""));
}
