use scanner::address::{
    find_double_colon, join_octets, parse_dotted_quad, parse_full_ipv6, parse_group, parse_groups,
    parse_ip_address, parse_ipv6, parse_octet, IpAddress,
};

fn chars(text: &str) -> Vec<char> {
    text.chars().collect()
}

#[test]
fn loopback_v6_is_accepted() {
    assert_eq!(parse_ip_address("::1"), Some(IpAddress::V6([0, 0, 0, 0, 0, 0, 0, 1])));
}

#[test]
fn host_name_is_refused() {
    assert_eq!(parse_ip_address("not.an.ip"), None);
    assert_eq!(parse_ip_address("bogus"), None);
    assert_eq!(parse_ip_address("localhost"), None);
    assert_eq!(parse_ip_address(""), None);
}

#[test]
fn dotted_quads_are_accepted() {
    assert_eq!(parse_ip_address("127.0.0.1"), Some(IpAddress::V4([127, 0, 0, 1])));
    assert_eq!(parse_ip_address("10.255.255.1"), Some(IpAddress::V4([10, 255, 255, 1])));
    assert_eq!(parse_ip_address("0.0.0.0"), Some(IpAddress::V4([0, 0, 0, 0])));
    assert_eq!(parse_ip_address("255.255.255.255"), Some(IpAddress::V4([255, 255, 255, 255])));
    assert_eq!(parse_ip_address("192.168.1.20"), Some(IpAddress::V4([192, 168, 1, 20])));
}

#[test]
fn malformed_dotted_quads_are_refused() {
    assert_eq!(parse_ip_address("256.0.0.1"), None);
    assert_eq!(parse_ip_address("1.2.3"), None);
    assert_eq!(parse_ip_address("1.2.3.4.5"), None);
    assert_eq!(parse_ip_address("1.2.3."), None);
    assert_eq!(parse_ip_address(".1.2.3"), None);
    assert_eq!(parse_ip_address("1..2.3"), None);
    assert_eq!(parse_ip_address("01.2.3.4"), None);
    assert_eq!(parse_ip_address("1.2.3.004"), None);
    assert_eq!(parse_ip_address("1.2.3.0004"), None);
    assert_eq!(parse_ip_address("1.2.3.4 "), None);
    assert_eq!(parse_ip_address(" 1.2.3.4"), None);
    assert_eq!(parse_ip_address("+1.2.3.4"), None);
    assert_eq!(parse_ip_address("1.2.3.a"), None);
    assert_eq!(parse_ip_address("1.2.3.4/24"), None);
    assert_eq!(parse_ip_address("127.0.0.1:80"), None);
}

#[test]
fn full_v6_literals_are_accepted() {
    assert_eq!(
        parse_ip_address("1:2:3:4:5:6:7:8"),
        Some(IpAddress::V6([1, 2, 3, 4, 5, 6, 7, 8]))
    );
    assert_eq!(
        parse_ip_address("2001:0db8:85a3:0000:0000:8a2e:0370:7334"),
        Some(IpAddress::V6([0x2001, 0x0db8, 0x85a3, 0, 0, 0x8a2e, 0x0370, 0x7334]))
    );
    assert_eq!(
        parse_ip_address("FFFF:ffff:AbCd:0:0:0:0:1"),
        Some(IpAddress::V6([0xffff, 0xffff, 0xabcd, 0, 0, 0, 0, 1]))
    );
}

#[test]
fn compressed_v6_literals_are_accepted() {
    assert_eq!(parse_ip_address("::"), Some(IpAddress::V6([0, 0, 0, 0, 0, 0, 0, 0])));
    assert_eq!(parse_ip_address("1::"), Some(IpAddress::V6([1, 0, 0, 0, 0, 0, 0, 0])));
    assert_eq!(parse_ip_address("fe80::1"), Some(IpAddress::V6([0xfe80, 0, 0, 0, 0, 0, 0, 1])));
    assert_eq!(
        parse_ip_address("2001:db8::8a2e:370:7334"),
        Some(IpAddress::V6([0x2001, 0xdb8, 0, 0, 0, 0x8a2e, 0x370, 0x7334]))
    );
    assert_eq!(
        parse_ip_address("1:2:3:4:5:6:7::"),
        Some(IpAddress::V6([1, 2, 3, 4, 5, 6, 7, 0]))
    );
    assert_eq!(
        parse_ip_address("::2:3:4:5:6:7:8"),
        Some(IpAddress::V6([0, 2, 3, 4, 5, 6, 7, 8]))
    );
    assert_eq!(
        parse_ip_address("1:2:3::6:7:8"),
        Some(IpAddress::V6([1, 2, 3, 0, 0, 6, 7, 8]))
    );
}

#[test]
fn v6_literals_may_end_in_a_dotted_quad() {
    assert_eq!(
        parse_ip_address("::ffff:192.168.1.20"),
        Some(IpAddress::V6([0, 0, 0, 0, 0, 0xffff, 0xc0a8, 0x0114]))
    );
    assert_eq!(
        parse_ip_address("::1.2.3.4"),
        Some(IpAddress::V6([0, 0, 0, 0, 0, 0, 0x0102, 0x0304]))
    );
    assert_eq!(
        parse_ip_address("1:2:3:4:5:6:255.254.253.252"),
        Some(IpAddress::V6([1, 2, 3, 4, 5, 6, 0xfffe, 0xfdfc]))
    );
    assert_eq!(
        parse_ip_address("64:ff9b::10.0.0.1"),
        Some(IpAddress::V6([0x64, 0xff9b, 0, 0, 0, 0, 0x0a00, 0x0001]))
    );
}

#[test]
fn malformed_v6_literals_are_refused() {
    assert_eq!(parse_ip_address(":"), None);
    assert_eq!(parse_ip_address(":::"), None);
    assert_eq!(parse_ip_address(":1"), None);
    assert_eq!(parse_ip_address("1:"), None);
    assert_eq!(parse_ip_address("1::2::3"), None);
    assert_eq!(parse_ip_address("1:2:3:4:5:6:7"), None);
    assert_eq!(parse_ip_address("1:2:3:4:5:6:7:8:9"), None);
    assert_eq!(parse_ip_address("1::2:3:4:5:6:7:8"), None);
    assert_eq!(parse_ip_address("1:2:3:4:5:6:7:8::"), None);
    assert_eq!(parse_ip_address("12345::"), None);
    assert_eq!(parse_ip_address("g::1"), None);
    assert_eq!(parse_ip_address("fe80::1%eth0"), None);
    assert_eq!(parse_ip_address("[::1]"), None);
    assert_eq!(parse_ip_address("::1 "), None);
    assert_eq!(parse_ip_address("1:2:3:4:5:6:7:1.2.3.4"), None);
    assert_eq!(parse_ip_address("1:2:3:4:5:6::1.2.3.4"), None);
    assert_eq!(parse_ip_address("1.2.3.4::"), None);
    assert_eq!(parse_ip_address("::1.2.3.4:5"), None);
    assert_eq!(parse_ip_address("1:1.2.3.4"), None);
    assert_eq!(parse_ip_address("::1.2.3"), None);
    assert_eq!(parse_ip_address("::1.2.3.256"), None);
}

#[test]
fn octets_are_read_strictly() {
    assert_eq!(parse_octet(&chars("0")), Some(0));
    assert_eq!(parse_octet(&chars("9")), Some(9));
    assert_eq!(parse_octet(&chars("10")), Some(10));
    assert_eq!(parse_octet(&chars("255")), Some(255));
    assert_eq!(parse_octet(&chars("256")), None);
    assert_eq!(parse_octet(&chars("00")), None);
    assert_eq!(parse_octet(&chars("010")), None);
    assert_eq!(parse_octet(&chars("1000")), None);
    assert_eq!(parse_octet(&chars("")), None);
    assert_eq!(parse_octet(&chars("1a")), None);
}

#[test]
fn groups_are_up_to_four_hex_digits() {
    assert_eq!(parse_group(&chars("0")), Some(0));
    assert_eq!(parse_group(&chars("0000")), Some(0));
    assert_eq!(parse_group(&chars("a")), Some(10));
    assert_eq!(parse_group(&chars("F")), Some(15));
    assert_eq!(parse_group(&chars("10")), Some(16));
    assert_eq!(parse_group(&chars("fFfF")), Some(0xffff));
    assert_eq!(parse_group(&chars("00001")), None);
    assert_eq!(parse_group(&chars("")), None);
    assert_eq!(parse_group(&chars("g")), None);
    assert_eq!(parse_group(&chars("1.2")), None);
}

#[test]
fn dotted_quad_gives_four_octets() {
    assert_eq!(parse_dotted_quad(&chars("1.2.3.4")), Some([1, 2, 3, 4]));
    assert_eq!(parse_dotted_quad(&chars("1.2.3")), None);
    assert_eq!(parse_dotted_quad(&chars("::1")), None);
}

#[test]
fn group_lists_are_read_in_order() {
    assert_eq!(parse_groups(&chars("1:2:3"), false), Some(vec![1, 2, 3]));
    assert_eq!(parse_groups(&chars("abcd"), false), Some(vec![0xabcd]));
    assert_eq!(parse_groups(&chars("1:2:3.4.5.6"), true), Some(vec![1, 2, 0x0304, 0x0506]));
    assert_eq!(parse_groups(&chars("1:2:3.4.5.6"), false), None);
    assert_eq!(parse_groups(&chars("3.4.5.6:1"), true), None);
    assert_eq!(parse_groups(&chars(""), true), None);
    assert_eq!(parse_groups(&chars("1::2"), true), None);
}

#[test]
fn first_double_colon_is_found() {
    assert_eq!(find_double_colon(&chars("::")), Some(0));
    assert_eq!(find_double_colon(&chars("1::2")), Some(1));
    assert_eq!(find_double_colon(&chars("1::2::3")), Some(1));
    assert_eq!(find_double_colon(&chars("1:2:3::")), Some(5));
    assert_eq!(find_double_colon(&chars(":::")), Some(0));
    assert_eq!(find_double_colon(&chars("1:2:3")), None);
    assert_eq!(find_double_colon(&chars(":")), None);
    assert_eq!(find_double_colon(&chars("")), None);
}

#[test]
fn octets_join_high_above_low() {
    assert_eq!(join_octets(0, 0), 0);
    assert_eq!(join_octets(0, 1), 1);
    assert_eq!(join_octets(1, 0), 256);
    assert_eq!(join_octets(0xc0, 0xa8), 0xc0a8);
    assert_eq!(join_octets(255, 255), 65535);
}

#[test]
fn parse_ipv6_gives_eight_groups() {
    assert_eq!(parse_ipv6(&chars("::1")), Some([0, 0, 0, 0, 0, 0, 0, 1]));
    assert_eq!(parse_ipv6(&chars("127.0.0.1")), None);
}

#[test]
fn parse_full_ipv6_needs_eight_groups() {
    assert_eq!(parse_full_ipv6(&chars("1:2:3:4:5:6:7:8")), Some([1, 2, 3, 4, 5, 6, 7, 8]));
    assert_eq!(parse_full_ipv6(&chars("1:2:3:4:5:6:7.8.9.10")), Some([1, 2, 3, 4, 5, 6, 0x0708, 0x090a]));
    assert_eq!(parse_full_ipv6(&chars("1:2:3:4:5:6:7")), None);
    assert_eq!(parse_full_ipv6(&chars("::1")), None);
}

#[test]
fn more_literals_of_both_kinds() {
    assert_eq!(parse_ip_address("ABCD::ef01"), Some(IpAddress::V6([0xabcd, 0, 0, 0, 0, 0, 0, 0xef01])));
    assert_eq!(parse_ip_address("0:0:0:0:0:0:0:0"), Some(IpAddress::V6([0; 8])));
    assert_eq!(parse_ip_address("::0.0.0.0"), Some(IpAddress::V6([0; 8])));
    assert_eq!(
        parse_ip_address("1:2::3:4:5.6.7.8"),
        Some(IpAddress::V6([1, 2, 0, 0, 3, 4, 0x0506, 0x0708]))
    );
    assert_eq!(parse_ip_address("::01.2.3.4"), None);
    assert_eq!(parse_ip_address("0000:0000::"), Some(IpAddress::V6([0; 8])));
    assert_eq!(parse_ip_address("1:2:3:4::5:6:7"), Some(IpAddress::V6([1, 2, 3, 4, 0, 5, 6, 7])));
    assert_eq!(parse_ip_address("1:2:3:4::5:6:7:8"), None);
}
