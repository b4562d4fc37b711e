use cfproxy::addr::{get_real_ip_addr, parse_ip_literal, IpAddress};

fn v4(a: u8, b: u8, c: u8, d: u8) -> Option<IpAddress> {
    Some(IpAddress::V4([a, b, c, d]))
}

fn v6(g: [u16; 8]) -> Option<IpAddress> {
    Some(IpAddress::V6(g))
}

#[test]
fn ipv4_literals() {
    assert_eq!(parse_ip_literal("127.0.0.1"), v4(127, 0, 0, 1));
    assert_eq!(parse_ip_literal("0.0.0.0"), v4(0, 0, 0, 0));
    assert_eq!(parse_ip_literal("255.255.255.255"), v4(255, 255, 255, 255));
    for bad in [
        "01.2.3.4", "1.2.3.04", "256.1.1.1", "1.2.3", "1.2.3.4.5", "1..2.3", "1.2.3.4 ",
        " 1.2.3.4", "1.2.3.1234", "", "1.2.3.4:80", "localhost", "+1.2.3.4",
        "\u{661}.\u{662}.\u{663}.\u{664}",
    ] {
        assert_eq!(parse_ip_literal(bad), None, "{:?}", bad);
    }
}

#[test]
fn ipv6_literals() {
    assert_eq!(parse_ip_literal("::"), v6([0; 8]));
    assert_eq!(parse_ip_literal("::1"), v6([0, 0, 0, 0, 0, 0, 0, 1]));
    assert_eq!(parse_ip_literal("1::"), v6([1, 0, 0, 0, 0, 0, 0, 0]));
    assert_eq!(parse_ip_literal("1:2:3:4:5:6:7:8"), v6([1, 2, 3, 4, 5, 6, 7, 8]));
    assert_eq!(parse_ip_literal("1:2:3:4:5:6:7::"), v6([1, 2, 3, 4, 5, 6, 7, 0]));
    assert_eq!(parse_ip_literal("::1:2:3:4:5:6:7"), v6([0, 1, 2, 3, 4, 5, 6, 7]));
    assert_eq!(parse_ip_literal("1:2:3:4:5:6:1.2.3.4"), v6([1, 2, 3, 4, 5, 6, 0x0102, 0x0304]));
    assert_eq!(parse_ip_literal("::192.0.2.128"), v6([0, 0, 0, 0, 0, 0, 0xc000, 0x0280]));
    assert_eq!(parse_ip_literal("1:2:3:4:5::1.2.3.4"), v6([1, 2, 3, 4, 5, 0, 0x0102, 0x0304]));
    assert_eq!(parse_ip_literal("0000:ffff::"), v6([0, 0xffff, 0, 0, 0, 0, 0, 0]));
    assert_eq!(
        parse_ip_literal("abcd:EF01::2001:db8"),
        v6([0xabcd, 0xef01, 0, 0, 0, 0, 0x2001, 0xdb8])
    );
    assert_eq!(
        parse_ip_literal("2001:0db8:0000:0000:0000:ff00:0042:8329"),
        v6([0x2001, 0xdb8, 0, 0, 0, 0xff00, 0x42, 0x8329])
    );
    for bad in [
        ":", ":::", ":1::", "1:::2", "1::2:", "1:2:3:4:5:6:7", "1:2:3:4:5:6:7:8:9",
        "1:2:3:4:5:6:7:8::", "::1:2:3:4:5:6:7:8", "1:2:3:4:5:6:7:1.2.3.4",
        "1:2:3:4:5:6::1.2.3.4", "1.2.3.4::", "1.2.3.4:1::", "::1.2.3.4:5", "::1.2.3.256",
        "::01.2.3.4", "12345::", "fe80::1%eth0", "g::1", "[::1]", "1::2::3",
    ] {
        assert_eq!(parse_ip_literal(bad), None, "{:?}", bad);
    }
}

#[test]
fn ipv4_literal_gives_octets() {
    assert_eq!(parse_ip_literal("203.0.113.5"), Some(IpAddress::V4([203, 0, 113, 5])));
}

#[test]
fn ipv6_literal_gives_groups() {
    assert_eq!(
        parse_ip_literal("2001:db8::ff00:42:8329"),
        Some(IpAddress::V6([0x2001, 0xdb8, 0, 0, 0, 0xff00, 0x42, 0x8329]))
    );
    assert_eq!(
        parse_ip_literal("::ffff:192.0.2.128"),
        Some(IpAddress::V6([0, 0, 0, 0, 0, 0xffff, 0xc000, 0x0280]))
    );
}

#[test]
fn forwarded_ipv4_header_is_the_key() {
    let peer = IpAddress::V4([10, 0, 0, 1]);
    assert_eq!(get_real_ip_addr(Some("198.51.100.7"), peer), IpAddress::V4([198, 51, 100, 7]));
}

#[test]
fn forwarded_ipv6_header_is_the_key() {
    let peer = IpAddress::V4([10, 0, 0, 1]);
    assert_eq!(
        get_real_ip_addr(Some("::1"), peer),
        IpAddress::V6([0, 0, 0, 0, 0, 0, 0, 1])
    );
}

#[test]
fn missing_header_gives_peer() {
    let peer = IpAddress::V4([203, 0, 113, 5]);
    assert_eq!(get_real_ip_addr(None, peer), peer);
}

#[test]
fn empty_or_unreadable_header_gives_peer() {
    let peer = IpAddress::V6([0x2001, 0xdb8, 0, 0, 0, 0, 0, 9]);
    assert_eq!(get_real_ip_addr(Some(""), peer), peer);
    assert_eq!(get_real_ip_addr(Some("not-an-ip"), peer), peer);
    assert_eq!(get_real_ip_addr(Some("1.2.3.4, 5.6.7.8"), peer), peer);
}
