use rushtle::ip::{read_ip, read_ipv4, read_ipv6, read_target, write_ipv4, IpAddr, SocketTarget};
use rushtle::ip_text::{write_ip, write_ipv6};

fn chars(s: &str) -> Vec<char> {
    s.chars().collect()
}

#[test]
fn dotted_addresses() {
    assert_eq!(read_ipv4(&chars("10.0.0.1")), Some([10, 0, 0, 1]));
    assert_eq!(read_ipv4(&chars("255.255.255.255")), Some([255, 255, 255, 255]));
    for s in [
        "", "1.2.3", "1.2.3.4.5", "256.0.0.1", "01.2.3.4", "1.2.3.4 ", "+1.2.3.4", "1..2.3", "a.b.c.d",
        "1000.1.1.1",
    ] {
        assert_eq!(read_ipv4(&chars(s)), None, "{:?}", s);
    }
    assert_eq!(write_ipv4([10, 96, 0, 255]), "10.96.0.255");
}

#[test]
fn dotted_text_reads_back() {
    for a in [[0u8, 0, 0, 0], [127, 0, 0, 53], [192, 168, 100, 9]] {
        assert_eq!(read_ipv4(&chars(&write_ipv4(a))), Some(a));
    }
}

#[test]
fn six_addresses() {
    assert_eq!(read_ipv6(&chars("::")), Some([0; 8]));
    assert_eq!(read_ipv6(&chars("::1")), Some([0, 0, 0, 0, 0, 0, 0, 1]));
    assert_eq!(read_ipv6(&chars("1:2:3:4:5:6:7:8")), Some([1, 2, 3, 4, 5, 6, 7, 8]));
    assert_eq!(read_ipv6(&chars("fe80::1:0:ABCD")), Some([0xfe80, 0, 0, 0, 0, 1, 0, 0xabcd]));
    assert_eq!(read_ipv6(&chars("1:2:3:4:5:6:7::")), Some([1, 2, 3, 4, 5, 6, 7, 0]));
    assert_eq!(read_ipv6(&chars("::ffff:1.2.3.4")), Some([0, 0, 0, 0, 0, 0xffff, 0x102, 0x304]));
    assert_eq!(read_ipv6(&chars("1:2:3:4:5:6:1.2.3.4")), Some([1, 2, 3, 4, 5, 6, 0x102, 0x304]));
    for s in [
        "", ":", ":::", "1:2:3:4:5:6:7", "1:2:3:4:5:6:7:8:9", "::1::", "12345::", "g::", "1.2.3.4::",
        "1:2:3:4:5:6:7:8::", "::1%1", "1:", "[::1]",
    ] {
        assert_eq!(read_ipv6(&chars(s)), None, "{:?}", s);
    }
}

#[test]
fn either_family() {
    assert_eq!(read_ip(&chars("1.1.1.1")), Some(IpAddr::V4([1, 1, 1, 1])));
    assert_eq!(read_ip(&chars("::2")), Some(IpAddr::V6([0, 0, 0, 0, 0, 0, 0, 2])));
    assert_eq!(read_ip(&chars("localhost")), None);
}

#[test]
fn six_texts() {
    let samples: Vec<([u16; 8], &str)> = vec![
        ([0; 8], "::"),
        ([0, 0, 0, 0, 0, 0, 0, 1], "::1"),
        ([1, 0, 0, 0, 0, 0, 0, 0], "1::"),
        ([1, 2, 3, 4, 5, 6, 7, 8], "1:2:3:4:5:6:7:8"),
        ([0xfe80, 0, 0, 0, 0x1234, 0, 0, 0xab], "fe80::1234:0:0:ab"),
        ([1, 0, 0, 2, 0, 0, 0, 3], "1:0:0:2::3"),
        ([1, 0, 2, 0, 3, 0, 4, 0], "1:0:2:0:3:0:4:0"),
        ([0, 0, 0, 0, 0, 0xffff, 0xc0a8, 0x0102], "::ffff:192.168.1.2"),
        ([0, 0, 0, 0, 0, 0, 0xc0a8, 0x0102], "::c0a8:102"),
        ([0x2001, 0xdb8, 0, 1, 1, 1, 1, 1], "2001:db8:0:1:1:1:1:1"),
    ];
    for (g, s) in samples {
        assert_eq!(write_ipv6(g), s);
        assert_eq!(read_ipv6(&chars(s)), Some(g));
    }
}

#[test]
fn address_text_reads_back_and_tells_the_family() {
    let v4 = IpAddr::V4([10, 0, 0, 7]);
    let v6 = IpAddr::V6([0x2001, 0xdb8, 0, 0, 0, 0, 0, 0x42]);
    assert_eq!(read_ip(&chars(&write_ip(&v4))), Some(v4));
    assert_eq!(read_ip(&chars(&write_ip(&v6))), Some(v6));
    assert!(!write_ip(&v4).contains(':'));
    assert!(write_ip(&v6).contains(':'));
    assert_eq!(write_ip(&v6), "2001:db8::42");
}

#[test]
fn datagram_targets() {
    assert_eq!(
        read_target("8.8.8.8", 53),
        Some(SocketTarget::V4 { octets: [8, 8, 8, 8], port: 53 })
    );
    assert_eq!(
        read_target("[::1]", 53),
        Some(SocketTarget::V6 { groups: [0, 0, 0, 0, 0, 0, 0, 1], scope: 0, port: 53 })
    );
    assert_eq!(
        read_target("[fe80::1%3]", 9),
        Some(SocketTarget::V6 { groups: [0xfe80, 0, 0, 0, 0, 0, 0, 1], scope: 3, port: 9 })
    );
    assert_eq!(read_target("::1", 53), None);
    assert_eq!(read_target("example.org", 53), None);
    assert_eq!(read_target("[]", 53), None);
    assert_eq!(read_target("[fe80::1%]", 53), None);
}
