//! Addresses: literals, networks, text.

use sumidero::ip::show::{show_endpoint, show_ip};
use sumidero::ip::{parse_ip, Ip, Net};

fn parsed(text: &str) -> Option<Ip> {
    let chars: Vec<char> = text.chars().collect();
    parse_ip(&chars)
}

#[test]
fn address_literals() {
    assert_eq!(parsed("192.168.1.100"), Some(Ip::V4(0xc0a8_0164)));
    assert_eq!(parsed("0.0.0.0"), Some(Ip::V4(0)));
    assert_eq!(parsed("::"), Some(Ip::V6(0)));
    assert_eq!(parsed("::1"), Some(Ip::V6(1)));
    assert_eq!(parsed("2001:DB8::1"), Some(Ip::V6(0x2001_0db8 << 96 | 1)));
    assert_eq!(parsed("::ffff:1.2.3.4"), Some(Ip::V6(0xffff_0102_0304)));
    assert_eq!(parsed("1:2:3:4:5:6:7:8").is_some(), true);
    for bad in [
        "", "1.2.3", "1.2.3.256", "01.2.3.4", "1.2.3.4.5", ":::", "1::2::3", "12345::", "g::",
        "1:2:3:4:5:6:7", "1:2:3:4:5:6:7:8:9", "1.2.3.4::", "::1 ", "1.2.3.4/8",
    ] {
        assert_eq!(parsed(bad), None, "{bad:?}");
    }
}

#[test]
fn address_texts() {
    for text in [
        "0.0.0.0",
        "127.0.0.1",
        "255.255.255.255",
        "::",
        "::1",
        "1::",
        "2001:db8::1",
        "1:0:0:2::3",
        "::ffff:192.168.1.1",
        "1:2:3:4:5:6:7:8",
        "1:0:3:4:5:6:7:8",
        "fe80::a00:27ff:fe4e:66a1",
    ] {
        assert_eq!(show_ip(parsed(text).unwrap()), text);
    }
    assert_eq!(show_ip(parsed("1:0:0:2:0:0:3:4").unwrap()), "1::2:0:0:3:4");
    assert_eq!(show_ip(parsed("2001:0DB8:0:0::1").unwrap()), "2001:db8::1");
}

#[test]
fn endpoint_texts() {
    assert_eq!(show_endpoint(Ip::V4(0), 53), "0.0.0.0:53");
    assert_eq!(show_endpoint(Ip::V6(0), 53), "[::]:53");
}

#[test]
fn networks_cover_their_addresses() {
    let net = Net {
        base: parsed("192.168.0.0").unwrap(),
        prefix: 16,
    };
    assert!(net.contains(&parsed("192.168.255.1").unwrap()));
    assert!(!net.contains(&parsed("192.169.0.1").unwrap()));
    assert!(!net.contains(&parsed("::1").unwrap()));
    let host = Net {
        base: parsed("::1").unwrap(),
        prefix: 128,
    };
    assert!(host.contains(&parsed("::1").unwrap()));
    assert!(!host.contains(&parsed("::2").unwrap()));
    let all = Net {
        base: Ip::V4(0),
        prefix: 0,
    };
    assert!(all.contains(&parsed("8.8.8.8").unwrap()));
    let nothing = Net {
        base: Ip::V4(0),
        prefix: 33,
    };
    assert!(!nothing.contains(&Ip::V4(0)));
}

#[test]
fn special_addresses() {
    assert!(Ip::V4(0).is_unspecified() && Ip::V6(0).is_unspecified());
    assert!(Ip::V4(0x7f00_0001).is_loopback() && Ip::V6(1).is_loopback());
    assert!(!Ip::V4(0x8000_0000).is_loopback() && !Ip::V6(2).is_loopback());
}
