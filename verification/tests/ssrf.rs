use dingtalk_channel::safety::ssrf_guard::{
    assert_public_addresses, check_url, host_allowed, ipv4_blocked, ipv6_blocked, lookup_failed,
    matches_entry, parse, Address, UrlCheck,
};

fn v4(a: u32, b: u32, c: u32, d: u32) -> u32 {
    (a << 24) | (b << 16) | (c << 8) | d
}

#[test]
fn local_nets_are_blocked() {
    for ip in [
        v4(0, 0, 0, 0),
        v4(10, 255, 0, 1),
        v4(127, 0, 0, 1),
        v4(169, 254, 169, 254),
        v4(172, 16, 0, 0),
        v4(172, 31, 255, 255),
        v4(192, 168, 1, 1),
        v4(100, 64, 0, 1),
        v4(100, 127, 255, 255),
        v4(192, 0, 0, 8),
        v4(192, 0, 2, 1),
        v4(198, 18, 0, 1),
        v4(198, 19, 255, 255),
        v4(198, 51, 100, 7),
        v4(203, 0, 113, 9),
        v4(224, 0, 0, 1),
        v4(255, 255, 255, 255),
    ] {
        assert!(ipv4_blocked(ip), "{ip:x}");
    }
    for ip in [
        v4(8, 8, 8, 8),
        v4(172, 15, 255, 255),
        v4(172, 32, 0, 0),
        v4(100, 63, 255, 255),
        v4(100, 128, 0, 0),
        v4(192, 0, 1, 0),
        v4(198, 20, 0, 0),
        v4(223, 255, 255, 255),
    ] {
        assert!(!ipv4_blocked(ip), "{ip:x}");
    }
}

#[test]
fn local_addresses_of_the_sixth_version_are_blocked() {
    assert!(ipv6_blocked(&[0, 0, 0, 0, 0, 0, 0, 1]));
    assert!(ipv6_blocked(&[0, 0, 0, 0, 0, 0, 0, 0]));
    assert!(ipv6_blocked(&[0xfd00, 1, 0, 0, 0, 0, 0, 1]));
    assert!(ipv6_blocked(&[0xfe80, 0, 0, 0, 0, 0, 0, 1]));
    assert!(ipv6_blocked(&[0xff02, 0, 0, 0, 0, 0, 0, 1]));
    assert!(!ipv6_blocked(&[0x2001, 0x4860, 0x4860, 0, 0, 0, 0, 0x8888]));
    assert!(!ipv6_blocked(&[0, 0, 0, 0, 0, 0, 0, 2]));
    assert!(ipv6_blocked(&[0xfc00, 0, 0, 0, 0, 0, 0, 0]));
    assert!(ipv6_blocked(&[0xfdff, 0, 0, 0, 0, 0, 0, 1]));
    assert!(ipv6_blocked(&[0xfebf, 0, 0, 0, 0, 0, 0, 1]));
    // How a group is written does not matter, only what it is.
    assert!(!ipv6_blocked(&[0xfc, 0, 0, 0, 0, 0, 0, 1]));
    assert!(!ipv6_blocked(&[0xfd0, 0, 0, 0, 0, 0, 0, 1]));
    assert!(!ipv6_blocked(&[0xff, 0, 0, 0, 0, 0, 0, 1]));
    assert!(!ipv6_blocked(&[0xfbff, 0, 0, 0, 0, 0, 0, 1]));
    assert!(!ipv6_blocked(&[0xfe00, 0, 0, 0, 0, 0, 0, 1]));
}

#[test]
fn addresses_within_the_sixth_version_follow_the_fourth() {
    // ::ffff:127.0.0.1, ::ffff:10.1.2.3 and ::ffff:169.254.169.254
    assert!(ipv6_blocked(&[0, 0, 0, 0, 0, 0xffff, 0x7f00, 1]));
    assert!(ipv6_blocked(&[0, 0, 0, 0, 0, 0xffff, 0x0a01, 0x0203]));
    assert!(ipv6_blocked(&[0, 0, 0, 0, 0, 0xffff, 0xa9fe, 0xa9fe]));
    // ::ffff:8.8.8.8
    assert!(!ipv6_blocked(&[0, 0, 0, 0, 0, 0xffff, 0x0808, 0x0808]));
    // No address of the fourth version stands in these.
    assert!(!ipv6_blocked(&[0, 0, 0, 0, 1, 0xffff, 0x7f00, 1]));
    assert!(!ipv6_blocked(&[0, 0, 0, 0, 0, 0xfffe, 0x7f00, 1]));
}

#[test]
fn hosts_on_the_list_are_allowed() {
    let list = vec!["CDN.example.com.".to_string(), "*.corp.cn".to_string()];
    assert!(host_allowed("cdn.Example.com", &list));
    assert!(host_allowed("a.b.corp.cn.", &list));
    assert!(host_allowed("corp.cn", &list));
    assert!(!host_allowed("example.com", &list));
    assert!(!host_allowed("", &list));
    assert!(!host_allowed("cdn.example.com", &vec![]));
    assert!(matches_entry("x", "x"));
    assert!(!matches_entry("x", "y"));
}

#[test]
fn entry_admits_only_hosts_below_its_name() {
    let list = vec!["*.example.com".to_string()];
    assert!(host_allowed("example.com", &list));
    assert!(host_allowed("a.example.com", &list));
    assert!(!host_allowed("evilexample.com", &list));
    assert!(!host_allowed("example.com.evil.org", &list));
}

#[test]
fn addresses_are_read() {
    let p = parse("https://user:pw@host.cn:8443/path?x#y").unwrap();
    assert_eq!(p.scheme, "https");
    assert_eq!(p.host, "host.cn");
    assert_eq!(parse("http://[::1]:80/").unwrap().host, "::1");
    assert_eq!(parse("http://h?q").unwrap().host, "h");
    assert!(parse("ftp://h/").is_err());
    assert!(parse("h/").is_err());
    assert!(parse("http://").is_err());
    assert!(parse("http://:80/").is_err());
}

#[test]
fn urls_are_checked() {
    let list = vec!["127.0.0.1".to_string()];
    assert!(matches!(
        check_url("http://127.0.0.1/media.bin", &list),
        Ok(UrlCheck::Allowed)
    ));
    match check_url("http://127.0.0.1/media.bin", &vec![]) {
        Ok(UrlCheck::Resolve(h)) => assert_eq!(h, "127.0.0.1"),
        _ => panic!("should be looked up"),
    }
    assert_eq!(
        check_url("file:///etc/passwd", &list).unwrap_err().text(),
        "ChannelError(code=ssrf_blocked): invalid url"
    );
}

#[test]
fn one_local_address_is_enough() {
    let public = || Address::V4 {
        bits: v4(8, 8, 8, 8),
        shown: "8.8.8.8".into(),
    };
    let local = || Address::V4 {
        bits: v4(127, 0, 0, 1),
        shown: "127.0.0.1".into(),
    };
    let link = Address::V6 {
        groups: [0xfe80, 0, 0, 0, 0, 0, 0, 1],
        shown: "fe80::1".into(),
    };
    assert!(assert_public_addresses(&vec![public()]).is_ok());
    assert_eq!(
        assert_public_addresses(&vec![public(), local()]).unwrap_err().text(),
        "ChannelError(code=ssrf_blocked): 127.0.0.1"
    );
    assert_eq!(
        assert_public_addresses(&vec![link, local()]).unwrap_err().text(),
        "ChannelError(code=ssrf_blocked): fe80::1"
    );
    assert_eq!(
        lookup_failed("no such host").text(),
        "ChannelError(code=ssrf_blocked): dns lookup failed: no such host"
    );
}
