use cfdns::addr::{IpAddress, Ipv4Address, Ipv6Address};
use cfdns::cloudflare::{DnsContent, DnsRecord, DnsRecordType, Id, ProxyMode, Ttl};

fn id(text: &str) -> Id {
    Id::new(String::from(text)).unwrap()
}

#[test]
fn v4_text_roundtrip() {
    let c = DnsContent::from_text("203.0.113.5");
    assert_eq!(c, DnsContent::A(Ipv4Address::new(203, 0, 113, 5)));
    let s = c.to_text();
    assert_eq!(s, "203.0.113.5");
    assert_eq!(DnsContent::from_text(s.as_str()), c);
}

#[test]
fn v4_text_edges() {
    assert_eq!(
        DnsContent::from_text("0.0.0.0"),
        DnsContent::A(Ipv4Address::new(0, 0, 0, 0))
    );
    assert_eq!(
        DnsContent::from_text("255.255.255.255"),
        DnsContent::A(Ipv4Address::new(255, 255, 255, 255))
    );
    // Out-of-range octets, leading zeros and short forms are no addresses.
    assert_eq!(
        DnsContent::from_text("256.1.1.1"),
        DnsContent::Other(String::from("256.1.1.1"))
    );
    assert_eq!(
        DnsContent::from_text("01.2.3.4"),
        DnsContent::Other(String::from("01.2.3.4"))
    );
    assert_eq!(
        DnsContent::from_text("1.2.3"),
        DnsContent::Other(String::from("1.2.3"))
    );
    assert_eq!(
        DnsContent::from_text(""),
        DnsContent::Other(String::from(""))
    );
}

#[test]
fn v6_text_roundtrip() {
    let c = DnsContent::from_text("2001:db8:0:0:0:0:0:1");
    let expected = Ipv6Address::new(0x2001, 0xdb8, 0, 0, 0, 0, 0, 1);
    assert_eq!(c, DnsContent::AAAA(expected));
    let s = c.to_text();
    assert_eq!(s, "2001:db8:0:0:0:0:0:1");
    assert_eq!(DnsContent::from_text(s.as_str()), c);
}

#[test]
fn v6_compressed_forms_parse() {
    // A double colon in the middle, leading, trailing, and alone.
    assert_eq!(
        DnsContent::from_text("2001:db8::1"),
        DnsContent::AAAA(Ipv6Address::new(0x2001, 0xdb8, 0, 0, 0, 0, 0, 1))
    );
    assert_eq!(
        DnsContent::from_text("::1"),
        DnsContent::AAAA(Ipv6Address::new(0, 0, 0, 0, 0, 0, 0, 1))
    );
    assert_eq!(
        DnsContent::from_text("fe80::"),
        DnsContent::AAAA(Ipv6Address::new(0xfe80, 0, 0, 0, 0, 0, 0, 0))
    );
    assert_eq!(
        DnsContent::from_text("::"),
        DnsContent::AAAA(Ipv6Address::new(0, 0, 0, 0, 0, 0, 0, 0))
    );
    assert_eq!(
        DnsContent::from_text("1:2:3:4:5:6:7::"),
        DnsContent::AAAA(Ipv6Address::new(1, 2, 3, 4, 5, 6, 7, 0))
    );
    // The compressed value serializes to its full canonical form and
    // parses back equal.
    let c = DnsContent::from_text("2001:db8::1");
    assert_eq!(c.to_text(), "2001:db8:0:0:0:0:0:1");
    assert_eq!(DnsContent::from_text(c.to_text().as_str()), c);
}

#[test]
fn v6_malformed_forms_stay_opaque() {
    for s in [
        ":",
        ":1",
        "1:",
        ":::",
        "1::2::3",
        "1:2:3:4:5:6:7",
        "1:2:3:4:5:6:7:8:9",
        "1:2:3:4:5:6:7:8::",
        "::1:2:3:4:5:6:7:8",
        "12345::",
        "g::1",
    ] {
        assert_eq!(DnsContent::from_text(s), DnsContent::Other(String::from(s)));
    }
}

#[test]
fn v6_text_uppercase_reads_back_lowercase() {
    let c = DnsContent::from_text("2001:DB8:0:0:0:0:0:A");
    let expected = Ipv6Address::new(0x2001, 0xdb8, 0, 0, 0, 0, 0, 0xa);
    assert_eq!(c, DnsContent::AAAA(expected));
    assert_eq!(c.to_text(), "2001:db8:0:0:0:0:0:a");
}

#[test]
fn opaque_text_roundtrip() {
    let c = DnsContent::from_text("mail.example.com");
    assert_eq!(c, DnsContent::Other(String::from("mail.example.com")));
    let s = c.to_text();
    assert_eq!(s, "mail.example.com");
    assert_eq!(DnsContent::from_text(s.as_str()), c);
}

#[test]
fn ttl_wire_roundtrip() {
    // An absent TTL serializes to the literal 1 and reads back as absent.
    let automatic = Ttl::automatic();
    assert_eq!(automatic.to_wire(), 1);
    assert_eq!(Ttl::from_wire(automatic.to_wire()), Some(automatic));
    // Every wire value of at least 1 survives the round trip exactly.
    for n in [1u32, 2, 60, 300, 86400, u32::MAX] {
        let t = Ttl::from_wire(n).unwrap();
        assert_eq!(t.to_wire(), n);
    }
    // Zero is rejected.
    assert_eq!(Ttl::from_wire(0), None);
}

#[test]
fn proxy_mode_wire() {
    assert_eq!(ProxyMode::from_wire(Some(true)), ProxyMode::Proxied);
    assert_eq!(ProxyMode::from_wire(Some(false)), ProxyMode::Unproxied);
    assert_eq!(ProxyMode::from_wire(None), ProxyMode::Unproxied);
    assert!(ProxyMode::Proxied.as_bool());
    assert!(!ProxyMode::Unproxied.as_bool());
    assert_eq!(ProxyMode::default(), ProxyMode::Unproxied);
}

#[test]
fn id_rejects_empty() {
    assert!(Id::new(String::new()).is_none());
    let some = Id::new(String::from("abc123")).unwrap();
    assert_eq!(some.as_str(), "abc123");
}

#[test]
fn try_update_type_mismatch_leaves_content() {
    let mut record = DnsRecord {
        id: Some(id("r1")),
        zone_id: id("z1"),
        name: String::from("home"),
        ty: DnsRecordType::A,
        content: DnsContent::A(Ipv4Address::new(203, 0, 113, 5)),
        proxied: ProxyMode::Unproxied,
        ttl: Ttl::automatic(),
    };
    let v6 = IpAddress::V6(Ipv6Address::new(0x2001, 0xdb8, 0, 0, 0, 0, 0, 1));
    let r = record.try_update(v6);
    assert!(r.is_err());
    assert_eq!(
        record.content,
        DnsContent::A(Ipv4Address::new(203, 0, 113, 5))
    );
}

#[test]
fn try_update_same_and_changed() {
    let mut record = DnsRecord {
        id: Some(id("r1")),
        zone_id: id("z1"),
        name: String::from("home"),
        ty: DnsRecordType::A,
        content: DnsContent::A(Ipv4Address::new(203, 0, 113, 5)),
        proxied: ProxyMode::Unproxied,
        ttl: Ttl::automatic(),
    };
    let same = IpAddress::V4(Ipv4Address::new(203, 0, 113, 5));
    assert_eq!(record.try_update(same), Ok(false));
    let changed = IpAddress::V4(Ipv4Address::new(203, 0, 113, 9));
    assert_eq!(record.try_update(changed), Ok(true));
    assert_eq!(
        record.content,
        DnsContent::A(Ipv4Address::new(203, 0, 113, 9))
    );
}
