use cfdns::addr::{AddressFamily, IpAddress, Ipv4Address};
use cfdns::assemble::{assemble, resolved_zone, zone_queries, ResolvedZone};
use cfdns::cloudflare::{DnsContent, DnsRecord, DnsRecordType, Id, ProxyMode, Ttl, Zone};
use cfdns::config::{ConfigError, ConfigFile, Interface, Interval, RecordConfig, ZoneConfig};
use cfdns::system::{IfConfig, InterfaceInfo};
use cfdns::watcher::{
    absorb_lookup, absorb_write, apply_address, desired_address, needs_lookup, WriteAction,
};

fn id(text: &str) -> Id {
    Id::new(String::from(text)).unwrap()
}

fn iface(name: &str) -> Interface {
    Interface {
        name: String::from(name),
        interval: Interval::default(),
        info: InterfaceInfo::new(None, None),
    }
}

fn binding(name: &str, zone: &str, interface: &str) -> RecordConfig {
    RecordConfig {
        name: String::from(name),
        zone: String::from(zone),
        interface: String::from(interface),
        ty: DnsRecordType::A,
        ttl: Ttl::automatic(),
        proxied: ProxyMode::Unproxied,
    }
}

fn zone_cfg(name: &str, token: &str, zid: Option<&str>) -> ZoneConfig {
    ZoneConfig {
        id: zid.map(id),
        name: String::from(name),
        token: String::from(token),
    }
}

fn snapshot(name: &str, v4: Ipv4Address) -> IfConfig {
    let mut snap = IfConfig::empty();
    snap.record(String::from(name), InterfaceInfo::new(Some(v4), None));
    snap
}

/// One watcher, fully assembled, for `eth0` / `home` / `example.com`.
fn assembled() -> cfdns::watcher::Watcher {
    let config = ConfigFile {
        interfaces: vec![iface("eth0")],
        records: vec![binding("home", "example.com", "eth0")],
        zones: vec![zone_cfg("example.com", "token-a", Some("z1"))],
    };
    let queries = zone_queries(&config).unwrap();
    assert_eq!(queries.len(), 1);
    // The identifier is pre-supplied: no remote call is needed.
    let resolved: Vec<ResolvedZone> = queries
        .iter()
        .map(|q| resolved_zone(q, None).unwrap())
        .collect();
    let snap = snapshot("eth0", Ipv4Address::new(203, 0, 113, 5));
    let mut watchers = assemble(&config, &resolved, &snap).unwrap();
    assert_eq!(watchers.len(), 1);
    watchers.pop().unwrap()
}

#[test]
fn undeclared_zone_fails_before_any_remote_call() {
    let config = ConfigFile {
        interfaces: vec![iface("eth0")],
        records: vec![binding("home", "nowhere.example", "eth0")],
        zones: vec![zone_cfg("example.com", "token-a", None)],
    };
    let r = zone_queries(&config);
    assert!(matches!(r, Err(ConfigError::UndefinedZone { zone }) if zone == "nowhere.example"));
}

#[test]
fn grouping_same_credential_one_unit_two_zones() {
    let config = ConfigFile {
        interfaces: vec![iface("eth0")],
        records: vec![
            binding("home", "example.com", "eth0"),
            binding("home", "example.net", "eth0"),
        ],
        zones: vec![
            zone_cfg("example.com", "token-a", Some("z1")),
            zone_cfg("example.net", "token-a", Some("z2")),
        ],
    };
    let queries = zone_queries(&config).unwrap();
    assert_eq!(queries.len(), 2);
    let resolved: Vec<ResolvedZone> = queries
        .iter()
        .map(|q| resolved_zone(q, None).unwrap())
        .collect();
    let snap = snapshot("eth0", Ipv4Address::new(203, 0, 113, 5));
    let watchers = assemble(&config, &resolved, &snap).unwrap();
    assert_eq!(watchers.len(), 1);
    assert_eq!(watchers[0].token, "token-a");
    assert_eq!(watchers[0].watching.len(), 2);
    for zone in &watchers[0].watching {
        assert_eq!(zone.records.len(), 1);
        assert_eq!(zone.records[0].name, "home");
    }
}

#[test]
fn grouping_distinct_credentials_two_units() {
    let config = ConfigFile {
        interfaces: vec![iface("eth0")],
        records: vec![
            binding("home", "example.com", "eth0"),
            binding("home", "example.net", "eth0"),
        ],
        zones: vec![
            zone_cfg("example.com", "token-a", Some("z1")),
            zone_cfg("example.net", "token-b", Some("z2")),
        ],
    };
    let queries = zone_queries(&config).unwrap();
    let resolved: Vec<ResolvedZone> = queries
        .iter()
        .map(|q| resolved_zone(q, None).unwrap())
        .collect();
    let snap = snapshot("eth0", Ipv4Address::new(203, 0, 113, 5));
    let watchers = assemble(&config, &resolved, &snap).unwrap();
    assert_eq!(watchers.len(), 2);
    assert_ne!(watchers[0].token, watchers[1].token);
}

#[test]
fn placeholder_unit_for_idle_interface() {
    let config = ConfigFile {
        interfaces: vec![iface("eth0"), iface("wan0")],
        records: vec![binding("home", "example.com", "eth0")],
        zones: vec![zone_cfg("example.com", "token-a", Some("z1"))],
    };
    let queries = zone_queries(&config).unwrap();
    let resolved: Vec<ResolvedZone> = queries
        .iter()
        .map(|q| resolved_zone(q, None).unwrap())
        .collect();
    let mut snap = snapshot("eth0", Ipv4Address::new(203, 0, 113, 5));
    snap.record(
        String::from("wan0"),
        InterfaceInfo::new(Some(Ipv4Address::new(198, 51, 100, 7)), None),
    );
    let watchers = assemble(&config, &resolved, &snap).unwrap();
    assert_eq!(watchers.len(), 2);
    let idle = watchers
        .iter()
        .find(|w| w.interface.name == "wan0")
        .unwrap();
    assert!(idle.token.is_empty());
    assert!(idle.watching.is_empty());
}

#[test]
fn missing_interface_fails_assembly() {
    let config = ConfigFile {
        interfaces: vec![iface("eth7")],
        records: vec![],
        zones: vec![],
    };
    let snap = snapshot("eth0", Ipv4Address::new(203, 0, 113, 5));
    let r = assemble(&config, &Vec::new(), &snap);
    assert!(matches!(r, Err(ConfigError::InterfaceNotFound { interface }) if interface == "eth7"));
}

#[test]
fn missing_address_family_fails_assembly() {
    let mut config = ConfigFile {
        interfaces: vec![iface("eth0")],
        records: vec![binding("home", "example.com", "eth0")],
        zones: vec![zone_cfg("example.com", "token-a", Some("z1"))],
    };
    config.records[0].ty = DnsRecordType::AAAA;
    let queries = zone_queries(&config).unwrap();
    let resolved: Vec<ResolvedZone> = queries
        .iter()
        .map(|q| resolved_zone(q, None).unwrap())
        .collect();
    // The snapshot has only an IPv4 address.
    let snap = snapshot("eth0", Ipv4Address::new(203, 0, 113, 5));
    let r = assemble(&config, &resolved, &snap);
    assert!(matches!(
        r,
        Err(ConfigError::MissingAddress { record, family })
            if record == "home" && family == AddressFamily::IPv6
    ));
}

#[test]
fn zone_lookup_not_found_is_an_error() {
    let config = ConfigFile {
        interfaces: vec![],
        records: vec![],
        zones: vec![zone_cfg("example.com", "token-a", None)],
    };
    let queries = zone_queries(&config).unwrap();
    assert_eq!(queries.len(), 1);
    let r = resolved_zone(&queries[0], None);
    assert!(matches!(r, Err(ConfigError::ZoneNotFound { zone }) if zone == "example.com"));
    // A remote answer settles it.
    let fetched = Zone::new(id("z9"), String::from("example.com"));
    let rz = resolved_zone(&queries[0], Some(fetched)).unwrap();
    assert_eq!(rz.zone.id.as_str(), "z9");
    assert_eq!(rz.token, "token-a");
}

/// The create path: no remote record exists, so the first pass looks the
/// record up, finds nothing, and issues one create call; once the
/// response is absorbed the record is resolved and the next pass needs no
/// write.
#[test]
fn pass_creates_missing_record_then_converges() {
    let watcher = assembled();
    let mut record = watcher.watching[0].records[0].clone();
    assert_eq!(
        record.content,
        DnsContent::A(Ipv4Address::new(203, 0, 113, 5))
    );

    let info = InterfaceInfo::new(Some(Ipv4Address::new(203, 0, 113, 5)), None);
    let addr = desired_address(record.ty, &info).unwrap();
    assert_eq!(addr, IpAddress::V4(Ipv4Address::new(203, 0, 113, 5)));

    // Lookup returns nothing: the identifier stays unset.
    assert!(needs_lookup(&record));
    absorb_lookup(&mut record, None);
    assert!(needs_lookup(&record));

    // The pass must create the record.
    assert_eq!(apply_address(&mut record, addr), Ok(WriteAction::Create));
    assert_eq!(
        record.content,
        DnsContent::A(Ipv4Address::new(203, 0, 113, 5))
    );

    // The provider answers with the stored record, identifier included.
    let mut response = record.clone();
    response.id = Some(id("r77"));
    absorb_write(&mut record, response);
    assert!(!needs_lookup(&record));

    // A second pass with an unchanged snapshot plans no write.
    assert_eq!(apply_address(&mut record, addr), Ok(WriteAction::NoWrite));
}

/// The already-synced path: the lookup finds a record holding the desired
/// address, so the pass issues zero write calls.
#[test]
fn pass_absorbs_matching_remote_record_without_writes() {
    let watcher = assembled();
    let mut record = watcher.watching[0].records[0].clone();

    let info = InterfaceInfo::new(Some(Ipv4Address::new(203, 0, 113, 5)), None);
    let addr = desired_address(record.ty, &info).unwrap();

    let found = DnsRecord {
        id: Some(id("r77")),
        zone_id: id("z1"),
        name: String::from("home"),
        ty: DnsRecordType::A,
        content: DnsContent::A(Ipv4Address::new(203, 0, 113, 5)),
        proxied: ProxyMode::Unproxied,
        ttl: Ttl::from_wire(300).unwrap(),
    };
    assert!(needs_lookup(&record));
    absorb_lookup(&mut record, Some(found));
    assert!(!needs_lookup(&record));
    // The found record replaced the local one wholesale.
    assert_eq!(record.ttl, Ttl::from_wire(300).unwrap());

    assert_eq!(apply_address(&mut record, addr), Ok(WriteAction::NoWrite));
}

/// The drift path: the interface address changes between two passes, so
/// the second pass issues exactly one update call with the new content.
#[test]
fn pass_updates_on_address_change() {
    let watcher = assembled();
    let mut record = watcher.watching[0].records[0].clone();
    record.id = Some(id("r77"));

    // First pass: the stored content matches the observed address.
    let info = InterfaceInfo::new(Some(Ipv4Address::new(203, 0, 113, 5)), None);
    let addr = desired_address(record.ty, &info).unwrap();
    assert_eq!(apply_address(&mut record, addr), Ok(WriteAction::NoWrite));

    // The address changes before the second pass.
    let info = InterfaceInfo::new(Some(Ipv4Address::new(203, 0, 113, 9)), None);
    let addr = desired_address(record.ty, &info).unwrap();
    assert_eq!(apply_address(&mut record, addr), Ok(WriteAction::Update));
    assert_eq!(
        record.content,
        DnsContent::A(Ipv4Address::new(203, 0, 113, 9))
    );
    let mut response = record.clone();
    response.id = Some(id("r77"));
    absorb_write(&mut record, response);

    // And converges again.
    assert_eq!(apply_address(&mut record, addr), Ok(WriteAction::NoWrite));
}

/// A record whose family has no bound address is skipped, not failed.
#[test]
fn pass_skips_record_without_matching_address() {
    let info = InterfaceInfo::new(Some(Ipv4Address::new(203, 0, 113, 5)), None);
    assert_eq!(desired_address(DnsRecordType::AAAA, &info), None);
    assert_eq!(desired_address(DnsRecordType::CNAME, &info), None);
}
