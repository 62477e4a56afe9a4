use cfdns::cloudflare::{
    ApiError, DnsContent, DnsRecord, DnsRecordType, Id, ProxyMode, Response, ResponseError, Ttl,
    Zone,
};
use cfdns::addr::Ipv4Address;
use cfdns::command::{
    record_status, should_watch, unit_status, CloudflareStatus, WatcherStatus,
};
use cfdns::config::{validate, ConfigError, ConfigFile, Interface, Interval, RecordConfig,
    ZoneConfig};
use cfdns::system::{str_eq, IfConfig, InterfaceInfo, Platform};
use cfdns::watcher::Watcher;

fn id(text: &str) -> Id {
    Id::new(String::from(text)).unwrap()
}

fn record(name: &str, o3: u8) -> DnsRecord {
    DnsRecord {
        id: None,
        zone_id: id("z1"),
        name: String::from(name),
        ty: DnsRecordType::A,
        content: DnsContent::A(Ipv4Address::new(203, 0, 113, o3)),
        proxied: ProxyMode::Unproxied,
        ttl: Ttl::automatic(),
    }
}

fn zone_with(records: Vec<DnsRecord>) -> Zone {
    let mut z = Zone::new(id("z1"), String::from("example.com"));
    z.records = records;
    z
}

#[test]
fn validate_rejects_empty_identifiers() {
    let good = ConfigFile {
        interfaces: vec![Interface {
            name: String::from("eth0"),
            interval: Interval::default(),
            info: InterfaceInfo::new(None, None),
        }],
        records: vec![RecordConfig {
            name: String::from("home"),
            zone: String::from("example.com"),
            interface: String::from("eth0"),
            ty: DnsRecordType::A,
            ttl: Ttl::automatic(),
            proxied: ProxyMode::Unproxied,
        }],
        zones: vec![ZoneConfig {
            id: None,
            name: String::from("example.com"),
            token: String::from("token-a"),
        }],
    };
    let passed = validate(good).unwrap();

    let mut bad = passed;
    bad.interfaces[0].name = String::new();
    let r = validate(bad);
    assert!(matches!(r, Err(ConfigError::EmptyInterfaceName { index: 0 })));
}

#[test]
fn validate_reports_each_offence() {
    let base = || ConfigFile {
        interfaces: vec![],
        records: vec![RecordConfig {
            name: String::from("home"),
            zone: String::from("example.com"),
            interface: String::from("eth0"),
            ty: DnsRecordType::A,
            ttl: Ttl::automatic(),
            proxied: ProxyMode::Unproxied,
        }],
        zones: vec![ZoneConfig {
            id: None,
            name: String::from("example.com"),
            token: String::from("token-a"),
        }],
    };

    let mut c = base();
    c.records[0].name = String::new();
    assert!(matches!(validate(c), Err(ConfigError::EmptyRecordName { index: 0 })));

    let mut c = base();
    c.records[0].interface = String::new();
    assert!(matches!(validate(c), Err(ConfigError::EmptyRecordInterface { index: 0 })));

    let mut c = base();
    c.records[0].zone = String::new();
    assert!(matches!(validate(c), Err(ConfigError::EmptyRecordZone { index: 0 })));

    let mut c = base();
    c.zones[0].name = String::new();
    assert!(matches!(validate(c), Err(ConfigError::EmptyZoneName { index: 0 })));

    let mut c = base();
    c.zones[0].token = String::new();
    assert!(matches!(validate(c), Err(ConfigError::EmptyZoneToken { index: 0 })));
}

#[test]
fn record_status_classifies() {
    let zone = zone_with(vec![]);
    let local = record("home", 5);

    let s = record_status(&zone, &local, Ok(None));
    assert!(matches!(s.status, CloudflareStatus::Missing));
    assert!(s.upstream.is_none());

    let mut up = record("home", 5);
    up.id = Some(id("r77"));
    let s = record_status(&zone, &local, Ok(Some(up)));
    assert!(matches!(s.status, CloudflareStatus::OK));

    let drifted = record("home", 9);
    let s = record_status(&zone, &local, Ok(Some(drifted)));
    assert!(matches!(s.status, CloudflareStatus::OutOfSync));

    let mut wrong_type = record("home", 5);
    wrong_type.ty = DnsRecordType::CNAME;
    let s = record_status(&zone, &local, Ok(Some(wrong_type)));
    assert!(matches!(
        s.status,
        CloudflareStatus::TypeMismatch(DnsRecordType::CNAME)
    ));

    let s = record_status(&zone, &local, Err(String::from("timed out")));
    assert!(matches!(s.status, CloudflareStatus::Failed(msg) if msg == "timed out"));
}

#[test]
fn unit_status_folds_in_order() {
    let zone = zone_with(vec![]);
    let local = record("home", 5);

    let statuses = vec![];
    assert_eq!(unit_status(&statuses), WatcherStatus::Disabled);

    let ok = record_status(&zone, &local, Ok(Some(record("home", 5))));
    let out = record_status(&zone, &local, Ok(Some(record("home", 9))));
    let failed = record_status(&zone, &local, Err(String::from("boom")));

    let statuses = vec![
        record_status(&zone, &local, Ok(Some(record("home", 5)))),
        record_status(&zone, &local, Ok(Some(record("home", 5)))),
    ];
    assert_eq!(unit_status(&statuses), WatcherStatus::Synced);

    let statuses = vec![ok, out];
    assert_eq!(unit_status(&statuses), WatcherStatus::OutOfSync);

    // A later finding overrides an earlier failure, as the fold says.
    let statuses = vec![
        failed,
        record_status(&zone, &local, Ok(Some(record("home", 9)))),
    ];
    assert_eq!(unit_status(&statuses), WatcherStatus::OutOfSync);
}

#[test]
fn should_watch_filters_by_interface_and_record() {
    let make = || {
        let mut w = Watcher::new(
            Interface {
                name: String::from("eth0"),
                interval: Interval::default(),
                info: InterfaceInfo::new(None, None),
            },
            String::from("token-a"),
        );
        w.watching.push(zone_with(vec![record("home", 5), record("mail", 6)]));
        w.watching.push(zone_with(vec![record("blog", 7)]));
        w
    };

    // No filters: everything stays.
    let mut w = make();
    assert!(should_watch(&mut w, None, None));
    assert_eq!(w.watching.len(), 2);

    // A different interface is skipped untouched.
    let mut w = make();
    let other = String::from("wan0");
    assert!(!should_watch(&mut w, Some(&other), None));
    assert_eq!(w.watching.len(), 2);

    // A record filter cuts zones down and drops the emptied ones.
    let mut w = make();
    let rec = String::from("home");
    assert!(should_watch(&mut w, None, Some(&rec)));
    assert_eq!(w.watching.len(), 1);
    assert_eq!(w.watching[0].records.len(), 1);
    assert_eq!(w.watching[0].records[0].name, "home");

    // A name nothing carries leaves nothing to sync.
    let mut w = make();
    let rec = String::from("nothing");
    assert!(!should_watch(&mut w, None, Some(&rec)));
    assert!(w.watching.is_empty());
}

#[test]
fn response_ok_unwraps_or_reports() {
    let ok: Response<u32> = Response { success: true, result: Some(7), errors: vec![] };
    assert!(matches!(ok.ok(), Ok(7)));

    let empty: Response<u32> = Response { success: true, result: None, errors: vec![] };
    assert!(matches!(empty.ok(), Err(ApiError::MissingPayload)));

    let failed: Response<u32> = Response {
        success: false,
        result: None,
        errors: vec![
            ResponseError { code: 1000, message: String::from("first") },
            ResponseError { code: 1003, message: String::from("last") },
        ],
    };
    match failed.ok() {
        Err(ApiError::Provider(e)) => {
            assert_eq!(e.code, 1003);
            assert_eq!(e.message, "last");
        },
        _ => panic!("expected the last provider error"),
    }
}

#[test]
fn system_helpers() {
    assert!(str_eq("eth0", "eth0"));
    assert!(!str_eq("eth0", "eth1"));
    assert!(!str_eq("eth0", "eth00"));

    assert_eq!(Platform::of_model("UDM"), Platform::UDM);
    assert_eq!(Platform::of_model("UDM-Pro"), Platform::UDMP);
    assert_eq!(Platform::of_model("UDM-SE"), Platform::UDMSE);
    assert_eq!(Platform::of_model("UDR"), Platform::UDR);
    assert_eq!(Platform::of_model("anything"), Platform::Other);

    let mut snap = IfConfig::empty();
    snap.record(
        String::from("eth0"),
        InterfaceInfo::new(Some(Ipv4Address::new(203, 0, 113, 5)), None),
    );
    let info = snap.get("eth0").unwrap();
    assert!(info.has_ip());
    assert!(snap.get("wan0").is_none());

    assert_eq!(Interval::default().seconds(), 300);
    assert_eq!(Interval(60).duration(), std::time::Duration::from_secs(60));
}
