//! Raw configuration: interfaces to watch, record bindings, and zone
//! credentials, together with the validation every configuration passes
//! before assembly.

use vstd::prelude::*;

use crate::addr::{AddressFamily, IpAddress};
use crate::cloudflare::{DnsRecordType, Id, ProxyMode, Ttl};
use crate::system::InterfaceInfo;

verus! {

/// How much the process logs; presentation only.
#[derive(Clone, Copy, Debug, PartialEq, Eq, Structural)]
pub enum LogLevel {
    Off,
    Error,
    Warn,
    Info,
    Debug,
    Trace,
}

impl Default for LogLevel {
    fn default() -> (r: Self)
        ensures
            r == LogLevel::Warn,
    {
        LogLevel::Warn
    }
}

/// The polling interval of one watch unit, in seconds.
#[derive(Clone, Copy, Debug, PartialEq, Eq, PartialOrd, Ord, Structural)]
pub struct Interval(pub u16);

impl Interval {
    pub fn seconds(&self) -> (r: u64)
        ensures
            r == self.0 as u64,
    {
        self.0 as u64
    }

    /// Relies on `core::time::Duration::from_secs`: the interval as a
    /// duration of that many whole seconds.
    #[verifier::external_body]
    pub fn duration(&self) -> core::time::Duration {
        core::time::Duration::from_secs(self.0 as u64)
    }
}

impl Default for Interval {
    fn default() -> (r: Self)
        ensures
            r.0 == 300,
    {
        Interval(300)
    }
}

/// A configured interface: its name, its polling interval, and the
/// addresses last observed on it.
pub struct Interface {
    pub name: String,
    pub interval: Interval,
    pub info: InterfaceInfo,
}

impl Interface {
    /// The observed address of the given family, if one is bound.
    pub fn address(&self, family: AddressFamily) -> (r: Option<IpAddress>)
        ensures
            r == self.info.spec_address(family),
    {
        self.info.address(family)
    }
}

impl Clone for Interface {
    fn clone(&self) -> (r: Self)
        ensures
            r == *self,
    {
        Interface { name: self.name.clone(), interval: self.interval, info: self.info }
    }
}

/// A declared zone: its credential token, and optionally a pre-supplied
/// zone identifier that makes remote resolution unnecessary.
pub struct ZoneConfig {
    pub id: Option<Id>,
    pub name: String,
    pub token: String,
}

impl Clone for ZoneConfig {
    fn clone(&self) -> (r: Self)
        ensures
            r == *self,
    {
        ZoneConfig {
            id: match &self.id {
                Some(id) => Some(id.clone()),
                None => None,
            },
            name: self.name.clone(),
            token: self.token.clone(),
        }
    }
}

/// A record binding: the record to keep in sync, the zone it lives in,
/// and the interface whose address it follows.
pub struct RecordConfig {
    pub name: String,
    pub zone: String,
    pub interface: String,
    pub ty: DnsRecordType,
    pub ttl: Ttl,
    pub proxied: ProxyMode,
}

impl Clone for RecordConfig {
    fn clone(&self) -> (r: Self)
        ensures
            r == *self,
    {
        RecordConfig {
            name: self.name.clone(),
            zone: self.zone.clone(),
            interface: self.interface.clone(),
            ty: self.ty,
            ttl: self.ttl,
            proxied: self.proxied,
        }
    }
}

/// The whole configuration file, as plain values.
pub struct ConfigFile {
    pub interfaces: Vec<Interface>,
    pub records: Vec<RecordConfig>,
    pub zones: Vec<ZoneConfig>,
}

impl Default for ConfigFile {
    fn default() -> (r: Self)
        ensures
            r.interfaces@.len() == 0,
            r.records@.len() == 0,
            r.zones@.len() == 0,
    {
        ConfigFile { interfaces: Vec::new(), records: Vec::new(), zones: Vec::new() }
    }
}

/// The first declared zone with the given name, if any.
pub open spec fn spec_zone_of(zones: Seq<ZoneConfig>, name: Seq<char>) -> Option<ZoneConfig>
    decreases zones.len(),
{
    if zones.len() == 0 {
        None
    } else if zones[0].name@ == name {
        Some(zones[0])
    } else {
        spec_zone_of(zones.drop_first(), name)
    }
}

/// A zone is declared exactly when some declaration carries its name.
pub proof fn lemma_zone_of_prefix(zones: Seq<ZoneConfig>, name: Seq<char>, i: int)
    requires
        0 <= i < zones.len(),
        zones[i].name@ == name,
        forall|j: int| 0 <= j < i ==> zones[j].name@ != name,
    ensures
        spec_zone_of(zones, name) == Some(zones[i]),
    decreases i,
{
    if i > 0 {
        lemma_zone_of_prefix(zones.drop_first(), name, i - 1);
    }
}

pub proof fn lemma_zone_of_absent(zones: Seq<ZoneConfig>, name: Seq<char>)
    requires
        forall|j: int| 0 <= j < zones.len() ==> zones[j].name@ != name,
    ensures
        spec_zone_of(zones, name) is None,
    decreases zones.len(),
{
    if zones.len() > 0 {
        lemma_zone_of_absent(zones.drop_first(), name);
    }
}

/// Whenever a declaration with the name exists, the lookup finds one.
pub proof fn lemma_zone_of_present(zones: Seq<ZoneConfig>, name: Seq<char>)
    requires
        exists|j: int| 0 <= j < zones.len() && zones[j].name@ == name,
    ensures
        spec_zone_of(zones, name) is Some,
        spec_zone_of(zones, name).unwrap().name@ == name,
    decreases zones.len(),
{
    if zones[0].name@ != name {
        let j = choose|j: int| 0 <= j < zones.len() && zones[j].name@ == name;
        assert(zones.drop_first()[j - 1].name@ == name);
        lemma_zone_of_present(zones.drop_first(), name);
    }
}

impl ConfigFile {
    /// The declaration of the named zone, if the configuration holds one.
    pub fn zone(&self, name: &str) -> (r: Option<&ZoneConfig>)
        ensures
            match r {
                Some(z) => spec_zone_of(self.zones@, name@) == Some(*z),
                None => spec_zone_of(self.zones@, name@) is None,
            },
    {
        let n = self.zones.len();
        let mut i: usize = 0;
        while i < n
            invariant
                n == self.zones@.len(),
                i <= n,
                forall|j: int| 0 <= j < i ==> self.zones@[j].name@ != name@,
            decreases n - i,
        {
            if crate::system::str_eq(self.zones[i].name.as_str(), name) {
                proof {
                    lemma_zone_of_prefix(self.zones@, name@, i as int);
                }
                return Some(&self.zones[i]);
            }
            i += 1;
        }
        proof {
            lemma_zone_of_absent(self.zones@, name@);
        }
        None
    }
}

/// Everything that can be wrong with a configuration: empty identifiers,
/// references to undeclared or unknown things, and bindings that no
/// observed address can satisfy.
#[derive(Debug)]
pub enum ConfigError {
    /// An interface declaration has an empty name.
    EmptyInterfaceName { index: usize },
    /// A record binding has an empty name.
    EmptyRecordName { index: usize },
    /// A record binding names no interface.
    EmptyRecordInterface { index: usize },
    /// A record binding names no zone.
    EmptyRecordZone { index: usize },
    /// A zone declaration has an empty name.
    EmptyZoneName { index: usize },
    /// A zone declaration carries no credential token.
    EmptyZoneToken { index: usize },
    /// A record binding references a zone that no declaration covers.
    UndefinedZone { zone: String },
    /// The remote store knows no active zone with this name.
    ZoneNotFound { zone: String },
    /// A configured interface is not observable on the system.
    InterfaceNotFound { interface: String },
    /// A record's declared type implies no address family.
    UnsupportedRecordType { record: String },
    /// The bound interface has no address of the family the record needs.
    MissingAddress { record: String, family: AddressFamily },
}

/// All interface declarations carry a name.
pub open spec fn spec_interfaces_valid(interfaces: Seq<Interface>) -> bool {
    forall|i: int| 0 <= i < interfaces.len() ==> interfaces[i].name@.len() > 0
}

/// All record bindings carry a name, an interface and a zone.
pub open spec fn spec_records_valid(records: Seq<RecordConfig>) -> bool {
    forall|i: int|
        0 <= i < records.len() ==> {
            &&& #[trigger] records[i].name@.len() > 0
            &&& records[i].interface@.len() > 0
            &&& records[i].zone@.len() > 0
        }
}

/// All zone declarations carry a name and a token.
pub open spec fn spec_zones_valid(zones: Seq<ZoneConfig>) -> bool {
    forall|i: int|
        0 <= i < zones.len() ==> {
            &&& #[trigger] zones[i].name@.len() > 0
            &&& zones[i].token@.len() > 0
        }
}

pub open spec fn spec_config_valid(config: ConfigFile) -> bool {
    &&& spec_interfaces_valid(config.interfaces@)
    &&& spec_records_valid(config.records@)
    &&& spec_zones_valid(config.zones@)
}

/// The offending item a validation error points at really offends.
pub open spec fn spec_validation_witness(config: ConfigFile, e: ConfigError) -> bool {
    match e {
        ConfigError::EmptyInterfaceName { index } => {
            &&& index < config.interfaces@.len()
            &&& config.interfaces@[index as int].name@.len() == 0
        },
        ConfigError::EmptyRecordName { index } => {
            &&& index < config.records@.len()
            &&& config.records@[index as int].name@.len() == 0
        },
        ConfigError::EmptyRecordInterface { index } => {
            &&& index < config.records@.len()
            &&& config.records@[index as int].interface@.len() == 0
        },
        ConfigError::EmptyRecordZone { index } => {
            &&& index < config.records@.len()
            &&& config.records@[index as int].zone@.len() == 0
        },
        ConfigError::EmptyZoneName { index } => {
            &&& index < config.zones@.len()
            &&& config.zones@[index as int].name@.len() == 0
        },
        ConfigError::EmptyZoneToken { index } => {
            &&& index < config.zones@.len()
            &&& config.zones@[index as int].token@.len() == 0
        },
        _ => false,
    }
}

/// Checks that every declared item carries the identifiers it needs.
/// A valid configuration passes through unchanged; the first offence, in
/// declaration order, is reported otherwise.
pub fn validate(config: ConfigFile) -> (r: Result<ConfigFile, ConfigError>)
    ensures
        match r {
            Ok(c) => c == config && spec_config_valid(config),
            Err(e) => !spec_config_valid(config) && spec_validation_witness(config, e),
        },
{
    let mut i: usize = 0;
    let n_ifs = config.interfaces.len();
    while i < n_ifs
        invariant
            n_ifs == config.interfaces@.len(),
            i <= n_ifs,
            forall|j: int| 0 <= j < i ==> config.interfaces@[j].name@.len() > 0,
        decreases n_ifs - i,
    {
        if config.interfaces[i].name.as_str().is_empty() {
            return Err(ConfigError::EmptyInterfaceName { index: i });
        }
        i += 1;
    }

    let mut i: usize = 0;
    let n_recs = config.records.len();
    while i < n_recs
        invariant
            n_recs == config.records@.len(),
            i <= n_recs,
            forall|j: int|
                0 <= j < i ==> {
                    &&& #[trigger] config.records@[j].name@.len() > 0
                    &&& config.records@[j].interface@.len() > 0
                    &&& config.records@[j].zone@.len() > 0
                },
        decreases n_recs - i,
    {
        if config.records[i].name.as_str().is_empty() {
            return Err(ConfigError::EmptyRecordName { index: i });
        }
        if config.records[i].interface.as_str().is_empty() {
            return Err(ConfigError::EmptyRecordInterface { index: i });
        }
        if config.records[i].zone.as_str().is_empty() {
            return Err(ConfigError::EmptyRecordZone { index: i });
        }
        i += 1;
    }

    let mut i: usize = 0;
    let n_zones = config.zones.len();
    while i < n_zones
        invariant
            n_zones == config.zones@.len(),
            i <= n_zones,
            forall|j: int|
                0 <= j < i ==> {
                    &&& #[trigger] config.zones@[j].name@.len() > 0
                    &&& config.zones@[j].token@.len() > 0
                },
        decreases n_zones - i,
    {
        if config.zones[i].name.as_str().is_empty() {
            return Err(ConfigError::EmptyZoneName { index: i });
        }
        if config.zones[i].token.as_str().is_empty() {
            return Err(ConfigError::EmptyZoneToken { index: i });
        }
        i += 1;
    }

    Ok(config)
}

} // verus!
