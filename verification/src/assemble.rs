//! The watch-unit assembler: it turns the flat configuration into the
//! minimal set of independent watch units, one per (interface,
//! credential) pair that has a bound record, plus a placeholder unit for
//! every interface with none.
//!
//! Zone identifiers are planned first: `zone_queries` decides, before any
//! remote call, which zone names still need remote resolution, and fails
//! there if a record references an undeclared zone.

use vstd::prelude::*;

use crate::addr::IpAddress;
use crate::cloudflare::{DnsContent, DnsRecord, Id, Zone};
use crate::config::{spec_zone_of, ConfigError, ConfigFile, Interface, RecordConfig};
use crate::system::{spec_lookup, str_eq, IfConfig, IfEntry, InterfaceInfo};
use crate::watcher::{spec_desired_address, Watcher};

verus! {

/// One zone name the assembly needs, with the credential that governs it
/// and the identifier configuration pre-supplied, if it did.
pub struct ZoneQuery {
    pub name: String,
    pub token: String,
    pub id: Option<Id>,
}

/// A zone name is declared when some zone declaration carries it.
pub open spec fn spec_zone_declared(config: ConfigFile, name: Seq<char>) -> bool {
    spec_zone_of(config.zones@, name) is Some
}

/// Some element of `names` reads `name`.
pub open spec fn spec_covers(names: Seq<String>, name: Seq<char>) -> bool {
    exists|i: int| 0 <= i < names.len() && names[i]@ == name
}

/// Some query in `qs` asks for `name`.
pub open spec fn spec_query_covers(qs: Seq<ZoneQuery>, name: Seq<char>) -> bool {
    exists|i: int| 0 <= i < qs.len() && qs[i].name@ == name
}

/// Adding a name keeps every name already covered.
proof fn lemma_covers_push(names: Seq<String>, extra: String, name: Seq<char>)
    requires
        spec_covers(names, name),
    ensures
        spec_covers(names.push(extra), name),
{
    let i = choose|i: int| 0 <= i < names.len() && names[i]@ == name;
    assert(names.push(extra)[i]@ == name);
}

/// Whether some element of `names` reads `name`.
fn contains_str(names: &Vec<String>, name: &str) -> (r: bool)
    ensures
        r == spec_covers(names@, name@),
{
    let n = names.len();
    let mut i: usize = 0;
    while i < n
        invariant
            n == names@.len(),
            i <= n,
            forall|j: int| 0 <= j < i ==> names@[j]@ != name@,
        decreases n - i,
    {
        if str_eq(names[i].as_str(), name) {
            return true;
        }
        i += 1;
    }
    false
}

/// Plans zone resolution: one query per distinct zone name referenced by
/// a record binding or declared outright, each carrying its declared
/// credential and optional pre-supplied identifier.
///
/// A record binding that references an undeclared zone fails the whole
/// assembly here, before any remote call is made.
pub fn zone_queries(config: &ConfigFile) -> (r: Result<Vec<ZoneQuery>, ConfigError>)
    ensures
        match r {
            Ok(qs) => {
                // Every query copies one declared zone faithfully.
                &&& forall|i: int|
                    0 <= i < qs@.len() ==> {
                        &&& spec_zone_declared(*config, #[trigger] qs@[i].name@)
                        &&& qs@[i].token == spec_zone_of(config.zones@, qs@[i].name@).unwrap().token
                        &&& qs@[i].id == spec_zone_of(config.zones@, qs@[i].name@).unwrap().id
                    }
                // No zone name is queried twice.
                &&& forall|i: int, j: int|
                    #![trigger qs@[i].name@, qs@[j].name@]
                    0 <= i < j < qs@.len() ==> qs@[i].name@ != qs@[j].name@
                // Every record's zone is declared and queried.
                &&& forall|k: int|
                    0 <= k < config.records@.len() ==> spec_zone_declared(
                        *config,
                        #[trigger] config.records@[k].zone@,
                    )
                &&& forall|k: int|
                    0 <= k < config.records@.len() ==> spec_query_covers(
                        qs@,
                        #[trigger] config.records@[k].zone@,
                    )
                // Every declared zone is queried.
                &&& forall|k: int|
                    0 <= k < config.zones@.len() ==> spec_query_covers(
                        qs@,
                        #[trigger] config.zones@[k].name@,
                    )
            },
            Err(e) => match e {
                ConfigError::UndefinedZone { zone } => exists|k: int|
                    0 <= k < config.records@.len() && #[trigger] config.records@[k].zone@ == zone@
                        && !spec_zone_declared(*config, zone@),
                _ => false,
            },
        },
        (forall|k: int|
            0 <= k < config.records@.len() ==> spec_zone_declared(
                *config,
                #[trigger] config.records@[k].zone@,
            )) ==> r is Ok,
{
    let mut names: Vec<String> = Vec::new();

    let n_recs = config.records.len();
    let mut k: usize = 0;
    while k < n_recs
        invariant
            n_recs == config.records@.len(),
            k <= n_recs,
            forall|i: int| 0 <= i < names@.len() ==> spec_zone_declared(*config, #[trigger] names@[i]@),
            forall|i: int, j: int|
                #![trigger names@[i]@, names@[j]@]
                0 <= i < j < names@.len() ==> names@[i]@ != names@[j]@,
            forall|k2: int|
                0 <= k2 < k ==> spec_zone_declared(*config, #[trigger] config.records@[k2].zone@),
            forall|k2: int|
                0 <= k2 < k ==> spec_covers(names@, #[trigger] config.records@[k2].zone@),
        decreases n_recs - k,
    {
        let ghost names_before = names@;
        let zone_name = &config.records[k].zone;
        if config.zone(zone_name.as_str()).is_none() {
            return Err(ConfigError::UndefinedZone { zone: zone_name.clone() });
        }
        if !contains_str(&names, zone_name.as_str()) {
            names.push(zone_name.clone());
            proof {
                assert(names@[names_before.len() as int]@ == zone_name@);
                assert forall|k2: int| 0 <= k2 < k implies spec_covers(
                    names@,
                    #[trigger] config.records@[k2].zone@,
                ) by {
                    lemma_covers_push(
                        names_before,
                        names@[names_before.len() as int],
                        config.records@[k2].zone@,
                    );
                }
            }
        }
        k += 1;
    }

    let n_zones = config.zones.len();
    let mut k: usize = 0;
    while k < n_zones
        invariant
            n_zones == config.zones@.len(),
            k <= n_zones,
            forall|i: int| 0 <= i < names@.len() ==> spec_zone_declared(*config, #[trigger] names@[i]@),
            forall|i: int, j: int|
                #![trigger names@[i]@, names@[j]@]
                0 <= i < j < names@.len() ==> names@[i]@ != names@[j]@,
            forall|k2: int|
                0 <= k2 < config.records@.len() ==> spec_zone_declared(
                    *config,
                    #[trigger] config.records@[k2].zone@,
                ),
            forall|k2: int|
                0 <= k2 < config.records@.len() ==> spec_covers(
                    names@,
                    #[trigger] config.records@[k2].zone@,
                ),
            forall|k2: int|
                0 <= k2 < k ==> spec_covers(names@, #[trigger] config.zones@[k2].name@),
        decreases n_zones - k,
    {
        let ghost names_before = names@;
        let zone_name = &config.zones[k].name;
        if !contains_str(&names, zone_name.as_str()) {
            proof {
                crate::config::lemma_zone_of_present(config.zones@, zone_name@);
            }
            names.push(zone_name.clone());
            proof {
                assert(names@[names_before.len() as int]@ == zone_name@);
                assert forall|k2: int| 0 <= k2 < config.records@.len() implies spec_covers(
                    names@,
                    #[trigger] config.records@[k2].zone@,
                ) by {
                    lemma_covers_push(
                        names_before,
                        names@[names_before.len() as int],
                        config.records@[k2].zone@,
                    );
                }
                assert forall|k2: int| 0 <= k2 < k implies spec_covers(
                    names@,
                    #[trigger] config.zones@[k2].name@,
                ) by {
                    lemma_covers_push(
                        names_before,
                        names@[names_before.len() as int],
                        config.zones@[k2].name@,
                    );
                }
            }
        }
        k += 1;
    }

    let mut queries: Vec<ZoneQuery> = Vec::new();
    let n_names = names.len();
    let mut k: usize = 0;
    while k < n_names
        invariant
            n_names == names@.len(),
            k <= n_names,
            queries@.len() == k,
            forall|i: int| 0 <= i < names@.len() ==> spec_zone_declared(*config, #[trigger] names@[i]@),
            forall|i: int, j: int|
                #![trigger names@[i]@, names@[j]@]
                0 <= i < j < names@.len() ==> names@[i]@ != names@[j]@,
            forall|i: int| 0 <= i < k ==> #[trigger] queries@[i].name@ == names@[i]@,
            forall|i: int|
                0 <= i < k ==> {
                    &&& spec_zone_declared(*config, #[trigger] queries@[i].name@)
                    &&& queries@[i].token == spec_zone_of(
                        config.zones@,
                        queries@[i].name@,
                    ).unwrap().token
                    &&& queries@[i].id == spec_zone_of(config.zones@, queries@[i].name@).unwrap().id
                },
        decreases n_names - k,
    {
        let zone_name = &names[k];
        match config.zone(zone_name.as_str()) {
            Some(zc) => {
                queries.push(
                    ZoneQuery {
                        name: zone_name.clone(),
                        token: zc.token.clone(),
                        id: match &zc.id {
                            Some(id) => Some(id.clone()),
                            None => None,
                        },
                    },
                );
            },
            None => {
                proof {
                    assert(false);
                }
            },
        }
        k += 1;
    }

    proof {
        assert forall|k2: int| 0 <= k2 < config.records@.len() implies spec_query_covers(
            queries@,
            #[trigger] config.records@[k2].zone@,
        ) by {
            let i = choose|i: int| 0 <= i < names@.len() && names@[i]@ == config.records@[k2].zone@;
            assert(queries@[i].name@ == config.records@[k2].zone@);
        }
        assert forall|k2: int| 0 <= k2 < config.zones@.len() implies spec_query_covers(
            queries@,
            #[trigger] config.zones@[k2].name@,
        ) by {
            let i = choose|i: int| 0 <= i < names@.len() && names@[i]@ == config.zones@[k2].name@;
            assert(queries@[i].name@ == config.zones@[k2].name@);
        }
    }

    Ok(queries)
}

/// A zone whose identifier is settled, still governed by its credential.
pub struct ResolvedZone {
    pub name: String,
    pub token: String,
    pub zone: Zone,
}

/// Settles one zone query: a pre-supplied identifier is used directly —
/// no remote call was needed — and otherwise the remote store's answer
/// decides: its zone is taken whole, and an empty answer is the
/// configuration error for an unknown zone.
pub fn resolved_zone(query: &ZoneQuery, fetched: Option<Zone>) -> (r: Result<
    ResolvedZone,
    ConfigError,
>)
    ensures
        match r {
            Ok(rz) => {
                &&& rz.name == query.name
                &&& rz.token == query.token
                &&& match query.id {
                    Some(id) => {
                        &&& rz.zone.id == id
                        &&& rz.zone.name == query.name
                        &&& rz.zone.records@.len() == 0
                    },
                    None => {
                        &&& fetched is Some
                        &&& rz.zone.id == fetched.unwrap().id
                        &&& rz.zone.name == fetched.unwrap().name
                        &&& rz.zone.records@ == fetched.unwrap().records@
                    },
                }
            },
            Err(e) => {
                &&& query.id is None
                &&& fetched is None
                &&& e == (ConfigError::ZoneNotFound { zone: query.name })
            },
        },
        query.id is None && fetched is None ==> r is Err,
        r is Err ==> (query.id is None && fetched is None),
{
    match &query.id {
        Some(id) => Ok(
            ResolvedZone {
                name: query.name.clone(),
                token: query.token.clone(),
                zone: Zone::new(id.clone(), query.name.clone()),
            },
        ),
        None => match fetched {
            Some(zone) => Ok(
                ResolvedZone { name: query.name.clone(), token: query.token.clone(), zone },
            ),
            None => Err(ConfigError::ZoneNotFound { zone: query.name.clone() }),
        },
    }
}


/// The first resolved zone carrying the name, if any.
pub open spec fn spec_resolved_of(resolved: Seq<ResolvedZone>, name: Seq<char>) -> Option<
    ResolvedZone,
>
    decreases resolved.len(),
{
    if resolved.len() == 0 {
        None
    } else if resolved[0].name@ == name {
        Some(resolved[0])
    } else {
        spec_resolved_of(resolved.drop_first(), name)
    }
}

proof fn lemma_resolved_of_prefix(resolved: Seq<ResolvedZone>, name: Seq<char>, i: int)
    requires
        0 <= i < resolved.len(),
        resolved[i].name@ == name,
        forall|j: int| 0 <= j < i ==> resolved[j].name@ != name,
    ensures
        spec_resolved_of(resolved, name) == Some(resolved[i]),
    decreases i,
{
    if i > 0 {
        lemma_resolved_of_prefix(resolved.drop_first(), name, i - 1);
    }
}

proof fn lemma_resolved_of_absent(resolved: Seq<ResolvedZone>, name: Seq<char>)
    requires
        forall|j: int| 0 <= j < resolved.len() ==> resolved[j].name@ != name,
    ensures
        spec_resolved_of(resolved, name) is None,
    decreases resolved.len(),
{
    if resolved.len() > 0 {
        lemma_resolved_of_absent(resolved.drop_first(), name);
    }
}

/// The resolved zone a name maps to, first match first.
pub fn find_resolved<'a>(resolved: &'a Vec<ResolvedZone>, name: &str) -> (r: Option<
    &'a ResolvedZone,
>)
    ensures
        match r {
            Some(rz) => spec_resolved_of(resolved@, name@) == Some(*rz),
            None => spec_resolved_of(resolved@, name@) is None,
        },
{
    let n = resolved.len();
    let mut i: usize = 0;
    while i < n
        invariant
            n == resolved@.len(),
            i <= n,
            forall|j: int| 0 <= j < i ==> resolved@[j].name@ != name@,
        decreases n - i,
    {
        if str_eq(resolved[i].name.as_str(), name) {
            proof {
                lemma_resolved_of_prefix(resolved@, name@, i as int);
            }
            return Some(&resolved[i]);
        }
        i += 1;
    }
    proof {
        lemma_resolved_of_absent(resolved@, name@);
    }
    None
}

/// Whether a record binding ties this zone to this interface.
pub open spec fn spec_binds(rc: RecordConfig, iface: Seq<char>, zone: Seq<char>) -> bool {
    rc.interface@ == iface && rc.zone@ == zone
}

/// The record a binding synthesizes: unresolved identity, the zone it was
/// declared in, and as content the interface's current address of the
/// family the declared type implies — nothing, when the type implies no
/// family or no such address is bound.
pub open spec fn spec_synthesized(rc: RecordConfig, zone_id: Id, info: InterfaceInfo) -> Option<
    DnsRecord,
> {
    match spec_desired_address(rc.ty, info) {
        Some(addr) => Some(
            DnsRecord {
                id: None,
                zone_id: zone_id,
                name: rc.name,
                ty: rc.ty,
                content: DnsContent::spec_of_address(addr),
                proxied: rc.proxied,
                ttl: rc.ttl,
            },
        ),
        None => None,
    }
}

/// The record was synthesized from some binding of this zone to this
/// interface.
pub open spec fn spec_from_binding(
    rec: DnsRecord,
    records: Seq<RecordConfig>,
    iface: Seq<char>,
    zone: Seq<char>,
    zone_id: Id,
    info: InterfaceInfo,
) -> bool {
    exists|k: int|
        0 <= k < records.len() && spec_binds(#[trigger] records[k], iface, zone) && Some(rec)
            == spec_synthesized(records[k], zone_id, info)
}

/// Some synthesized record in `rs` is the one this binding asks for.
pub open spec fn spec_holds_synthesized(
    rs: Seq<DnsRecord>,
    rc: RecordConfig,
    zone_id: Id,
    info: InterfaceInfo,
) -> bool {
    exists|j: int| 0 <= j < rs.len() && Some(#[trigger] rs[j]) == spec_synthesized(rc, zone_id, info)
}

proof fn lemma_holds_synthesized_push(
    rs: Seq<DnsRecord>,
    extra: DnsRecord,
    rc: RecordConfig,
    zone_id: Id,
    info: InterfaceInfo,
)
    requires
        spec_holds_synthesized(rs, rc, zone_id, info),
    ensures
        spec_holds_synthesized(rs.push(extra), rc, zone_id, info),
{
    let j = choose|j: int| 0 <= j < rs.len() && Some(#[trigger] rs[j]) == spec_synthesized(rc, zone_id, info);
    assert(rs.push(extra)[j] == rs[j]);
}

/// Synthesizes, in binding order, one record for every binding that ties
/// `zone_name` to `iface_name`: each carries the interface's current
/// address of the family its declared type implies. A binding whose type
/// implies no family, or whose family has no bound address, fails the
/// assembly.
pub fn synthesize_records(
    records: &Vec<RecordConfig>,
    iface_name: &String,
    zone_name: &String,
    zone_id: &Id,
    info: &InterfaceInfo,
) -> (r: Result<Vec<DnsRecord>, ConfigError>)
    ensures
        match r {
            Ok(rs) => {
                // Only asked-for records are synthesized.
                &&& forall|j: int|
                    0 <= j < rs@.len() ==> spec_from_binding(
                        #[trigger] rs@[j],
                        records@,
                        iface_name@,
                        zone_name@,
                        *zone_id,
                        *info,
                    )
                // Every binding of this zone to this interface is served.
                &&& forall|k: int|
                    0 <= k < records@.len() && spec_binds(
                        #[trigger] records@[k],
                        iface_name@,
                        zone_name@,
                    ) ==> spec_synthesized(records@[k], *zone_id, *info) is Some
                        && spec_holds_synthesized(rs@, records@[k], *zone_id, *info)
            },
            Err(e) => match e {
                ConfigError::UnsupportedRecordType { record } => exists|k: int|
                    0 <= k < records@.len() && spec_binds(
                        #[trigger] records@[k],
                        iface_name@,
                        zone_name@,
                    ) && records@[k].ty.spec_family() is None && records@[k].name@ == record@,
                ConfigError::MissingAddress { record, family } => exists|k: int|
                    0 <= k < records@.len() && spec_binds(
                        #[trigger] records@[k],
                        iface_name@,
                        zone_name@,
                    ) && records@[k].ty.spec_family() == Some(family) && info.spec_address(
                        family,
                    ) is None && records@[k].name@ == record@,
                _ => false,
            },
        },
        (forall|k: int|
            0 <= k < records@.len() && spec_binds(
                #[trigger] records@[k],
                iface_name@,
                zone_name@,
            ) ==> spec_synthesized(records@[k], *zone_id, *info) is Some) ==> r is Ok,
{
    let mut rs: Vec<DnsRecord> = Vec::new();
    let n = records.len();
    let mut k: usize = 0;
    while k < n
        invariant
            n == records@.len(),
            k <= n,
            forall|j: int|
                0 <= j < rs@.len() ==> spec_from_binding(
                    #[trigger] rs@[j],
                    records@,
                    iface_name@,
                    zone_name@,
                    *zone_id,
                    *info,
                ),
            forall|k2: int|
                0 <= k2 < k && spec_binds(#[trigger] records@[k2], iface_name@, zone_name@) ==> {
                    &&& spec_synthesized(records@[k2], *zone_id, *info) is Some
                    &&& spec_holds_synthesized(rs@, records@[k2], *zone_id, *info)
                },
        decreases n - k,
    {
        let rc = &records[k];
        if str_eq(rc.interface.as_str(), iface_name.as_str()) && str_eq(
            rc.zone.as_str(),
            zone_name.as_str(),
        ) {
            let family = match rc.ty.family() {
                Some(family) => family,
                None => {
                    return Err(ConfigError::UnsupportedRecordType { record: rc.name.clone() });
                },
            };
            let addr = match info.address(family) {
                Some(addr) => addr,
                None => {
                    return Err(
                        ConfigError::MissingAddress { record: rc.name.clone(), family },
                    );
                },
            };
            let ghost rs_before = rs@;
            rs.push(
                DnsRecord {
                    id: None,
                    zone_id: zone_id.clone(),
                    name: rc.name.clone(),
                    ty: rc.ty,
                    content: DnsContent::of_address(addr),
                    proxied: rc.proxied,
                    ttl: rc.ttl,
                },
            );
            proof {
                assert(Some(rs@[rs_before.len() as int]) == spec_synthesized(
                    records@[k as int],
                    *zone_id,
                    *info,
                ));
                assert forall|j: int| 0 <= j < rs@.len() implies spec_from_binding(
                    #[trigger] rs@[j],
                    records@,
                    iface_name@,
                    zone_name@,
                    *zone_id,
                    *info,
                ) by {
                    if j < rs_before.len() {
                        assert(rs@[j] == rs_before[j]);
                    } else {
                        assert(spec_binds(records@[k as int], iface_name@, zone_name@));
                        assert(Some(rs@[j]) == spec_synthesized(records@[k as int], *zone_id, *info));
                    }
                }
                assert forall|k2: int|
                    0 <= k2 < k && spec_binds(
                        #[trigger] records@[k2],
                        iface_name@,
                        zone_name@,
                    ) implies spec_holds_synthesized(rs@, records@[k2], *zone_id, *info) by {
                    lemma_holds_synthesized_push(
                        rs_before,
                        rs@[rs_before.len() as int],
                        records@[k2],
                        *zone_id,
                        *info,
                    );
                }
            }
        }
        k += 1;
    }
    Ok(rs)
}


/// A binding names this interface.
pub open spec fn spec_on_interface(rc: RecordConfig, iface: Seq<char>) -> bool {
    rc.interface@ == iface
}

/// One of the watcher's zones holds this record.
pub open spec fn spec_watcher_sync(w: Watcher, rec: DnsRecord) -> bool {
    exists|z: int, j: int|
        0 <= z < w.watching@.len() && 0 <= j < w.watching@[z].records@.len()
            && #[trigger] w.watching@[z].records@[j] == rec
}

/// Some unit carrying this credential holds this record.
pub open spec fn spec_units_sync(units: Seq<Watcher>, token: Seq<char>, rec: DnsRecord) -> bool {
    exists|u: int|
        0 <= u < units.len() && (#[trigger] units[u]).token@ == token && spec_watcher_sync(
            units[u],
            rec,
        )
}

/// Every zone of every unit is one of the resolved zones, and is governed
/// by the unit's own credential.
pub open spec fn spec_zones_sound(units: Seq<Watcher>, resolved: Seq<ResolvedZone>) -> bool {
    forall|u: int, z: int|
        0 <= u < units.len() && 0 <= z < units[u].watching@.len() ==> exists|i: int|
            0 <= i < resolved.len() && resolved[i].token@ == units[u].token@ && (
            #[trigger] units[u].watching@[z]).id == resolved[i].zone.id
                && units[u].watching@[z].name == resolved[i].zone.name
}

proof fn lemma_resolved_of_mem(resolved: Seq<ResolvedZone>, name: Seq<char>)
    requires
        spec_resolved_of(resolved, name) is Some,
    ensures
        exists|i: int|
            0 <= i < resolved.len() && resolved[i] == spec_resolved_of(resolved, name).unwrap(),
    decreases resolved.len(),
{
    if resolved.len() > 0 && resolved[0].name@ != name {
        lemma_resolved_of_mem(resolved.drop_first(), name);
        let i = choose|i: int|
            0 <= i < resolved.drop_first().len() && resolved.drop_first()[i] == spec_resolved_of(
                resolved.drop_first(),
                name,
            ).unwrap();
        assert(resolved[i + 1] == spec_resolved_of(resolved, name).unwrap());
    }
}

/// Keeps every held record held when one more zone joins the watcher.
proof fn lemma_watcher_sync_grow(before: Seq<Zone>, after: Seq<Zone>, w: Watcher, rec: DnsRecord)
    requires
        w.watching@ == after,
        before.len() <= after.len(),
        forall|z: int| 0 <= z < before.len() ==> after[z] == before[z],
        exists|z: int, j: int|
            0 <= z < before.len() && 0 <= j < before[z].records@.len() && #[trigger] before[z].records@[j]
                == rec,
    ensures
        spec_watcher_sync(w, rec),
{
    let (z, j) = choose|z: int, j: int|
        0 <= z < before.len() && 0 <= j < before[z].records@.len() && #[trigger] before[z].records@[j]
            == rec;
    assert(w.watching@[z].records@[j] == rec);
}

/// Keeps every synced record synced when one more unit joins.
proof fn lemma_units_sync_push(units: Seq<Watcher>, extra: Watcher, token: Seq<char>, rec: DnsRecord)
    requires
        spec_units_sync(units, token, rec),
    ensures
        spec_units_sync(units.push(extra), token, rec),
{
    let u = choose|u: int|
        0 <= u < units.len() && (#[trigger] units[u]).token@ == token && spec_watcher_sync(
            units[u],
            rec,
        );
    assert(units.push(extra)[u] == units[u]);
}

/// Some binding of this interface references this zone name.
pub open spec fn spec_name_from_binding(
    name: String,
    records: Seq<RecordConfig>,
    iface: Seq<char>,
) -> bool {
    exists|k: int|
        0 <= k < records.len() && spec_on_interface(#[trigger] records[k], iface) && records[k].zone@
            == name@
}

/// The credential is the one of some listed zone.
pub open spec fn spec_token_from_zone(
    token: String,
    zone_names: Seq<String>,
    resolved: Seq<ResolvedZone>,
) -> bool {
    exists|b: int|
        0 <= b < zone_names.len() && spec_resolved_of(
            resolved,
            (#[trigger] zone_names[b])@,
        ).unwrap().token@ == token@
}

/// The zone is one of the resolved zones, governed by this credential.
pub open spec fn spec_zone_of_credential(
    zone: Zone,
    token: Seq<char>,
    resolved: Seq<ResolvedZone>,
) -> bool {
    exists|i: int|
        0 <= i < resolved.len() && (#[trigger] resolved[i]).token@ == token && zone.id
            == resolved[i].zone.id && zone.name == resolved[i].zone.name
}

/// The distinct zone names bound to this interface, in first-occurrence
/// order; fails on the first binding whose zone is not resolved.
#[verifier::loop_isolation(false)]
fn bound_zone_names(
    records: &Vec<RecordConfig>,
    resolved: &Vec<ResolvedZone>,
    iface: &Interface,
) -> (r: Result<Vec<String>, ConfigError>)
    ensures
        match r {
            Ok(zone_names) => {
                &&& forall|i: int, j: int|
                    #![trigger zone_names@[i]@, zone_names@[j]@]
                    0 <= i < j < zone_names@.len() ==> zone_names@[i]@ != zone_names@[j]@
                &&& forall|i: int|
                    0 <= i < zone_names@.len() ==> spec_name_from_binding(
                        #[trigger] zone_names@[i],
                        records@,
                        iface.name@,
                    )
                &&& forall|i: int|
                    0 <= i < zone_names@.len() ==> spec_resolved_of(
                        resolved@,
                        #[trigger] zone_names@[i]@,
                    ) is Some
                &&& forall|k2: int|
                    0 <= k2 < records@.len() && spec_on_interface(#[trigger] records@[k2], iface.name@)
                        ==> spec_covers(zone_names@, records@[k2].zone@) && spec_resolved_of(
                        resolved@,
                        records@[k2].zone@,
                    ) is Some
            },
            Err(e) => match e {
                ConfigError::UndefinedZone { zone } => exists|k: int|
                    0 <= k < records@.len() && spec_on_interface(#[trigger] records@[k], iface.name@)
                        && records@[k].zone@ == zone@ && spec_resolved_of(resolved@, zone@) is None,
                _ => false,
            },
        },
{
    let mut zone_names: Vec<String> = Vec::new();
    let n_recs = records.len();
    let mut k: usize = 0;
    while k < n_recs
        invariant
            k <= n_recs,
            forall|i: int, j: int|
                #![trigger zone_names@[i]@, zone_names@[j]@]
                0 <= i < j < zone_names@.len() ==> zone_names@[i]@ != zone_names@[j]@,
            forall|i: int|
                0 <= i < zone_names@.len() ==> spec_name_from_binding(
                    #[trigger] zone_names@[i],
                    records@,
                    iface.name@,
                ),
            forall|i: int|
                0 <= i < zone_names@.len() ==> spec_resolved_of(
                    resolved@,
                    #[trigger] zone_names@[i]@,
                ) is Some,
            forall|k2: int|
                0 <= k2 < k && spec_on_interface(#[trigger] records@[k2], iface.name@) ==> spec_covers(
                    zone_names@,
                    records@[k2].zone@,
                ),
        decreases n_recs - k,
    {
        let rc = &records[k];
        if str_eq(rc.interface.as_str(), iface.name.as_str()) {
            if !contains_str(&zone_names, rc.zone.as_str()) {
                if find_resolved(resolved, rc.zone.as_str()).is_none() {
                    return Err(ConfigError::UndefinedZone { zone: rc.zone.clone() });
                }
                let ghost names_before = zone_names@;
                zone_names.push(rc.zone.clone());
                proof {
                    assert(zone_names@[names_before.len() as int]@ == records@[k as int].zone@);
                    assert forall|k2: int|
                        0 <= k2 < k && spec_on_interface(
                            #[trigger] records@[k2],
                            iface.name@,
                        ) implies spec_covers(zone_names@, records@[k2].zone@) by {
                        lemma_covers_push(
                            names_before,
                            zone_names@[names_before.len() as int],
                            records@[k2].zone@,
                        );
                    }
                    assert(spec_on_interface(records@[k as int], iface.name@));
                    assert(spec_name_from_binding(
                        zone_names@[names_before.len() as int],
                        records@,
                        iface.name@,
                    ));
                }
            }
        }
        k += 1;
    }
    proof {
        assert forall|k2: int|
            0 <= k2 < records@.len() && spec_on_interface(
                #[trigger] records@[k2],
                iface.name@,
            ) implies spec_resolved_of(resolved@, records@[k2].zone@) is Some by {
            let i = choose|i: int|
                0 <= i < zone_names@.len() && zone_names@[i]@ == records@[k2].zone@;
            assert(spec_resolved_of(resolved@, zone_names@[i]@) is Some);
        }
    }
    Ok(zone_names)
}

/// The distinct credentials of the given resolved zones, in
/// first-occurrence order.
#[verifier::loop_isolation(false)]
fn credential_tokens(zone_names: &Vec<String>, resolved: &Vec<ResolvedZone>) -> (tokens: Vec<
    String,
>)
    requires
        forall|i: int|
            0 <= i < zone_names@.len() ==> spec_resolved_of(
                resolved@,
                #[trigger] zone_names@[i]@,
            ) is Some,
    ensures
        forall|a: int, b: int|
            #![trigger tokens@[a]@, tokens@[b]@]
            0 <= a < b < tokens@.len() ==> tokens@[a]@ != tokens@[b]@,
        forall|a: int|
            0 <= a < tokens@.len() ==> spec_token_from_zone(
                #[trigger] tokens@[a],
                zone_names@,
                resolved@,
            ),
        forall|i2: int|
            0 <= i2 < zone_names@.len() ==> spec_covers(
                tokens@,
                spec_resolved_of(resolved@, #[trigger] zone_names@[i2]@).unwrap().token@,
            ),
{
    let mut tokens: Vec<String> = Vec::new();
    let n_names = zone_names.len();
    let mut i: usize = 0;
    while i < n_names
        invariant
            i <= n_names,
            forall|a: int, b: int|
                #![trigger tokens@[a]@, tokens@[b]@]
                0 <= a < b < tokens@.len() ==> tokens@[a]@ != tokens@[b]@,
            forall|a: int|
                0 <= a < tokens@.len() ==> spec_token_from_zone(
                    #[trigger] tokens@[a],
                    zone_names@,
                    resolved@,
                ),
            forall|i2: int|
                0 <= i2 < i ==> spec_covers(
                    tokens@,
                    spec_resolved_of(resolved@, #[trigger] zone_names@[i2]@).unwrap().token@,
                ),
        decreases n_names - i,
    {
        let rz = match find_resolved(resolved, zone_names[i].as_str()) {
            Some(rz) => rz,
            None => {
                proof {
                    assert(false);
                }
                return tokens;
            },
        };
        if !contains_str(&tokens, rz.token.as_str()) {
            let ghost tokens_before = tokens@;
            tokens.push(rz.token.clone());
            proof {
                assert(tokens@[tokens_before.len() as int]@ == rz.token@);
                assert forall|i2: int| 0 <= i2 <= i implies spec_covers(
                    tokens@,
                    spec_resolved_of(resolved@, #[trigger] zone_names@[i2]@).unwrap().token@,
                ) by {
                    if i2 < i {
                        lemma_covers_push(
                            tokens_before,
                            tokens@[tokens_before.len() as int],
                            spec_resolved_of(resolved@, zone_names@[i2]@).unwrap().token@,
                        );
                    } else {
                        assert(tokens@[tokens_before.len() as int]@ == spec_resolved_of(
                            resolved@,
                            zone_names@[i2]@,
                        ).unwrap().token@);
                    }
                }
                assert(spec_resolved_of(resolved@, zone_names@[i as int]@).unwrap().token@
                    == tokens@[tokens_before.len() as int]@);
                assert(spec_token_from_zone(
                    tokens@[tokens_before.len() as int],
                    zone_names@,
                    resolved@,
                ));
            }
        }
        i += 1;
    }
    tokens
}

/// Builds the single unit of one credential on one interface: every
/// resolved zone of that credential among `zone_names` joins it, each
/// extended with its synthesized records.
#[verifier::loop_isolation(false)]
#[verifier::rlimit(100)]
#[verifier::spinoff_prover]
fn build_unit(
    records: &Vec<RecordConfig>,
    resolved: &Vec<ResolvedZone>,
    zone_names: &Vec<String>,
    iface: &Interface,
    token: &String,
) -> (r: Result<Watcher, ConfigError>)
    requires
        forall|i: int|
            0 <= i < zone_names@.len() ==> spec_resolved_of(
                resolved@,
                #[trigger] zone_names@[i]@,
            ) is Some,
    ensures
        match r {
            Ok(unit) => {
                &&& unit.token == *token
                &&& unit.interface == *iface
                &&& forall|z: int|
                    0 <= z < unit.watching@.len() ==> spec_zone_of_credential(
                        #[trigger] unit.watching@[z],
                        unit.token@,
                        resolved@,
                    )
                &&& spec_token_from_zone(*token, zone_names@, resolved@)
                    ==> unit.watching@.len() >= 1
                &&& forall|k2: int|
                    0 <= k2 < records@.len() && spec_on_interface(#[trigger] records@[k2], iface.name@)
                        && spec_covers(zone_names@, records@[k2].zone@) && spec_resolved_of(
                        resolved@,
                        records@[k2].zone@,
                    ).unwrap().token@ == token@ ==> {
                        let rz = spec_resolved_of(resolved@, records@[k2].zone@);
                        &&& spec_synthesized(records@[k2], rz.unwrap().zone.id, iface.info) is Some
                        &&& spec_watcher_sync(
                            unit,
                            spec_synthesized(records@[k2], rz.unwrap().zone.id, iface.info).unwrap(),
                        )
                    }
            },
            Err(e) => match e {
                ConfigError::UnsupportedRecordType { record } => exists|k: int|
                    0 <= k < records@.len() && spec_on_interface(#[trigger] records@[k], iface.name@)
                        && records@[k].ty.spec_family() is None && records@[k].name@ == record@,
                ConfigError::MissingAddress { record, family } => exists|k: int|
                    0 <= k < records@.len() && spec_on_interface(#[trigger] records@[k], iface.name@)
                        && records@[k].ty.spec_family() == Some(family) && iface.info.spec_address(
                        family,
                    ) is None && records@[k].name@ == record@,
                _ => false,
            },
        },
{
    let n_names = zone_names.len();
    let mut unit = Watcher::new(iface.clone(), token.clone());
    let mut zi: usize = 0;
    while zi < n_names
        invariant
            zi <= n_names,
            unit.token == *token,
            unit.interface == *iface,
            forall|z: int|
                0 <= z < unit.watching@.len() ==> spec_zone_of_credential(
                    #[trigger] unit.watching@[z],
                    unit.token@,
                    resolved@,
                ),
            (exists|i2: int|
                0 <= i2 < zi && spec_resolved_of(
                    resolved@,
                    (#[trigger] zone_names@[i2])@,
                ).unwrap().token@ == token@) ==> unit.watching@.len() >= 1,
            forall|k2: int|
                0 <= k2 < records@.len() && spec_on_interface(#[trigger] records@[k2], iface.name@)
                    && spec_covers_prefix(zone_names@, zi as int, records@[k2].zone@)
                    && spec_resolved_of(resolved@, records@[k2].zone@).unwrap().token@ == token@
                    ==> {
                    let rz = spec_resolved_of(resolved@, records@[k2].zone@);
                    &&& spec_synthesized(records@[k2], rz.unwrap().zone.id, iface.info) is Some
                    &&& spec_watcher_sync(
                        unit,
                        spec_synthesized(records@[k2], rz.unwrap().zone.id, iface.info).unwrap(),
                    )
                },
        decreases n_names - zi,
    {
        let ghost unit0 = unit;
        let zone_name = &zone_names[zi];
        let rz = match find_resolved(resolved, zone_name.as_str()) {
            Some(rz) => rz,
            None => {
                proof {
                    assert(false);
                }
                return Err(ConfigError::UndefinedZone { zone: zone_name.clone() });
            },
        };
        if str_eq(rz.token.as_str(), token.as_str()) {
            let mut zone = rz.zone.clone();
            let mut synth = match synthesize_records(
                records,
                &iface.name,
                zone_name,
                &zone.id,
                &iface.info,
            ) {
                Ok(synth) => synth,
                Err(e) => {
                    return Err(e);
                },
            };
            let ghost synth_view = synth@;
            let ghost base_len = zone.records@.len() as int;
            zone.records.append(&mut synth);
            let ghost zone_view = zone;
            unit.watching.push(zone);
            proof {
                lemma_resolved_of_mem(resolved@, zone_name@);
                assert(unit.watching@ == unit0.watching@.push(zone_view));
                let i2 = choose|i2: int|
                    0 <= i2 < resolved@.len() && resolved@[i2] == spec_resolved_of(
                        resolved@,
                        zone_name@,
                    ).unwrap();
                assert(resolved@[i2] == *rz);
                assert((#[trigger] resolved@[i2]).token@ == unit.token@);
                assert(spec_zone_of_credential(zone_view, unit.token@, resolved@));
                assert(unit.watching@[unit0.watching@.len() as int] == zone_view);
                assert forall|k2: int|
                    0 <= k2 < records@.len() && spec_on_interface(
                        #[trigger] records@[k2],
                        iface.name@,
                    ) && spec_covers_prefix(zone_names@, zi as int + 1, records@[k2].zone@)
                        && spec_resolved_of(resolved@, records@[k2].zone@).unwrap().token@
                        == token@ implies {
                    let rz2 = spec_resolved_of(resolved@, records@[k2].zone@);
                    &&& spec_synthesized(records@[k2], rz2.unwrap().zone.id, iface.info) is Some
                    &&& spec_watcher_sync(
                        unit,
                        spec_synthesized(records@[k2], rz2.unwrap().zone.id, iface.info).unwrap(),
                    )
                } by {
                    let i2 = choose|i2: int|
                        0 <= i2 < zi as int + 1 && i2 < zone_names@.len() && zone_names@[i2]@
                            == records@[k2].zone@;
                    if i2 < zi as int {
                        assert(spec_covers_prefix(zone_names@, zi as int, records@[k2].zone@));
                        let rz2 = spec_resolved_of(resolved@, records@[k2].zone@);
                        let rec = spec_synthesized(
                            records@[k2],
                            rz2.unwrap().zone.id,
                            iface.info,
                        ).unwrap();
                        assert(spec_watcher_sync(unit0, rec));
                        lemma_watcher_sync_grow(unit0.watching@, unit.watching@, unit, rec);
                    } else {
                        assert(records@[k2].zone@ == zone_name@);
                        assert(spec_resolved_of(resolved@, records@[k2].zone@) == Some(*rz));
                        assert(spec_binds(records@[k2], iface.name@, zone_name@));
                        assert(spec_holds_synthesized(
                            synth_view,
                            records@[k2],
                            rz.zone.id,
                            iface.info,
                        ));
                        let j = choose|j: int|
                            0 <= j < synth_view.len() && Some(#[trigger] synth_view[j])
                                == spec_synthesized(records@[k2], rz.zone.id, iface.info);
                        assert(zone_view.records@[base_len + j] == synth_view[j]);
                        let z = unit0.watching@.len() as int;
                        assert(unit.watching@[z] == zone_view);
                        assert(unit.watching@[z].records@[base_len + j] == synth_view[j]);
                    }
                }
            }
        }
        zi += 1;
    }
    proof {
        assert forall|k2: int|
            0 <= k2 < records@.len() && spec_on_interface(#[trigger] records@[k2], iface.name@)
                && spec_covers(zone_names@, records@[k2].zone@) && spec_resolved_of(
                resolved@,
                records@[k2].zone@,
            ).unwrap().token@ == token@ implies spec_covers_prefix(
            zone_names@,
            n_names as int,
            records@[k2].zone@,
        ) by {
        }
    }
    Ok(unit)
}

/// Builds the watch units of one interface: the bindings naming it are
/// partitioned by the credential of their zone — not by zone name — and
/// each distinct credential yields exactly one unit holding all of that
/// credential's zones, every zone extended with its synthesized records.
#[verifier::loop_isolation(false)]
#[verifier::rlimit(100)]
#[verifier::spinoff_prover]
pub fn assemble_interface(
    records: &Vec<RecordConfig>,
    resolved: &Vec<ResolvedZone>,
    iface: &Interface,
) -> (r: Result<Vec<Watcher>, ConfigError>)
    ensures
        match r {
            Ok(units) => {
                // Every unit follows this interface.
                &&& forall|u: int| 0 <= u < units@.len() ==> (#[trigger] units@[u]).interface == *iface
                // Grouping invariant: one unit per credential.
                &&& forall|u: int, v: int|
                    #![trigger units@[u].token@, units@[v].token@]
                    0 <= u < v < units@.len() ==> units@[u].token@ != units@[v].token@
                // No unit is empty.
                &&& forall|u: int| 0 <= u < units@.len() ==> (#[trigger] units@[u]).watching@.len() >= 1
                // Each unit's zones are resolved zones of its credential.
                &&& spec_zones_sound(units@, resolved@)
                // Every binding naming this interface is served by the
                // unit of its zone's credential.
                &&& forall|k: int|
                    0 <= k < records@.len() && spec_on_interface(#[trigger] records@[k], iface.name@)
                        ==> {
                        let rz = spec_resolved_of(resolved@, records@[k].zone@);
                        &&& rz is Some
                        &&& spec_synthesized(records@[k], rz.unwrap().zone.id, iface.info) is Some
                        &&& spec_units_sync(
                            units@,
                            rz.unwrap().token@,
                            spec_synthesized(records@[k], rz.unwrap().zone.id, iface.info).unwrap(),
                        )
                    }
            },
            Err(e) => match e {
                ConfigError::UndefinedZone { zone } => exists|k: int|
                    0 <= k < records@.len() && spec_on_interface(#[trigger] records@[k], iface.name@)
                        && records@[k].zone@ == zone@ && spec_resolved_of(resolved@, zone@) is None,
                ConfigError::UnsupportedRecordType { record } => exists|k: int|
                    0 <= k < records@.len() && spec_on_interface(#[trigger] records@[k], iface.name@)
                        && records@[k].ty.spec_family() is None && records@[k].name@ == record@,
                ConfigError::MissingAddress { record, family } => exists|k: int|
                    0 <= k < records@.len() && spec_on_interface(#[trigger] records@[k], iface.name@)
                        && records@[k].ty.spec_family() == Some(family) && iface.info.spec_address(
                        family,
                    ) is None && records@[k].name@ == record@,
                _ => false,
            },
        },
{
    let zone_names = match bound_zone_names(records, resolved, iface) {
        Ok(zone_names) => zone_names,
        Err(e) => {
            return Err(e);
        },
    };
    let tokens = credential_tokens(&zone_names, resolved);

    let mut units: Vec<Watcher> = Vec::new();
    let n_tokens = tokens.len();
    let mut ti: usize = 0;
    while ti < n_tokens
        invariant
            ti <= n_tokens,
            units@.len() == ti,
            forall|u: int| 0 <= u < units@.len() ==> (#[trigger] units@[u]).interface == *iface,
            forall|u: int| 0 <= u < units@.len() ==> (#[trigger] units@[u]).token@ == tokens@[u]@,
            forall|u: int| 0 <= u < units@.len() ==> (#[trigger] units@[u]).watching@.len() >= 1,
            spec_zones_sound(units@, resolved@),
            forall|k2: int|
                0 <= k2 < records@.len() && spec_on_interface(#[trigger] records@[k2], iface.name@)
                    && spec_covers_prefix(
                    tokens@,
                    ti as int,
                    spec_resolved_of(resolved@, records@[k2].zone@).unwrap().token@,
                ) ==> {
                    let rz = spec_resolved_of(resolved@, records@[k2].zone@);
                    &&& spec_synthesized(records@[k2], rz.unwrap().zone.id, iface.info) is Some
                    &&& spec_units_sync(
                        units@,
                        rz.unwrap().token@,
                        spec_synthesized(records@[k2], rz.unwrap().zone.id, iface.info).unwrap(),
                    )
                },
        decreases n_tokens - ti,
    {
        let token = &tokens[ti];
        let unit = match build_unit(records, resolved, &zone_names, iface, token) {
            Ok(unit) => unit,
            Err(e) => {
                return Err(e);
            },
        };
        let ghost units_before = units@;
        let ghost unit_view = unit;
        proof {
            // The credential entered `tokens` from some zone of its own,
            // so the unit cannot be empty.
            assert(spec_token_from_zone(tokens@[ti as int], zone_names@, resolved@));
            assert(unit.watching@.len() >= 1);
        }
        units.push(unit);
        proof {
            assert(units@[units_before.len() as int] == unit_view);
            assert forall|u: int, z: int|
                0 <= u < units@.len() && 0 <= z < units@[u].watching@.len() implies exists|i2: int|
                0 <= i2 < resolved@.len() && resolved@[i2].token@ == units@[u].token@ && (
                #[trigger] units@[u].watching@[z]).id == resolved@[i2].zone.id
                    && units@[u].watching@[z].name == resolved@[i2].zone.name by {
                if u < units_before.len() {
                    assert(units@[u] == units_before[u]);
                } else {
                    assert(units@[u] == unit_view);
                }
            }
            assert forall|k2: int|
                0 <= k2 < records@.len() && spec_on_interface(#[trigger] records@[k2], iface.name@)
                    && spec_covers_prefix(
                    tokens@,
                    ti as int + 1,
                    spec_resolved_of(resolved@, records@[k2].zone@).unwrap().token@,
                ) implies {
                let rz = spec_resolved_of(resolved@, records@[k2].zone@);
                &&& spec_synthesized(records@[k2], rz.unwrap().zone.id, iface.info) is Some
                &&& spec_units_sync(
                    units@,
                    rz.unwrap().token@,
                    spec_synthesized(records@[k2], rz.unwrap().zone.id, iface.info).unwrap(),
                )
            } by {
                let rz = spec_resolved_of(resolved@, records@[k2].zone@);
                let a = choose|a: int|
                    0 <= a < ti as int + 1 && a < tokens@.len() && tokens@[a]@ == rz.unwrap().token@;
                if a < ti as int {
                    assert(spec_covers_prefix(tokens@, ti as int, rz.unwrap().token@));
                    let rec = spec_synthesized(records@[k2], rz.unwrap().zone.id, iface.info).unwrap();
                    lemma_units_sync_push(units_before, unit_view, rz.unwrap().token@, rec);
                } else {
                    // This unit's own credential: its builder served the binding.
                    assert(rz.unwrap().token@ == tokens@[ti as int]@);
                    assert(spec_covers(zone_names@, records@[k2].zone@));
                    let rec = spec_synthesized(records@[k2], rz.unwrap().zone.id, iface.info).unwrap();
                    assert(spec_watcher_sync(unit_view, rec));
                    assert(units@[units_before.len() as int].token@ == rz.unwrap().token@);
                }
            }
        }
        ti += 1;
    }

    proof {
        assert forall|k2: int|
            0 <= k2 < records@.len() && spec_on_interface(
                #[trigger] records@[k2],
                iface.name@,
            ) implies spec_covers_prefix(
            tokens@,
            n_tokens as int,
            spec_resolved_of(resolved@, records@[k2].zone@).unwrap().token@,
        ) by {
            let i2 = choose|i2: int|
                0 <= i2 < zone_names@.len() && zone_names@[i2]@ == records@[k2].zone@;
            assert(spec_covers(
                tokens@,
                spec_resolved_of(resolved@, zone_names@[i2]@).unwrap().token@,
            ));
        }
    }

    Ok(units)
}

/// Some of the first `n` names reads `name`.
pub open spec fn spec_covers_prefix(names: Seq<String>, n: int, name: Seq<char>) -> bool {
    exists|i: int| 0 <= i < n && i < names.len() && names[i]@ == name
}



/// The watcher follows one of the first `n` configured interfaces, with
/// that interface's observed addresses taken from the snapshot.
pub open spec fn spec_from_interface(
    w: Watcher,
    interfaces: Seq<Interface>,
    n: int,
    entries: Seq<IfEntry>,
) -> bool {
    exists|i: int|
        0 <= i < n && i < interfaces.len() && w.interface.name@ == (
        #[trigger] interfaces[i]).name@ && w.interface.interval == interfaces[i].interval && Some(
            w.interface.info,
        ) == spec_lookup(entries, interfaces[i].name@)
}

/// Some unit follows the named interface.
pub open spec fn spec_units_follow(units: Seq<Watcher>, name: Seq<char>) -> bool {
    exists|u: int| 0 <= u < units.len() && (#[trigger] units[u]).interface.name@ == name
}

proof fn lemma_units_follow_app(units: Seq<Watcher>, more: Seq<Watcher>, name: Seq<char>)
    requires
        spec_units_follow(units, name),
    ensures
        spec_units_follow(units + more, name),
{
    let u = choose|u: int| 0 <= u < units.len() && (#[trigger] units[u]).interface.name@ == name;
    assert((units + more)[u] == units[u]);
}

proof fn lemma_units_sync_app(units: Seq<Watcher>, more: Seq<Watcher>, token: Seq<char>, rec: DnsRecord)
    requires
        spec_units_sync(units, token, rec),
    ensures
        spec_units_sync(units + more, token, rec),
{
    let u = choose|u: int|
        0 <= u < units.len() && (#[trigger] units[u]).token@ == token && spec_watcher_sync(
            units[u],
            rec,
        );
    assert((units + more)[u] == units[u]);
}

proof fn lemma_units_sync_lift(units: Seq<Watcher>, more: Seq<Watcher>, token: Seq<char>, rec: DnsRecord)
    requires
        spec_units_sync(more, token, rec),
    ensures
        spec_units_sync(units + more, token, rec),
{
    let u = choose|u: int|
        0 <= u < more.len() && (#[trigger] more[u]).token@ == token && spec_watcher_sync(
            more[u],
            rec,
        );
    assert((units + more)[units.len() + u] == more[u]);
}

/// All configured interfaces carry distinct names.
pub open spec fn spec_interfaces_distinct(interfaces: Seq<Interface>) -> bool {
    forall|a: int, b: int|
        #![trigger interfaces[a], interfaces[b]]
        0 <= a < b < interfaces.len() ==> interfaces[a].name@ != interfaces[b].name@
}

/// Assembles the full ordered set of watch units: for each configured
/// interface, in order, its current addresses are taken from the
/// snapshot — an interface the snapshot does not know fails the assembly
/// — and its bindings are grouped into one unit per credential. An
/// interface with no bindings still yields one placeholder unit with an
/// unusable credential, so it stays visible to reporting.
///
/// Any failure aborts the whole assembly: no partial set is produced.
#[verifier::loop_isolation(false)]
#[verifier::rlimit(100)]
#[verifier::spinoff_prover]
pub fn assemble(config: &ConfigFile, resolved: &Vec<ResolvedZone>, snapshot: &IfConfig) -> (r:
    Result<Vec<Watcher>, ConfigError>)
    ensures
        match r {
            Ok(ws) => {
                // Every unit belongs to a configured interface and saw
                // that interface's snapshot addresses.
                &&& forall|u: int|
                    0 <= u < ws@.len() ==> spec_from_interface(
                        #[trigger] ws@[u],
                        config.interfaces@,
                        config.interfaces@.len() as int,
                        snapshot.interfaces@,
                    )
                // Every configured interface stays visible.
                &&& forall|i: int|
                    0 <= i < config.interfaces@.len() ==> spec_units_follow(
                        ws@,
                        (#[trigger] config.interfaces@[i]).name@,
                    )
                &&& forall|i: int|
                    0 <= i < config.interfaces@.len() ==> spec_lookup(
                        snapshot.interfaces@,
                        (#[trigger] config.interfaces@[i]).name@,
                    ) is Some
                // Grouping invariant: when interface names are distinct,
                // no two units share an interface and a credential.
                &&& spec_interfaces_distinct(config.interfaces@) ==> forall|u: int, v: int|
                    #![trigger ws@[u], ws@[v]]
                    0 <= u < v < ws@.len() ==> !(ws@[u].interface.name@ == ws@[v].interface.name@
                        && ws@[u].token@ == ws@[v].token@)
                // Every binding of a configured interface is served by
                // the unit of its zone's credential, with the snapshot
                // address of its family as content.
                &&& forall|i: int, k: int|
                    #![trigger config.interfaces@[i], config.records@[k]]
                    0 <= i < config.interfaces@.len() && 0 <= k < config.records@.len()
                        && config.records@[k].interface@ == config.interfaces@[i].name@ ==> {
                        let info = spec_lookup(
                            snapshot.interfaces@,
                            config.interfaces@[i].name@,
                        ).unwrap();
                        let rz = spec_resolved_of(resolved@, config.records@[k].zone@);
                        &&& rz is Some
                        &&& spec_synthesized(config.records@[k], rz.unwrap().zone.id, info) is Some
                        &&& spec_units_sync(
                            ws@,
                            rz.unwrap().token@,
                            spec_synthesized(config.records@[k], rz.unwrap().zone.id, info).unwrap(),
                        )
                    }
            },
            Err(e) => match e {
                ConfigError::InterfaceNotFound { interface } => exists|i: int|
                    0 <= i < config.interfaces@.len() && (#[trigger] config.interfaces@[i]).name@
                        == interface@ && spec_lookup(snapshot.interfaces@, interface@) is None,
                ConfigError::UndefinedZone { zone } => exists|k: int|
                    0 <= k < config.records@.len() && (#[trigger] config.records@[k]).zone@ == zone@
                        && spec_resolved_of(resolved@, zone@) is None,
                ConfigError::UnsupportedRecordType { record } => exists|k: int|
                    0 <= k < config.records@.len() && (#[trigger] config.records@[k]).ty.spec_family()
                        is None && config.records@[k].name@ == record@,
                ConfigError::MissingAddress { record, family } => exists|i: int, k: int|
                    #![trigger config.interfaces@[i], config.records@[k]]
                    0 <= i < config.interfaces@.len() && 0 <= k < config.records@.len()
                        && config.records@[k].interface@ == config.interfaces@[i].name@
                        && config.records@[k].ty.spec_family() == Some(family) && spec_lookup(
                        snapshot.interfaces@,
                        config.interfaces@[i].name@,
                    ).unwrap().spec_address(family) is None && config.records@[k].name@ == record@,
                _ => false,
            },
        },
{
    let mut watchers: Vec<Watcher> = Vec::new();
    let n_ifs = config.interfaces.len();
    let mut i: usize = 0;
    while i < n_ifs
        invariant
            i <= n_ifs,
            forall|u: int|
                0 <= u < watchers@.len() ==> spec_from_interface(
                    #[trigger] watchers@[u],
                    config.interfaces@,
                    i as int,
                    snapshot.interfaces@,
                ),
            forall|i2: int|
                0 <= i2 < i ==> spec_units_follow(
                    watchers@,
                    (#[trigger] config.interfaces@[i2]).name@,
                ),
            forall|i2: int|
                0 <= i2 < i ==> spec_lookup(
                    snapshot.interfaces@,
                    (#[trigger] config.interfaces@[i2]).name@,
                ) is Some,
            spec_interfaces_distinct(config.interfaces@) ==> forall|u: int, v: int|
                #![trigger watchers@[u], watchers@[v]]
                0 <= u < v < watchers@.len() ==> !(watchers@[u].interface.name@
                    == watchers@[v].interface.name@ && watchers@[u].token@ == watchers@[v].token@),
            forall|i2: int, k: int|
                #![trigger config.interfaces@[i2], config.records@[k]]
                0 <= i2 < i && 0 <= k < config.records@.len() && config.records@[k].interface@
                    == config.interfaces@[i2].name@ ==> {
                    let info = spec_lookup(
                        snapshot.interfaces@,
                        config.interfaces@[i2].name@,
                    ).unwrap();
                    let rz = spec_resolved_of(resolved@, config.records@[k].zone@);
                    &&& rz is Some
                    &&& spec_synthesized(config.records@[k], rz.unwrap().zone.id, info) is Some
                    &&& spec_units_sync(
                        watchers@,
                        rz.unwrap().token@,
                        spec_synthesized(config.records@[k], rz.unwrap().zone.id, info).unwrap(),
                    )
                },
        decreases n_ifs - i,
    {
        let name = &config.interfaces[i].name;
        let info = match snapshot.get(name.as_str()) {
            Some(info) => *info,
            None => {
                return Err(ConfigError::InterfaceNotFound { interface: name.clone() });
            },
        };
        let iface2 = Interface {
            name: name.clone(),
            interval: config.interfaces[i].interval,
            info,
        };
        let mut units = match assemble_interface(&config.records, resolved, &iface2) {
            Ok(units) => units,
            Err(e) => {
                return Err(e);
            },
        };
        let ghost watchers_before = watchers@;
        let ghost batch = units@;
        if units.len() == 0 {
            let placeholder = Watcher::new(iface2, String::new());
            let ghost ph = placeholder;
            watchers.push(placeholder);
            proof {
                assert(watchers@ == watchers_before + seq![ph]);
                assert(watchers@[watchers_before.len() as int] == ph);
                assert(ph.interface.name@ == config.interfaces@[i as int].name@);
                assert forall|i2: int| 0 <= i2 <= i implies spec_units_follow(
                    watchers@,
                    (#[trigger] config.interfaces@[i2]).name@,
                ) by {
                    if i2 < i {
                        lemma_units_follow_app(
                            watchers_before,
                            seq![ph],
                            config.interfaces@[i2].name@,
                        );
                    } else {
                        assert(watchers@[watchers_before.len() as int].interface.name@
                            == config.interfaces@[i2].name@);
                    }
                }
                assert forall|i2: int, k: int|
                    #![trigger config.interfaces@[i2], config.records@[k]]
                    0 <= i2 <= i && 0 <= k < config.records@.len() && config.records@[k].interface@
                        == config.interfaces@[i2].name@ implies {
                    let info2 = spec_lookup(
                        snapshot.interfaces@,
                        config.interfaces@[i2].name@,
                    ).unwrap();
                    let rz = spec_resolved_of(resolved@, config.records@[k].zone@);
                    &&& rz is Some
                    &&& spec_synthesized(config.records@[k], rz.unwrap().zone.id, info2) is Some
                    &&& spec_units_sync(
                        watchers@,
                        rz.unwrap().token@,
                        spec_synthesized(config.records@[k], rz.unwrap().zone.id, info2).unwrap(),
                    )
                } by {
                    if i2 < i {
                        let info2 = spec_lookup(
                            snapshot.interfaces@,
                            config.interfaces@[i2].name@,
                        ).unwrap();
                        let rz = spec_resolved_of(resolved@, config.records@[k].zone@);
                        lemma_units_sync_app(
                            watchers_before,
                            seq![ph],
                            rz.unwrap().token@,
                            spec_synthesized(config.records@[k], rz.unwrap().zone.id, info2).unwrap(),
                        );
                    } else {
                        // No unit was built, so no binding names this
                        // interface: an empty batch cannot serve one.
                        assert(spec_on_interface(config.records@[k], iface2.name@));
                        assert(spec_units_sync(
                            batch,
                            spec_resolved_of(resolved@, config.records@[k].zone@).unwrap().token@,
                            spec_synthesized(
                                config.records@[k],
                                spec_resolved_of(
                                    resolved@,
                                    config.records@[k].zone@,
                                ).unwrap().zone.id,
                                iface2.info,
                            ).unwrap(),
                        ));
                        assert(false);
                    }
                }
            }
        } else {
            watchers.append(&mut units);
            proof {
                assert(watchers@ == watchers_before + batch);
                assert forall|u: int| 0 <= u < watchers@.len() implies spec_from_interface(
                    #[trigger] watchers@[u],
                    config.interfaces@,
                    i as int + 1,
                    snapshot.interfaces@,
                ) by {
                    if u < watchers_before.len() {
                        assert(watchers@[u] == watchers_before[u]);
                    } else {
                        assert(watchers@[u] == batch[u - watchers_before.len()]);
                        assert(watchers@[u].interface == iface2);
                        assert(watchers@[u].interface.name@ == config.interfaces@[i as int].name@);
                        assert(Some(watchers@[u].interface.info) == spec_lookup(
                            snapshot.interfaces@,
                            config.interfaces@[i as int].name@,
                        ));
                    }
                }
                assert forall|i2: int| 0 <= i2 <= i implies spec_units_follow(
                    watchers@,
                    (#[trigger] config.interfaces@[i2]).name@,
                ) by {
                    if i2 < i {
                        lemma_units_follow_app(
                            watchers_before,
                            batch,
                            config.interfaces@[i2].name@,
                        );
                    } else {
                        assert(watchers@[watchers_before.len() as int] == batch[0]);
                        assert(watchers@[watchers_before.len() as int].interface.name@
                            == config.interfaces@[i2].name@);
                    }
                }
                if spec_interfaces_distinct(config.interfaces@) {
                    assert forall|u: int, v: int|
                        #![trigger watchers@[u], watchers@[v]]
                        0 <= u < v < watchers@.len() implies !(watchers@[u].interface.name@
                            == watchers@[v].interface.name@ && watchers@[u].token@
                            == watchers@[v].token@) by {
                        if v < watchers_before.len() {
                        } else if u >= watchers_before.len() {
                            // Both from this batch: distinct credentials.
                            assert(watchers@[u] == batch[u - watchers_before.len()]);
                            assert(watchers@[v] == batch[v - watchers_before.len()]);
                            assert(batch[u - watchers_before.len()].token@ != batch[v
                                - watchers_before.len()].token@);
                        } else {
                            // Across batches: the interfaces differ.
                            assert(watchers@[u] == watchers_before[u]);
                            assert(watchers@[v] == batch[v - watchers_before.len()]);
                            let i2 = choose|i2: int|
                                0 <= i2 < i && i2 < config.interfaces@.len()
                                    && watchers_before[u].interface.name@ == (
                                #[trigger] config.interfaces@[i2]).name@
                                    && watchers_before[u].interface.interval
                                    == config.interfaces@[i2].interval && Some(
                                    watchers_before[u].interface.info,
                                ) == spec_lookup(
                                    snapshot.interfaces@,
                                    config.interfaces@[i2].name@,
                                );
                            assert(config.interfaces@[i2].name@ != config.interfaces@[i as int].name@);
                        }
                    }
                }
                assert forall|i2: int, k: int|
                    #![trigger config.interfaces@[i2], config.records@[k]]
                    0 <= i2 <= i && 0 <= k < config.records@.len() && config.records@[k].interface@
                        == config.interfaces@[i2].name@ implies {
                    let info2 = spec_lookup(
                        snapshot.interfaces@,
                        config.interfaces@[i2].name@,
                    ).unwrap();
                    let rz = spec_resolved_of(resolved@, config.records@[k].zone@);
                    &&& rz is Some
                    &&& spec_synthesized(config.records@[k], rz.unwrap().zone.id, info2) is Some
                    &&& spec_units_sync(
                        watchers@,
                        rz.unwrap().token@,
                        spec_synthesized(config.records@[k], rz.unwrap().zone.id, info2).unwrap(),
                    )
                } by {
                    let info2 = spec_lookup(
                        snapshot.interfaces@,
                        config.interfaces@[i2].name@,
                    ).unwrap();
                    let rz = spec_resolved_of(resolved@, config.records@[k].zone@);
                    if i2 < i {
                        lemma_units_sync_app(
                            watchers_before,
                            batch,
                            rz.unwrap().token@,
                            spec_synthesized(config.records@[k], rz.unwrap().zone.id, info2).unwrap(),
                        );
                    } else {
                        assert(spec_on_interface(config.records@[k], iface2.name@));
                        assert(info2 == iface2.info);
                        lemma_units_sync_lift(
                            watchers_before,
                            batch,
                            rz.unwrap().token@,
                            spec_synthesized(config.records@[k], rz.unwrap().zone.id, info2).unwrap(),
                        );
                    }
                }
            }
        }
        i += 1;
    }
    Ok(watchers)
}


} // verus!
