//! What the reporting command computes: the per-record synchronization
//! status against the remote store, the per-unit summary, and the
//! startup filter that selects which units a run works on.

use vstd::prelude::*;

use crate::cloudflare::{DnsContent, DnsRecord, DnsRecordType, Id, ProxyMode, Ttl, Zone};
use crate::watcher::Watcher;
use crate::system::str_eq;

verus! {

/// How one record stands against the remote store.
#[derive(Debug)]
pub enum CloudflareStatus {
    /// The remote record exists and matches the local content.
    OK,
    /// No remote record exists yet.
    Missing,
    /// The remote record is declared for another type.
    TypeMismatch(DnsRecordType),
    /// The remote record exists but its content differs.
    OutOfSync,
    /// The remote lookup itself failed.
    Failed(String),
}

/// The whole report line of one record.
pub struct SyncStatus {
    pub name: String,
    pub zone: Id,
    pub ty: DnsRecordType,
    pub local: DnsContent,
    pub upstream: Option<DnsContent>,
    pub status: CloudflareStatus,
    pub proxied: ProxyMode,
    pub ttl: Ttl,
}

/// The summary of one watch unit.
#[derive(Clone, Copy, Debug, PartialEq, Eq, Structural)]
pub enum WatcherStatus {
    /// The unit owns no records at all.
    Disabled,
    /// Every record is up to date.
    Synced,
    /// Some record is missing, mismatched or out of sync.
    OutOfSync,
    /// Some lookup failed.
    Failed,
}

/// Classifies one record against the outcome of its remote lookup: a
/// failed lookup, a missing remote record, a type disagreement, matching
/// content, or drift.
pub fn record_status(zone: &Zone, record: &DnsRecord, upstream: Result<
    Option<DnsRecord>,
    String,
>) -> (s: SyncStatus)
    ensures
        s.name == record.name,
        s.zone == zone.id,
        s.ty == record.ty,
        s.local == record.content,
        match upstream {
            Err(msg) => {
                &&& s.status == CloudflareStatus::Failed(msg)
                &&& s.upstream is None
                &&& s.proxied == ProxyMode::Unproxied
                &&& s.ttl.value is None
            },
            Ok(None) => {
                &&& s.status == CloudflareStatus::Missing
                &&& s.upstream is None
                &&& s.proxied == ProxyMode::Unproxied
                &&& s.ttl.value is None
            },
            Ok(Some(up)) => {
                &&& s.proxied == up.proxied
                &&& s.ttl == up.ttl
                &&& s.upstream == Some(up.content)
                &&& s.status == if record.ty != up.ty {
                    CloudflareStatus::TypeMismatch(up.ty)
                } else if record.content.spec_matches(up.content) {
                    CloudflareStatus::OK
                } else {
                    CloudflareStatus::OutOfSync
                }
            },
        },
{
    let mut s = SyncStatus {
        name: record.name.clone(),
        zone: zone.id.clone(),
        ty: record.ty,
        local: record.content.clone(),
        upstream: None,
        status: CloudflareStatus::Missing,
        proxied: ProxyMode::Unproxied,
        ttl: Ttl { value: None },
    };
    match upstream {
        Ok(None) => {},
        Ok(Some(up)) => {
            s.proxied = up.proxied;
            s.ttl = up.ttl;
            if s.ty != up.ty {
                s.status = CloudflareStatus::TypeMismatch(up.ty);
            } else if record.content == up.content {
                s.status = CloudflareStatus::OK;
            } else {
                s.status = CloudflareStatus::OutOfSync;
            }
            s.upstream = Some(up.content);
        },
        Err(msg) => {
            s.status = CloudflareStatus::Failed(msg);
        },
    }
    s
}

/// One step of the unit summary: a failed lookup marks the unit failed,
/// an up-to-date record changes nothing, and anything else marks drift.
pub open spec fn spec_status_step(acc: WatcherStatus, st: CloudflareStatus) -> WatcherStatus {
    match st {
        CloudflareStatus::Failed(_) => WatcherStatus::Failed,
        CloudflareStatus::OK => acc,
        _ => WatcherStatus::OutOfSync,
    }
}

/// The summary after the first `n` record statuses, starting from a
/// fully synced unit.
pub open spec fn spec_status_after(sts: Seq<SyncStatus>, n: int) -> WatcherStatus
    decreases n,
{
    if n <= 0 {
        WatcherStatus::Synced
    } else {
        spec_status_step(spec_status_after(sts, n - 1), sts[n - 1].status)
    }
}

/// Summarizes a unit: a unit with no records at all is disabled; else
/// the records are folded in order, later findings overriding earlier
/// ones as `spec_status_step` says.
pub fn unit_status(statuses: &Vec<SyncStatus>) -> (r: WatcherStatus)
    ensures
        statuses@.len() == 0 ==> r == WatcherStatus::Disabled,
        statuses@.len() > 0 ==> r == spec_status_after(statuses@, statuses@.len() as int),
{
    if statuses.len() == 0 {
        return WatcherStatus::Disabled;
    }
    let mut acc = WatcherStatus::Synced;
    let n = statuses.len();
    let mut i: usize = 0;
    while i < n
        invariant
            n == statuses@.len(),
            i <= n,
            acc == spec_status_after(statuses@, i as int),
        decreases n - i,
    {
        acc = match &statuses[i].status {
            CloudflareStatus::Failed(_) => WatcherStatus::Failed,
            CloudflareStatus::OK => acc,
            _ => WatcherStatus::OutOfSync,
        };
        i += 1;
    }
    acc
}

/// Filtering a sequence one element at a time agrees with `filter`.
proof fn lemma_filter_push<A>(s: Seq<A>, x: A, pred: spec_fn(A) -> bool)
    ensures
        s.push(x).filter(pred) == if pred(x) {
            s.filter(pred).push(x)
        } else {
            s.filter(pred)
        },
{
    reveal(Seq::filter);
    assert(s.push(x).drop_last() =~= s);
    assert(s.push(x).last() == x);
}

/// Keeps exactly the records carrying the given name, in order.
#[verifier::loop_isolation(false)]
fn filter_records(records: &Vec<DnsRecord>, name: &String) -> (r: Vec<DnsRecord>)
    ensures
        r@ == records@.filter(|dr: DnsRecord| dr.name@ == name@),
{
    let ghost pred = |dr: DnsRecord| dr.name@ == name@;
    let mut out: Vec<DnsRecord> = Vec::new();
    let n = records.len();
    let mut k: usize = 0;
    proof {
        reveal(Seq::filter);
        assert(records@.take(0).filter(pred) =~= Seq::<DnsRecord>::empty());
    }
    while k < n
        invariant
            n == records@.len(),
            k <= n,
            out@ == records@.take(k as int).filter(pred),
        decreases n - k,
    {
        proof {
            assert(records@.take(k as int + 1) =~= records@.take(k as int).push(
                records@[k as int],
            ));
            lemma_filter_push(records@.take(k as int), records@[k as int], pred);
        }
        if str_eq(records[k].name.as_str(), name.as_str()) {
            out.push(records[k].clone());
        }
        k += 1;
    }
    proof {
        assert(records@.take(n as int) =~= records@);
    }
    out
}

/// A kept zone is one of the watcher's old zones, cut down to the
/// records carrying the wanted name.
pub open spec fn spec_zone_filtered(z2: Zone, zones: Seq<Zone>, name: Seq<char>) -> bool {
    exists|z1: int|
        0 <= z1 < zones.len() && z2.id == (#[trigger] zones[z1]).id && z2.name == zones[z1].name
            && z2.records@ == zones[z1].records@.filter(|dr: DnsRecord| dr.name@ == name)
}

/// The cut-down form of this old zone survives among the kept zones.
pub open spec fn spec_zone_kept(kept: Seq<Zone>, z: Zone, name: Seq<char>) -> bool {
    exists|z2: int|
        0 <= z2 < kept.len() && (#[trigger] kept[z2]).id == z.id && kept[z2].name == z.name
            && kept[z2].records@ == z.records@.filter(|dr: DnsRecord| dr.name@ == name)
}

/// Decides, once at startup, whether a unit takes part in the run.
///
/// A unit whose interface is not the selected one is skipped untouched.
/// When a record name is selected, every zone is cut down to the records
/// of that name, zones left empty are dropped, and the unit takes part
/// exactly when something to sync remains. With no record selection the
/// unit takes part unchanged.
#[verifier::loop_isolation(false)]
pub fn should_watch(watcher: &mut Watcher, interface: Option<&String>, record: Option<&String>)
    -> (r: bool)
    ensures
        (match interface {
            Some(n) => old(watcher).interface.name@ != n@,
            None => false,
        }) ==> (!r && *final(watcher) == *old(watcher)),
        (match interface {
            Some(n) => old(watcher).interface.name@ == n@,
            None => true,
        }) ==> match record {
            None => r && *final(watcher) == *old(watcher),
            Some(rec) => {
                &&& final(watcher).token == old(watcher).token
                &&& final(watcher).interface == old(watcher).interface
                &&& r == (final(watcher).watching@.len() > 0)
                &&& forall|z2: int|
                    0 <= z2 < final(watcher).watching@.len() ==> spec_zone_filtered(
                        #[trigger] final(watcher).watching@[z2],
                        old(watcher).watching@,
                        rec@,
                    ) && final(watcher).watching@[z2].records@.len() > 0
                &&& forall|z1: int|
                    0 <= z1 < old(watcher).watching@.len() && (#[trigger] old(
                        watcher,
                    ).watching@[z1]).records@.filter(|dr: DnsRecord| dr.name@ == rec@).len() > 0
                        ==> spec_zone_kept(
                        final(watcher).watching@,
                        old(watcher).watching@[z1],
                        rec@,
                    )
            },
        },
{
    if let Some(name) = interface {
        if !str_eq(watcher.interface.name.as_str(), name.as_str()) {
            return false;
        }
    }

    if let Some(rec) = record {
        let mut kept: Vec<Zone> = Vec::new();
        let n = watcher.watching.len();
        let mut z: usize = 0;
        while z < n
            invariant
                n == old(watcher).watching@.len(),
                watcher.watching@ == old(watcher).watching@,
                watcher.token == old(watcher).token,
                watcher.interface == old(watcher).interface,
                z <= n,
                forall|z2: int|
                    0 <= z2 < kept@.len() ==> spec_zone_filtered(
                        #[trigger] kept@[z2],
                        old(watcher).watching@,
                        rec@,
                    ) && kept@[z2].records@.len() > 0,
                forall|z1: int|
                    0 <= z1 < z && (#[trigger] old(watcher).watching@[z1]).records@.filter(
                        |dr: DnsRecord| dr.name@ == rec@,
                    ).len() > 0 ==> spec_zone_kept(kept@, old(watcher).watching@[z1], rec@),
            decreases n - z,
        {
            let filtered = filter_records(&watcher.watching[z].records, rec);
            if filtered.len() > 0 {
                let ghost kept_before = kept@;
                let zone = Zone {
                    id: watcher.watching[z].id.clone(),
                    name: watcher.watching[z].name.clone(),
                    records: filtered,
                };
                let ghost zone_view = zone;
                kept.push(zone);
                proof {
                    assert(kept@[kept_before.len() as int] == zone_view);
                    assert(spec_zone_filtered(zone_view, old(watcher).watching@, rec@));
                    assert forall|z1: int|
                        0 <= z1 < z + 1 && (#[trigger] old(watcher).watching@[z1]).records@.filter(
                            |dr: DnsRecord| dr.name@ == rec@,
                        ).len() > 0 implies spec_zone_kept(
                        kept@,
                        old(watcher).watching@[z1],
                        rec@,
                    ) by {
                        if z1 < z {
                            let z2 = choose|z2: int|
                                0 <= z2 < kept_before.len() && (#[trigger] kept_before[z2]).id
                                    == old(watcher).watching@[z1].id && kept_before[z2].name == old(
                                    watcher,
                                ).watching@[z1].name && kept_before[z2].records@ == old(
                                    watcher,
                                ).watching@[z1].records@.filter(|dr: DnsRecord| dr.name@ == rec@);
                            assert(kept@[z2] == kept_before[z2]);
                        } else {
                            assert(kept@[kept_before.len() as int].id == old(
                                watcher,
                            ).watching@[z1].id);
                        }
                    }
                }
            }
            z += 1;
        }
        watcher.watching = kept;
        return watcher.watching.len() > 0;
    }

    true
}

} // verus!
