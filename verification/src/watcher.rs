//! The per-record polling state machine of a watch unit.
//!
//! A reconciliation pass walks the unit's records in zone order, then
//! record order. For each record it refreshes nothing itself: the caller
//! reads the address source once per pass, performs the remote calls this
//! module asks for, and feeds every result back in. The decisions — skip,
//! look up, create, update, or leave alone — are all made here.

use vstd::prelude::*;

use crate::cloudflare::{DnsContent, DnsRecord, DnsRecordType, RecordError, Zone};
use crate::config::Interface;
use crate::system::InterfaceInfo;
use crate::addr::IpAddress;

verus! {

/// One independent watch unit: a credential, the interface it follows,
/// and the zones whose records it keeps in sync. The remote client bound
/// to the credential lives with the caller.
pub struct Watcher {
    pub token: String,
    pub interface: Interface,
    pub watching: Vec<Zone>,
}

impl Watcher {
    pub fn new(interface: Interface, token: String) -> (r: Self)
        ensures
            r.token == token,
            r.interface == interface,
            r.watching@.len() == 0,
    {
        Watcher { token, interface, watching: Vec::new() }
    }
}

/// The remote write a record needs, once its identity is settled.
#[derive(Clone, Copy, Debug, PartialEq, Eq, Structural)]
pub enum WriteAction {
    /// The stored content already equals the desired address.
    NoWrite,
    /// The content changed in place; the remote record must be updated.
    Update,
    /// The record was never resolved remotely; it must be created.
    Create,
}

/// The address a record wants: the snapshot's address of the family the
/// record's declared type implies.
pub open spec fn spec_desired_address(ty: DnsRecordType, info: InterfaceInfo) -> Option<IpAddress> {
    match ty.spec_family() {
        Some(family) => info.spec_address(family),
        None => None,
    }
}

pub fn desired_address(ty: DnsRecordType, info: &InterfaceInfo) -> (r: Option<IpAddress>)
    ensures
        r == spec_desired_address(ty, *info),
{
    match ty.family() {
        Some(family) => info.address(family),
        None => None,
    }
}

/// Whether the record's remote identity is still unknown, so that a
/// lookup must precede any write.
pub fn needs_lookup(record: &DnsRecord) -> (r: bool)
    ensures
        r == (record.id is None),
{
    record.id.is_none()
}

/// Absorbs the result of a remote lookup: a found record fully replaces
/// the local one — identity, content, proxy flag and TTL; a miss leaves
/// the local record untouched, its identity still unset.
pub fn absorb_lookup(record: &mut DnsRecord, found: Option<DnsRecord>)
    ensures
        match found {
            Some(f) => *final(record) == f,
            None => *final(record) == *old(record),
        },
{
    if let Some(f) = found {
        *record = f;
    }
}

/// What applying a desired address leaves in the record and asks of the
/// remote store, as one value.
pub open spec fn spec_apply_address(rec: DnsRecord, addr: IpAddress) -> (DnsRecord, Result<
    WriteAction,
    RecordError,
>) {
    if rec.id is Some {
        let (updated, outcome) = rec.spec_try_update(addr);
        match outcome {
            Ok(changed) => (updated, Ok(if changed {
                WriteAction::Update
            } else {
                WriteAction::NoWrite
            })),
            Err(e) => (rec, Err(e)),
        }
    } else {
        ((DnsRecord { content: DnsContent::spec_of_address(addr), ..rec }), Ok(WriteAction::Create))
    }
}

/// Applies the desired address to a record whose lookup, if any, has been
/// absorbed.
///
/// A resolved record is updated in place when its declared type matches
/// the address family and the content differs, left alone when the
/// content already agrees, and refused with the type-mismatch error —
/// unchanged — otherwise. An unresolved record has its content set and
/// must be created remotely.
pub fn apply_address(record: &mut DnsRecord, addr: IpAddress) -> (r: Result<
    WriteAction,
    RecordError,
>)
    ensures
        (*final(record), r) == spec_apply_address(*old(record), addr),
        r is Err ==> *final(record) == *old(record),
{
    if record.id.is_some() {
        match record.try_update(addr) {
            Ok(true) => Ok(WriteAction::Update),
            Ok(false) => Ok(WriteAction::NoWrite),
            Err(e) => Err(e),
        }
    } else {
        record.content = DnsContent::of_address(addr);
        Ok(WriteAction::Create)
    }
}

/// Absorbs the provider's answer to a create or update call: the remote
/// response is authoritative and fully replaces the local record (the
/// provider may normalize values).
pub fn absorb_write(record: &mut DnsRecord, response: DnsRecord)
    ensures
        *final(record) == response,
{
    *record = response;
}

/// A record has converged on an address: it is resolved, declared for the
/// address's family, and stores exactly that address.
pub open spec fn spec_converged(rec: DnsRecord, addr: IpAddress) -> bool {
    &&& rec.id is Some
    &&& rec.ty.spec_family() == Some(addr.spec_family())
    &&& rec.content == DnsContent::spec_of_address(addr)
}

/// A pass that plans no write found the record already converged, and
/// left it untouched.
pub proof fn lemma_no_write_means_converged(rec: DnsRecord, addr: IpAddress)
    requires
        spec_apply_address(rec, addr).1 == Ok::<WriteAction, RecordError>(WriteAction::NoWrite),
    ensures
        spec_converged(rec, addr),
        spec_apply_address(rec, addr).0 == rec,
{
}

/// Idempotence of the reconciliation pass: if one pass succeeded — either
/// it needed no write, or its write was answered by a record resolved to
/// the desired address — then a second pass over the same observed
/// address plans no write at all and changes nothing.
pub proof fn lemma_reconcile_idempotent(rec: DnsRecord, addr: IpAddress, after: DnsRecord)
    requires
        ({
            let (settled, outcome) = spec_apply_address(rec, addr);
            match outcome {
                Ok(WriteAction::NoWrite) => after == settled,
                Ok(_) => {
                    // The provider acknowledged the write: the absorbed
                    // response is resolved and holds the desired address.
                    &&& after.id is Some
                    &&& after.ty.spec_family() == Some(addr.spec_family())
                    &&& after.content == DnsContent::spec_of_address(addr)
                },
                Err(_) => false,
            }
        }),
    ensures
        spec_converged(after, addr),
        spec_apply_address(after, addr) == (after, Ok::<WriteAction, RecordError>(
            WriteAction::NoWrite,
        )),
{
    let (settled, outcome) = spec_apply_address(rec, addr);
    if outcome == Ok::<WriteAction, RecordError>(WriteAction::NoWrite) {
        lemma_no_write_means_converged(rec, addr);
    }
}

} // verus!
