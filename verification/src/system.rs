//! The local address source, modeled as a point-in-time snapshot: for each
//! interface name, at most one IPv4 and one IPv6 address. Reading the
//! system's interfaces happens outside this crate; the snapshot arrives
//! here as plain values.

use vstd::prelude::*;

use crate::addr::{AddressFamily, IpAddress, Ipv4Address, Ipv6Address};

verus! {

/// Character-for-character string equality.
pub fn str_eq(a: &str, b: &str) -> (r: bool)
    ensures
        r == (a@ == b@),
{
    let an = a.unicode_len();
    let bn = b.unicode_len();
    if an != bn {
        proof {
            assert(a@ != b@) by {
                assert(a@.len() != b@.len());
            }
        }
        return false;
    }
    let mut i: usize = 0;
    while i < an
        invariant
            an == a@.len(),
            bn == b@.len(),
            an == bn,
            i <= an,
            forall|j: int| 0 <= j < i ==> a@[j] == b@[j],
        decreases an - i,
    {
        if a.get_char(i) != b.get_char(i) {
            return false;
        }
        i += 1;
    }
    proof {
        assert(a@ =~= b@);
    }
    true
}

/// The platform kind the process runs on; everything that is not one of
/// the known gateway models counts as `Other`.
#[derive(Clone, Copy, Debug, PartialEq, Eq, Structural)]
pub enum Platform {
    UDM,
    UDMP,
    UDMSE,
    UDR,
    Other,
}

impl Platform {
    /// The platform a detected model string names.
    pub open spec fn spec_of_model(s: Seq<char>) -> Platform {
        if s == "UDM"@ {
            Platform::UDM
        } else if s == "UDM-Pro"@ {
            Platform::UDMP
        } else if s == "UDM-SE"@ {
            Platform::UDMSE
        } else if s == "UDR"@ {
            Platform::UDR
        } else {
            Platform::Other
        }
    }

    pub fn of_model(s: &str) -> (r: Platform)
        ensures
            r == Platform::spec_of_model(s@),
    {
        if str_eq(s, "UDM") {
            Platform::UDM
        } else if str_eq(s, "UDM-Pro") {
            Platform::UDMP
        } else if str_eq(s, "UDM-SE") {
            Platform::UDMSE
        } else if str_eq(s, "UDR") {
            Platform::UDR
        } else {
            Platform::Other
        }
    }
}

/// The addresses observed on one interface: at most one per family.
#[derive(Clone, Copy, Debug, PartialEq, Eq)]
pub struct InterfaceInfo {
    pub v4: Option<Ipv4Address>,
    pub v6: Option<Ipv6Address>,
}

impl InterfaceInfo {
    pub fn new(v4: Option<Ipv4Address>, v6: Option<Ipv6Address>) -> (r: Self)
        ensures
            r == (InterfaceInfo { v4, v6 }),
    {
        InterfaceInfo { v4, v6 }
    }

    /// Whether any address is bound at all.
    pub fn has_ip(&self) -> (r: bool)
        ensures
            r == (self.v4 is Some || self.v6 is Some),
    {
        self.v4.is_some() || self.v6.is_some()
    }

    /// The observed address of the given family, if one is bound.
    pub open spec fn spec_address(self, family: AddressFamily) -> Option<IpAddress> {
        match family {
            AddressFamily::IPv4 => match self.v4 {
                Some(a) => Some(IpAddress::V4(a)),
                None => None,
            },
            AddressFamily::IPv6 => match self.v6 {
                Some(a) => Some(IpAddress::V6(a)),
                None => None,
            },
        }
    }

    pub fn address(&self, family: AddressFamily) -> (r: Option<IpAddress>)
        ensures
            r == self.spec_address(family),
    {
        match family {
            AddressFamily::IPv4 => match self.v4 {
                Some(a) => Some(IpAddress::V4(a)),
                None => None,
            },
            AddressFamily::IPv6 => match self.v6 {
                Some(a) => Some(IpAddress::V6(a)),
                None => None,
            },
        }
    }
}

impl Default for InterfaceInfo {
    fn default() -> (r: Self)
        ensures
            r.v4 is None,
            r.v6 is None,
    {
        InterfaceInfo { v4: None, v6: None }
    }
}

/// One named interface's observed addresses within a snapshot.
pub struct IfEntry {
    pub name: String,
    pub info: InterfaceInfo,
}

/// A snapshot of all interfaces that had a bound address when the system
/// was read. The first entry with a given name wins on lookup.
pub struct IfConfig {
    pub interfaces: Vec<IfEntry>,
}

/// The info recorded for `name` in the entries, first match first.
pub open spec fn spec_lookup(entries: Seq<IfEntry>, name: Seq<char>) -> Option<InterfaceInfo>
    decreases entries.len(),
{
    if entries.len() == 0 {
        None
    } else if entries[0].name@ == name {
        Some(entries[0].info)
    } else {
        spec_lookup(entries.drop_first(), name)
    }
}

/// The recorded info is the info of the first entry carrying the name.
pub proof fn lemma_lookup_prefix(entries: Seq<IfEntry>, name: Seq<char>, i: int)
    requires
        0 <= i < entries.len(),
        entries[i].name@ == name,
        forall|j: int| 0 <= j < i ==> entries[j].name@ != name,
    ensures
        spec_lookup(entries, name) == Some(entries[i].info),
    decreases i,
{
    if i > 0 {
        lemma_lookup_prefix(entries.drop_first(), name, i - 1);
    }
}

/// No entry carries the name, so nothing is recorded for it.
pub proof fn lemma_lookup_absent(entries: Seq<IfEntry>, name: Seq<char>)
    requires
        forall|j: int| 0 <= j < entries.len() ==> entries[j].name@ != name,
    ensures
        spec_lookup(entries, name) is None,
    decreases entries.len(),
{
    if entries.len() > 0 {
        lemma_lookup_absent(entries.drop_first(), name);
    }
}

impl IfConfig {
    /// An empty snapshot, to be filled entry by entry as the system is
    /// read.
    pub fn empty() -> (r: Self)
        ensures
            r.interfaces@.len() == 0,
    {
        IfConfig { interfaces: Vec::new() }
    }

    /// Records one interface's observed addresses.
    pub fn record(&mut self, name: String, info: InterfaceInfo)
        ensures
            final(self).interfaces@ == old(self).interfaces@.push(
                IfEntry { name, info },
            ),
    {
        self.interfaces.push(IfEntry { name, info });
    }

    /// The observed addresses of the named interface, if it is in the
    /// snapshot.
    pub fn get(&self, name: &str) -> (r: Option<&InterfaceInfo>)
        ensures
            match r {
                Some(info) => spec_lookup(self.interfaces@, name@) == Some(*info),
                None => spec_lookup(self.interfaces@, name@) is None,
            },
    {
        let n = self.interfaces.len();
        let mut i: usize = 0;
        while i < n
            invariant
                n == self.interfaces@.len(),
                i <= n,
                forall|j: int| 0 <= j < i ==> self.interfaces@[j].name@ != name@,
            decreases n - i,
        {
            if str_eq(self.interfaces[i].name.as_str(), name) {
                proof {
                    lemma_lookup_prefix(self.interfaces@, name@, i as int);
                }
                return Some(&self.interfaces[i].info);
            }
            i += 1;
        }
        proof {
            lemma_lookup_absent(self.interfaces@, name@);
        }
        None
    }
}

} // verus!
