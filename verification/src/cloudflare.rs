//! The record data model: identifiers, zones, DNS records, record content,
//! TTL and proxy attributes, and the shape of provider responses.

use vstd::prelude::*;

use crate::addr::{AddressFamily, IpAddress, Ipv4Address, Ipv6Address};

verus! {

/// A non-empty identifier string bound to a remote resource.
#[derive(Debug)]
pub struct Id {
    text: String,
}

impl View for Id {
    type V = Seq<char>;

    closed spec fn view(&self) -> Seq<char> {
        self.text@
    }
}

impl Id {
    /// An identifier is well-formed when it is non-empty.
    pub open spec fn wf(self) -> bool {
        self@.len() > 0
    }

    /// Accepts exactly the non-empty strings.
    pub fn new(text: String) -> (r: Option<Id>)
        ensures
            r is Some <==> text@.len() > 0,
            r is Some ==> r.unwrap()@ == text@,
    {
        if text.as_str().is_empty() {
            None
        } else {
            Some(Id { text })
        }
    }

    pub fn as_str(&self) -> (r: &str)
        ensures
            r@ == self@,
    {
        self.text.as_str()
    }

    /// Identifier equality is equality of the underlying text.
    pub fn matches(&self, other: &Id) -> (r: bool)
        ensures
            r == (self@ == other@),
    {
        self.text == other.text
    }
}

impl Clone for Id {
    fn clone(&self) -> (r: Self)
        ensures
            r == *self,
    {
        Id { text: self.text.clone() }
    }
}

/// The type of DNS records the reconciler can encounter; only `A` and
/// `AAAA` records are actively managed.
#[derive(Clone, Copy, Debug, PartialEq, Eq, Hash, Structural)]
pub enum DnsRecordType {
    A,
    AAAA,
    CNAME,
    Other,
}

impl DnsRecordType {
    /// The address family a record type implies, if any.
    pub open spec fn spec_family(self) -> Option<AddressFamily> {
        match self {
            DnsRecordType::A => Some(AddressFamily::IPv4),
            DnsRecordType::AAAA => Some(AddressFamily::IPv6),
            _ => None,
        }
    }

    pub fn family(&self) -> (r: Option<AddressFamily>)
        ensures
            r == self.spec_family(),
    {
        match self {
            DnsRecordType::A => Some(AddressFamily::IPv4),
            DnsRecordType::AAAA => Some(AddressFamily::IPv6),
            _ => None,
        }
    }

    /// The record type that stores addresses of the given family.
    pub fn from_family(family: AddressFamily) -> (r: DnsRecordType)
        ensures
            r.spec_family() == Some(family),
    {
        match family {
            AddressFamily::IPv4 => DnsRecordType::A,
            AddressFamily::IPv6 => DnsRecordType::AAAA,
        }
    }
}

impl Default for DnsRecordType {
    fn default() -> (r: Self)
        ensures
            r == DnsRecordType::A,
    {
        DnsRecordType::A
    }
}

/// The time-to-live of a record. An absent value stands for the provider
/// default ("automatic"), which travels on the wire as the literal `1`.
#[derive(Clone, Copy, Debug, PartialEq, Eq)]
pub struct Ttl {
    pub value: Option<u32>,
}

impl Ttl {
    /// A stored TTL is positive; zero cannot be represented.
    pub open spec fn wf(self) -> bool {
        match self.value {
            Some(n) => n >= 1,
            None => true,
        }
    }

    /// The provider-default TTL.
    pub fn automatic() -> (r: Ttl)
        ensures
            r.value is None,
            r.wf(),
    {
        Ttl { value: None }
    }

    /// The number this TTL serializes to.
    pub open spec fn spec_wire(self) -> u32 {
        match self.value {
            Some(n) => n,
            None => 1,
        }
    }

    pub fn to_wire(&self) -> (r: u32)
        ensures
            r == self.spec_wire(),
    {
        match self.value {
            Some(n) => n,
            None => 1,
        }
    }

    /// The TTL a wire number deserializes to; `0` is rejected and `1`
    /// denotes the provider default.
    pub open spec fn spec_from_wire(n: u32) -> Option<Ttl> {
        if n == 0 {
            None
        } else if n == 1 {
            Some(Ttl { value: None })
        } else {
            Some(Ttl { value: Some(n) })
        }
    }

    pub fn from_wire(n: u32) -> (r: Option<Ttl>)
        ensures
            r == Ttl::spec_from_wire(n),
            r is Some ==> r.unwrap().wf(),
    {
        if n == 0 {
            None
        } else if n == 1 {
            Some(Ttl { value: None })
        } else {
            Some(Ttl { value: Some(n) })
        }
    }
}

impl Default for Ttl {
    fn default() -> (r: Self)
        ensures
            r.value is None,
            r.wf(),
    {
        Ttl { value: None }
    }
}

/// Every wire number at least `1` survives a deserialize/serialize round
/// trip exactly.
pub proof fn lemma_ttl_wire_roundtrip(n: u32)
    requires
        n >= 1,
    ensures
        Ttl::spec_from_wire(n) is Some,
        Ttl::spec_from_wire(n).unwrap().spec_wire() == n,
        Ttl::spec_from_wire(n).unwrap().wf(),
{
}

/// An absent TTL serializes to the literal `1` and deserializes back to
/// the absent state.
pub proof fn lemma_ttl_absent_roundtrip()
    ensures
        (Ttl { value: None }).spec_wire() == 1,
        Ttl::spec_from_wire((Ttl { value: None }).spec_wire()) == Some(Ttl { value: None }),
{
}

/// Whether a record is proxied by the provider.
#[derive(Clone, Copy, Debug, PartialEq, Eq, Structural)]
pub enum ProxyMode {
    Proxied,
    Unproxied,
}

impl ProxyMode {
    pub fn as_bool(&self) -> (r: bool)
        ensures
            r == (*self == ProxyMode::Proxied),
    {
        match self {
            ProxyMode::Proxied => true,
            ProxyMode::Unproxied => false,
        }
    }

    /// The proxy mode an optional wire boolean deserializes to; an absent
    /// value means not proxied.
    pub fn from_wire(v: Option<bool>) -> (r: ProxyMode)
        ensures
            r == ProxyMode::Proxied <==> v == Some(true),
    {
        match v {
            Some(true) => ProxyMode::Proxied,
            _ => ProxyMode::Unproxied,
        }
    }
}

impl Default for ProxyMode {
    fn default() -> (r: Self)
        ensures
            r == ProxyMode::Unproxied,
    {
        ProxyMode::Unproxied
    }
}

/// The value of a DNS record: an address of either family for the managed
/// record types, or the verbatim text of anything else.
#[derive(Debug)]
pub enum DnsContent {
    A(Ipv4Address),
    AAAA(Ipv6Address),
    Other(String),
}

impl DnsContent {
    /// The address family of the stored value, if it is an address.
    pub open spec fn spec_family(self) -> Option<AddressFamily> {
        match self {
            DnsContent::A(_) => Some(AddressFamily::IPv4),
            DnsContent::AAAA(_) => Some(AddressFamily::IPv6),
            DnsContent::Other(_) => None,
        }
    }

    /// The content holding the given address.
    pub open spec fn spec_of_address(addr: IpAddress) -> DnsContent {
        match addr {
            IpAddress::V4(a) => DnsContent::A(a),
            IpAddress::V6(a) => DnsContent::AAAA(a),
        }
    }

    pub fn of_address(addr: IpAddress) -> (r: DnsContent)
        ensures
            r == DnsContent::spec_of_address(addr),
    {
        match addr {
            IpAddress::V4(a) => DnsContent::A(a),
            IpAddress::V6(a) => DnsContent::AAAA(a),
        }
    }

    /// Value equality: addresses compare by value, opaque text by its
    /// characters.
    pub open spec fn spec_matches(self, other: DnsContent) -> bool {
        match (self, other) {
            (DnsContent::A(x), DnsContent::A(y)) => x == y,
            (DnsContent::AAAA(x), DnsContent::AAAA(y)) => x == y,
            (DnsContent::Other(x), DnsContent::Other(y)) => x@ == y@,
            _ => false,
        }
    }
}

impl PartialEq for DnsContent {
    fn eq(&self, other: &Self) -> (r: bool) {
        match (self, other) {
            (DnsContent::A(x), DnsContent::A(y)) => {
                x.o0 == y.o0 && x.o1 == y.o1 && x.o2 == y.o2 && x.o3 == y.o3
            },
            (DnsContent::AAAA(x), DnsContent::AAAA(y)) => {
                x.s0 == y.s0 && x.s1 == y.s1 && x.s2 == y.s2 && x.s3 == y.s3 && x.s4 == y.s4
                    && x.s5 == y.s5 && x.s6 == y.s6 && x.s7 == y.s7
            },
            (DnsContent::Other(x), DnsContent::Other(y)) => *x == *y,
            _ => false,
        }
    }
}

impl vstd::std_specs::cmp::PartialEqSpecImpl for DnsContent {
    open spec fn obeys_eq_spec() -> bool {
        true
    }

    open spec fn eq_spec(&self, other: &Self) -> bool {
        self.spec_matches(*other)
    }
}

impl Clone for DnsContent {
    fn clone(&self) -> (r: Self)
        ensures
            r == *self,
    {
        match self {
            DnsContent::A(a) => DnsContent::A(*a),
            DnsContent::AAAA(a) => DnsContent::AAAA(*a),
            DnsContent::Other(s) => DnsContent::Other(s.clone()),
        }
    }
}

/// A contract violation: an address of one family was applied to a record
/// declared for the other.
#[derive(Clone, Copy, Debug, PartialEq, Eq, Structural)]
pub enum RecordError {
    TypeMismatch,
}

/// The key details of a single DNS record: its remote identity (absent
/// until first resolved), the zone it belongs to, and its attributes.
#[derive(Debug)]
pub struct DnsRecord {
    pub id: Option<Id>,
    pub zone_id: Id,
    pub name: String,
    pub ty: DnsRecordType,
    pub content: DnsContent,
    pub proxied: ProxyMode,
    pub ttl: Ttl,
}

impl Clone for DnsRecord {
    fn clone(&self) -> (r: Self)
        ensures
            r == *self,
    {
        DnsRecord {
            id: match &self.id {
                Some(id) => Some(id.clone()),
                None => None,
            },
            zone_id: self.zone_id.clone(),
            name: self.name.clone(),
            ty: self.ty,
            content: self.content.clone(),
            proxied: self.proxied,
            ttl: self.ttl,
        }
    }
}

impl DnsRecord {
    /// What `try_update` leaves in the record and returns, as one value:
    /// the updated record, and either `Ok(changed)` or the type-mismatch
    /// error.
    pub open spec fn spec_try_update(self, addr: IpAddress) -> (DnsRecord, Result<
        bool,
        RecordError,
    >) {
        match addr {
            IpAddress::V4(a) => {
                if self.ty == DnsRecordType::A {
                    match self.content {
                        DnsContent::A(cur) => {
                            if cur == a {
                                (self, Ok(false))
                            } else {
                                ((DnsRecord { content: DnsContent::A(a), ..self }), Ok(true))
                            }
                        },
                        _ => (self, Err(RecordError::TypeMismatch)),
                    }
                } else {
                    (self, Err(RecordError::TypeMismatch))
                }
            },
            IpAddress::V6(a) => {
                if self.ty == DnsRecordType::AAAA {
                    match self.content {
                        DnsContent::AAAA(cur) => {
                            if cur == a {
                                (self, Ok(false))
                            } else {
                                ((DnsRecord { content: DnsContent::AAAA(a), ..self }), Ok(true))
                            }
                        },
                        _ => (self, Err(RecordError::TypeMismatch)),
                    }
                } else {
                    (self, Err(RecordError::TypeMismatch))
                }
            },
        }
    }

    /// Applies an address to this record's content.
    ///
    /// If the record's declared type matches the address family and the
    /// stored content already equals the address, nothing changes and
    /// `Ok(false)` is returned. If the type matches but the content
    /// differs, the content is replaced and `Ok(true)` is returned. If the
    /// declared type does not match the address family, the record is left
    /// unchanged and the type-mismatch error is returned.
    pub fn try_update(&mut self, addr: IpAddress) -> (r: Result<bool, RecordError>)
        ensures
            (*final(self), r) == old(self).spec_try_update(addr),
            r is Err ==> *final(self) == *old(self),
    {
        match addr {
            IpAddress::V4(a) => {
                if self.ty == DnsRecordType::A {
                    match &self.content {
                        DnsContent::A(cur) => {
                            if *cur == a {
                                Ok(false)
                            } else {
                                self.content = DnsContent::A(a);
                                Ok(true)
                            }
                        },
                        _ => Err(RecordError::TypeMismatch),
                    }
                } else {
                    Err(RecordError::TypeMismatch)
                }
            },
            IpAddress::V6(a) => {
                if self.ty == DnsRecordType::AAAA {
                    match &self.content {
                        DnsContent::AAAA(cur) => {
                            if *cur == a {
                                Ok(false)
                            } else {
                                self.content = DnsContent::AAAA(a);
                                Ok(true)
                            }
                        },
                        _ => Err(RecordError::TypeMismatch),
                    }
                } else {
                    Err(RecordError::TypeMismatch)
                }
            },
        }
    }
}

/// The few key details of a DNS zone: its identifier, its name, and the
/// records this process keeps in sync within it.
#[derive(Debug)]
pub struct Zone {
    pub id: Id,
    pub name: String,
    pub records: Vec<DnsRecord>,
}

impl Zone {
    pub fn new(id: Id, name: String) -> (r: Self)
        ensures
            r.id == id,
            r.name == name,
            r.records@.len() == 0,
    {
        Zone { id, name, records: Vec::new() }
    }
}

impl Clone for Zone {
    fn clone(&self) -> (r: Self)
        ensures
            r.id == self.id,
            r.name == self.name,
            r.records@ == self.records@,
    {
        let mut records: Vec<DnsRecord> = Vec::new();
        let mut i: usize = 0;
        while i < self.records.len()
            invariant
                i <= self.records.len(),
                records@.len() == i as nat,
                forall|j: int| 0 <= j < i ==> records@[j] == self.records@[j],
            decreases self.records.len() - i,
        {
            records.push(self.records[i].clone());
            i += 1;
        }
        proof {
            assert(records@ =~= self.records@);
        }
        Zone { id: self.id.clone(), name: self.name.clone(), records }
    }
}

/// A structured provider error: a numeric code and a message.
#[derive(Debug)]
pub struct ResponseError {
    pub code: usize,
    pub message: String,
}

/// How a provider call fails: a structured provider error, or a success
/// envelope that carried no payload.
#[derive(Debug)]
pub enum ApiError {
    Provider(ResponseError),
    MissingPayload,
}

/// The envelope every provider response arrives in.
pub struct Response<T> {
    pub success: bool,
    pub result: Option<T>,
    pub errors: Vec<ResponseError>,
}

impl<T> Response<T> {
    /// Unwraps the envelope: a successful response yields its payload, an
    /// unsuccessful one yields the last of its reported errors.
    pub fn ok(self) -> (r: Result<T, ApiError>)
        requires
            !self.success ==> self.errors@.len() >= 1,
        ensures
            self.success && self.result is Some ==> r == Ok::<T, ApiError>(self.result.unwrap()),
            self.success && self.result is None ==> r == Err::<T, ApiError>(ApiError::MissingPayload),
            !self.success ==> r == Err::<T, ApiError>(
                ApiError::Provider(self.errors@.last()),
            ),
    {
        if self.success {
            match self.result {
                Some(payload) => Ok(payload),
                None => Err(ApiError::MissingPayload),
            }
        } else {
            let mut errors = self.errors;
            match errors.pop() {
                Some(e) => Err(ApiError::Provider(e)),
                None => Err(ApiError::MissingPayload),
            }
        }
    }
}

} // verus!
