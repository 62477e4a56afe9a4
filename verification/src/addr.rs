//! Plain-value models of IPv4 and IPv6 addresses and of the two address
//! families. An IPv4 address is four octets; an IPv6 address is eight
//! 16-bit segments.

use vstd::prelude::*;

verus! {

/// An IPv4 address, as its four octets in network order.
#[derive(Clone, Copy, Debug, PartialEq, Eq, Structural)]
pub struct Ipv4Address {
    pub o0: u8,
    pub o1: u8,
    pub o2: u8,
    pub o3: u8,
}

impl Ipv4Address {
    pub fn new(o0: u8, o1: u8, o2: u8, o3: u8) -> (r: Self)
        ensures
            r == (Ipv4Address { o0, o1, o2, o3 }),
    {
        Ipv4Address { o0, o1, o2, o3 }
    }

    /// The octet at position `i`, counting from the left of the dotted form.
    pub open spec fn spec_octet(self, i: int) -> u8 {
        if i == 0 {
            self.o0
        } else if i == 1 {
            self.o1
        } else if i == 2 {
            self.o2
        } else {
            self.o3
        }
    }

    pub fn octet(&self, i: usize) -> (r: u8)
        requires
            i < 4,
        ensures
            r == self.spec_octet(i as int),
    {
        if i == 0 {
            self.o0
        } else if i == 1 {
            self.o1
        } else if i == 2 {
            self.o2
        } else {
            self.o3
        }
    }
}

/// An IPv6 address, as its eight 16-bit segments in network order.
#[derive(Clone, Copy, Debug, PartialEq, Eq, Structural)]
pub struct Ipv6Address {
    pub s0: u16,
    pub s1: u16,
    pub s2: u16,
    pub s3: u16,
    pub s4: u16,
    pub s5: u16,
    pub s6: u16,
    pub s7: u16,
}

impl Ipv6Address {
    pub fn new(s0: u16, s1: u16, s2: u16, s3: u16, s4: u16, s5: u16, s6: u16, s7: u16) -> (r: Self)
        ensures
            r == (Ipv6Address { s0, s1, s2, s3, s4, s5, s6, s7 }),
    {
        Ipv6Address { s0, s1, s2, s3, s4, s5, s6, s7 }
    }

    /// The segment at position `i`, counting from the left of the colon form.
    pub open spec fn spec_segment(self, i: int) -> u16 {
        if i == 0 {
            self.s0
        } else if i == 1 {
            self.s1
        } else if i == 2 {
            self.s2
        } else if i == 3 {
            self.s3
        } else if i == 4 {
            self.s4
        } else if i == 5 {
            self.s5
        } else if i == 6 {
            self.s6
        } else {
            self.s7
        }
    }

    pub fn segment(&self, i: usize) -> (r: u16)
        requires
            i < 8,
        ensures
            r == self.spec_segment(i as int),
    {
        if i == 0 {
            self.s0
        } else if i == 1 {
            self.s1
        } else if i == 2 {
            self.s2
        } else if i == 3 {
            self.s3
        } else if i == 4 {
            self.s4
        } else if i == 5 {
            self.s5
        } else if i == 6 {
            self.s6
        } else {
            self.s7
        }
    }

    /// Builds an address from a sequence of exactly eight segments.
    pub fn from_segments(segs: &Vec<u16>) -> (r: Self)
        requires
            segs@.len() == 8,
        ensures
            forall|i: int| 0 <= i < 8 ==> r.spec_segment(i) == segs@[i],
    {
        Ipv6Address {
            s0: segs[0],
            s1: segs[1],
            s2: segs[2],
            s3: segs[3],
            s4: segs[4],
            s5: segs[5],
            s6: segs[6],
            s7: segs[7],
        }
    }
}

/// The two address families the reconciler can apply to a record.
#[derive(Clone, Copy, Debug, PartialEq, Eq, Structural)]
pub enum AddressFamily {
    IPv4,
    IPv6,
}

/// An address of either family.
#[derive(Clone, Copy, Debug, PartialEq, Eq, Structural)]
pub enum IpAddress {
    V4(Ipv4Address),
    V6(Ipv6Address),
}

impl IpAddress {
    /// The family the address belongs to.
    pub open spec fn spec_family(self) -> AddressFamily {
        match self {
            IpAddress::V4(_) => AddressFamily::IPv4,
            IpAddress::V6(_) => AddressFamily::IPv6,
        }
    }

    pub fn family(&self) -> (r: AddressFamily)
        ensures
            r == self.spec_family(),
    {
        match self {
            IpAddress::V4(_) => AddressFamily::IPv4,
            IpAddress::V6(_) => AddressFamily::IPv6,
        }
    }
}

} // verus!
