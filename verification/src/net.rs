//! Network addresses as plain values.
use crate::hash::same_array;
use vstd::prelude::*;

verus! {

/// An IPv4 or IPv6 address in network byte order.
#[derive(Clone, Copy, Debug, Eq, Hash)]
pub enum IpAddr {
    V4([u8; 4]),
    V6([u8; 16]),
}

impl PartialEq for IpAddr {
    fn eq(&self, other: &Self) -> (r: bool) {
        match (self, other) {
            (IpAddr::V4(a), IpAddr::V4(b)) => same_array(a, b),
            (IpAddr::V6(a), IpAddr::V6(b)) => same_array(a, b),
            _ => false,
        }
    }
}

impl vstd::std_specs::cmp::PartialEqSpecImpl for IpAddr {
    open spec fn obeys_eq_spec() -> bool {
        true
    }

    open spec fn eq_spec(&self, other: &Self) -> bool {
        *self == *other
    }
}

/// An address and a port.
#[derive(Clone, Copy, Debug, Eq, Hash)]
pub struct SocketAddr {
    pub ip: IpAddr,
    pub port: u16,
}

impl PartialEq for SocketAddr {
    fn eq(&self, other: &Self) -> (r: bool) {
        self.ip == other.ip && self.port == other.port
    }
}

impl vstd::std_specs::cmp::PartialEqSpecImpl for SocketAddr {
    open spec fn obeys_eq_spec() -> bool {
        true
    }

    open spec fn eq_spec(&self, other: &Self) -> bool {
        *self == *other
    }
}

impl IpAddr {
    /// 127.0.0.0/8 and ::1.
    pub open spec fn spec_is_loopback(&self) -> bool {
        match *self {
            IpAddr::V4(o) => o@[0] == 127,
            IpAddr::V6(o) => (forall|i: int| 0 <= i < 15 ==> o@[i] == 0) && o@[15] == 1,
        }
    }

    pub fn is_loopback(&self) -> (r: bool)
        ensures
            r == self.spec_is_loopback(),
    {
        match self {
            IpAddr::V4(o) => o[0] == 127,
            IpAddr::V6(o) => {
                let mut i: usize = 0;
                while i < 15
                    invariant
                        i <= 15,
                        *self == IpAddr::V6(*o),
                        forall|j: int| 0 <= j < i ==> o@[j] == 0,
                    decreases 15 - i,
                {
                    if o[i] != 0 {
                        return false;
                    }
                    i = i + 1;
                }
                o[15] == 1
            },
        }
    }
}

/// The bucket of a peer for inbound eviction.
///
/// IPv4 peers are grouped by /16, IPv6 peers by /32. Loopback traffic has a
/// bucket of its own.
#[derive(Clone, Copy, Debug, Eq, Hash)]
pub enum NetworkGroup {
    Ipv4Slash16([u8; 2]),
    Ipv6Slash32([u8; 4]),
    Loopback,
}

impl PartialEq for NetworkGroup {
    fn eq(&self, other: &Self) -> (r: bool) {
        match (self, other) {
            (NetworkGroup::Ipv4Slash16(a), NetworkGroup::Ipv4Slash16(b)) => same_array(a, b),
            (NetworkGroup::Ipv6Slash32(a), NetworkGroup::Ipv6Slash32(b)) => same_array(a, b),
            (NetworkGroup::Loopback, NetworkGroup::Loopback) => true,
            _ => false,
        }
    }
}

impl vstd::std_specs::cmp::PartialEqSpecImpl for NetworkGroup {
    open spec fn obeys_eq_spec() -> bool {
        true
    }

    open spec fn eq_spec(&self, other: &Self) -> bool {
        *self == *other
    }
}

impl NetworkGroup {
    /// Where a group stands in the order of groups: all IPv4 groups, then all
    /// IPv6 groups, each by their bytes, then loopback.
    pub open spec fn rank(self) -> int {
        match self {
            NetworkGroup::Ipv4Slash16(o) => o@[0] * 256 + o@[1],
            NetworkGroup::Ipv6Slash32(o) => 0x1_0000 + o@[0] * 0x100_0000 + o@[1] * 0x1_0000
                + o@[2] * 256 + o@[3],
            NetworkGroup::Loopback => 0x1_0001_0000,
        }
    }

    /// Whether `g` is the group of an address.
    pub open spec fn spec_from_ip(ip: IpAddr, g: NetworkGroup) -> bool {
        if ip.spec_is_loopback() {
            g == NetworkGroup::Loopback
        } else {
            match ip {
                IpAddr::V4(o) => match g {
                    NetworkGroup::Ipv4Slash16(p) => p@ == o@.take(2),
                    _ => false,
                },
                IpAddr::V6(o) => match g {
                    NetworkGroup::Ipv6Slash32(p) => p@ == o@.take(4),
                    _ => false,
                },
            }
        }
    }

    /// The group of an address.
    pub open spec fn of_ip(ip: IpAddr) -> NetworkGroup {
        choose|g: NetworkGroup| Self::spec_from_ip(ip, g)
    }

    pub fn from_ip(ip: IpAddr) -> (r: NetworkGroup)
        ensures
            Self::spec_from_ip(ip, r),
            r == Self::of_ip(ip),
    {
        let r = Self::bucket(ip);
        proof {
            lemma_group_unique(ip, r, Self::of_ip(ip));
        }
        r
    }

    fn bucket(ip: IpAddr) -> (r: NetworkGroup)
        ensures
            Self::spec_from_ip(ip, r),
    {
        if ip.is_loopback() {
            return NetworkGroup::Loopback;
        }
        match ip {
            IpAddr::V4(o) => {
                let p: [u8; 2] = [o[0], o[1]];
                assert(p@ =~= o@.take(2));
                NetworkGroup::Ipv4Slash16(p)
            },
            IpAddr::V6(o) => {
                let p: [u8; 4] = [o[0], o[1], o[2], o[3]];
                assert(p@ =~= o@.take(4));
                NetworkGroup::Ipv6Slash32(p)
            },
        }
    }

    /// The place of a group in the order of groups, as a number.
    pub fn ordinal(&self) -> (r: u64)
        ensures
            r == self.rank(),
    {
        match self {
            NetworkGroup::Ipv4Slash16(o) => o[0] as u64 * 256 + o[1] as u64,
            NetworkGroup::Ipv6Slash32(o) => 0x1_0000 + o[0] as u64 * 0x100_0000 + o[1] as u64
                * 0x1_0000 + o[2] as u64 * 256 + o[3] as u64,
            NetworkGroup::Loopback => 0x1_0001_0000,
        }
    }
}

/// An address has one group.
pub proof fn lemma_group_unique(ip: IpAddr, g: NetworkGroup, h: NetworkGroup)
    requires
        NetworkGroup::spec_from_ip(ip, g),
        NetworkGroup::spec_from_ip(ip, h),
    ensures
        g == h,
{
    match (g, h) {
        (NetworkGroup::Ipv4Slash16(a), NetworkGroup::Ipv4Slash16(b)) => {
            assert(a@ == b@);
            assert forall|i: int| 0 <= i < 2 implies a[i] == b[i] by {
                assert(a@[i] == b@[i]);
            }
            assert(a =~= b);
        },
        (NetworkGroup::Ipv6Slash32(a), NetworkGroup::Ipv6Slash32(b)) => {
            assert(a@ == b@);
            assert forall|i: int| 0 <= i < 4 implies a[i] == b[i] by {
                assert(a@[i] == b@[i]);
            }
            assert(a =~= b);
        },
        _ => {},
    }
}

/// Groups of one rank are the same group.
pub proof fn lemma_rank_injective(g: NetworkGroup, h: NetworkGroup)
    requires
        g.rank() == h.rank(),
    ensures
        g == h,
{
    match (g, h) {
        (NetworkGroup::Ipv4Slash16(a), NetworkGroup::Ipv4Slash16(b)) => {
            assert(a =~= b);
        },
        (NetworkGroup::Ipv6Slash32(a), NetworkGroup::Ipv6Slash32(b)) => {
            assert(a@[3] == b@[3]);
            assert(a@[2] == b@[2]);
            assert(a@[1] == b@[1]);
            assert(a@[0] == b@[0]);
            assert(a =~= b);
        },
        _ => {},
    }
}

} // verus!
