//! Addresses and CIDR ranges as plain integers.

use vstd::prelude::*;

verus! {

/// An IP address, held as the integer its octets spell in network order.
#[derive(Clone, Copy, Debug, PartialEq, Eq, Structural)]
pub enum Address {
    V4(u32),
    V6(u128),
}

/// A CIDR range: an address and the number of leading bits that name the
/// network.
#[derive(Clone, Copy, Debug, PartialEq, Eq, Structural)]
pub struct Cidr {
    pub addr: Address,
    pub prefix_len: u8,
}

/// The IPv4 mask with the leading `p` bits set.
pub open spec fn netmask_v4(p: u8) -> u32 {
    if p == 0 {
        0u32
    } else {
        0xffff_ffffu32 << ((32 - p) as u32)
    }
}

/// The IPv4 mask with all but the leading `p` bits set.
pub open spec fn hostmask_v4(p: u8) -> u32 {
    if p >= 32 {
        0u32
    } else {
        0xffff_ffffu32 >> (p as u32)
    }
}

/// The IPv6 mask with the leading `p` bits set.
pub open spec fn netmask_v6(p: u8) -> u128 {
    if p == 0 {
        0u128
    } else {
        0xffff_ffff_ffff_ffff_ffff_ffff_ffff_ffffu128 << ((128 - p) as u128)
    }
}

/// The IPv6 mask with all but the leading `p` bits set.
pub open spec fn hostmask_v6(p: u8) -> u128 {
    if p >= 128 {
        0u128
    } else {
        0xffff_ffff_ffff_ffff_ffff_ffff_ffff_ffffu128 >> (p as u128)
    }
}

impl Address {
    /// Number of bits in an address of this family.
    pub open spec fn width(self) -> u8 {
        match self {
            Address::V4(_) => 32u8,
            Address::V6(_) => 128u8,
        }
    }

    /// The address as a natural number.
    pub open spec fn value(self) -> nat {
        match self {
            Address::V4(v) => v as nat,
            Address::V6(v) => v as nat,
        }
    }

    /// Whether both addresses belong to one family.
    pub open spec fn same_family(self, other: Address) -> bool {
        self.width() == other.width()
    }

    /// The address `n` places after this one, within the family.
    pub open spec fn offset(self, n: nat) -> Address {
        match self {
            Address::V4(v) => Address::V4((v + n) as u32),
            Address::V6(v) => Address::V6((v + n) as u128),
        }
    }
}

impl Cidr {
    /// A range is well formed when its prefix fits its address family.
    pub open spec fn wf(self) -> bool {
        self.prefix_len <= self.addr.width()
    }

    /// The lowest address of the range.
    pub open spec fn network(self) -> Address {
        match self.addr {
            Address::V4(v) => Address::V4(v & netmask_v4(self.prefix_len)),
            Address::V6(v) => Address::V6(v & netmask_v6(self.prefix_len)),
        }
    }

    /// The highest address of the range.
    pub open spec fn broadcast(self) -> Address {
        match self.addr {
            Address::V4(v) => Address::V4(v | hostmask_v4(self.prefix_len)),
            Address::V6(v) => Address::V6(v | hostmask_v6(self.prefix_len)),
        }
    }

    /// Whether `a` lies in the range: same family, same leading bits.
    pub open spec fn contains(self, a: Address) -> bool {
        match (self.addr, a) {
            (Address::V4(v), Address::V4(w)) => (w & netmask_v4(self.prefix_len)) == (v
                & netmask_v4(self.prefix_len)),
            (Address::V6(v), Address::V6(w)) => (w & netmask_v6(self.prefix_len)) == (v
                & netmask_v6(self.prefix_len)),
            _ => false,
        }
    }

    /// Whether the lowest and highest address are set aside: an IPv4 range
    /// with more than two addresses keeps them for the network itself and
    /// for broadcast.
    pub open spec fn reserves_ends(self) -> bool {
        self.addr is V4 && self.prefix_len < 31
    }

    /// The first usable host address.
    pub open spec fn first_host(self) -> Address {
        if self.reserves_ends() {
            self.network().offset(1)
        } else {
            self.network()
        }
    }

    /// The last usable host address.
    pub open spec fn last_host(self) -> Address {
        match self.broadcast() {
            Address::V4(b) => if self.reserves_ends() {
                Address::V4((b - 1) as u32)
            } else {
                Address::V4(b)
            },
            Address::V6(b) => Address::V6(b),
        }
    }

    /// How many usable host addresses the range has.
    pub open spec fn host_count(self) -> nat {
        (self.last_host().value() - self.first_host().value() + 1) as nat
    }

    /// The usable host addresses, in ascending order.
    pub open spec fn hosts(self) -> Seq<Address> {
        Seq::new(self.host_count(), |i: int| self.first_host().offset(i as nat))
    }
}

/// Membership in an IPv4 range is membership in the interval from its
/// network address to its broadcast address.
pub proof fn lemma_v4_range_is_interval(v: u32, w: u32, p: u8)
    requires
        p <= 32,
    ensures
        ((w & netmask_v4(p)) == (v & netmask_v4(p))) <==> ((v & netmask_v4(p)) <= w <= (v
            | hostmask_v4(p))),
        (v & netmask_v4(p)) <= v <= (v | hostmask_v4(p)),
        p < 31 ==> (v | hostmask_v4(p)) - (v & netmask_v4(p)) >= 3,
        p == 31 ==> (v | hostmask_v4(p)) - (v & netmask_v4(p)) == 1,
        p == 32 ==> (v | hostmask_v4(p)) == v && (v & netmask_v4(p)) == v,
{
    let q: u32 = p as u32;
    let m = netmask_v4(p);
    let h = hostmask_v4(p);
    assert(m == (if q == 0 { 0u32 } else { 0xffff_ffffu32 << ((32u32 - q) as u32) }));
    assert(h == (if q >= 32 { 0u32 } else { 0xffff_ffffu32 >> q }));
    assert(((w & m) == (v & m)) <==> ((v & m) <= w && w <= (v | h))) by (bit_vector)
        requires
            q <= 32,
            m == (if q == 0 { 0u32 } else { 0xffff_ffffu32 << ((32u32 - q) as u32) }),
            h == (if q >= 32 { 0u32 } else { 0xffff_ffffu32 >> q }),
    ;
    assert((v & m) <= v && v <= (v | h)) by (bit_vector);
    assert(q < 31 ==> (v | h) - (v & m) >= 3) by (bit_vector)
        requires
            q <= 32,
            m == (if q == 0 { 0u32 } else { 0xffff_ffffu32 << ((32u32 - q) as u32) }),
            h == (if q >= 32 { 0u32 } else { 0xffff_ffffu32 >> q }),
    ;
    assert(q == 31 ==> (v | h) - (v & m) == 1) by (bit_vector)
        requires
            q <= 32,
            m == (if q == 0 { 0u32 } else { 0xffff_ffffu32 << ((32u32 - q) as u32) }),
            h == (if q >= 32 { 0u32 } else { 0xffff_ffffu32 >> q }),
    ;
    assert(q == 32 ==> (v | h) == v && (v & m) == v) by (bit_vector)
        requires
            m == (if q == 0 { 0u32 } else { 0xffff_ffffu32 << ((32u32 - q) as u32) }),
            h == (if q >= 32 { 0u32 } else { 0xffff_ffffu32 >> q }),
    ;
}

/// Membership in an IPv6 range is membership in the interval from its
/// lowest address to its highest.
pub proof fn lemma_v6_range_is_interval(v: u128, w: u128, p: u8)
    requires
        p <= 128,
    ensures
        ((w & netmask_v6(p)) == (v & netmask_v6(p))) <==> ((v & netmask_v6(p)) <= w <= (v
            | hostmask_v6(p))),
        (v & netmask_v6(p)) <= v <= (v | hostmask_v6(p)),
{
    let q: u128 = p as u128;
    let m = netmask_v6(p);
    let h = hostmask_v6(p);
    assert(((w & m) == (v & m)) <==> ((v & m) <= w && w <= (v | h))) by (bit_vector)
        requires
            q <= 128,
            m == (if q == 0 { 0u128 } else {
                0xffff_ffff_ffff_ffff_ffff_ffff_ffff_ffffu128 << ((128u128 - q) as u128)
            }),
            h == (if q >= 128 { 0u128 } else {
                0xffff_ffff_ffff_ffff_ffff_ffff_ffff_ffffu128 >> q
            }),
    ;
    assert((v & m) <= v && v <= (v | h)) by (bit_vector);
}

/// The usable hosts of a range are an ascending run of addresses that
/// starts at the first host and ends at the last.
pub proof fn lemma_hosts_ascending(c: Cidr)
    requires
        c.wf(),
    ensures
        c.host_count() >= 1,
        c.reserves_ends() ==> c.host_count() >= 2,
        c.hosts().len() == c.host_count(),
        c.hosts()[0] == c.first_host(),
        c.hosts()[c.host_count() - 1] == c.last_host(),
        forall|i: int|
            0 <= i < c.host_count() ==> (#[trigger] c.hosts()[i]).same_family(c.addr)
                && c.hosts()[i].value() == c.first_host().value() + i,
        forall|i: int, j: int|
            0 <= i < j < c.host_count() ==> (#[trigger] c.hosts()[i]).value() < (
            #[trigger] c.hosts()[j]).value(),
        c.hosts().no_duplicates(),
{
    match c.addr {
        Address::V4(v) => {
            lemma_v4_range_is_interval(v, v, c.prefix_len);
        },
        Address::V6(v) => {
            lemma_v6_range_is_interval(v, v, c.prefix_len);
        },
    }
}

/// Which addresses a range yields as hosts: every address of the range,
/// but for an IPv4 range of more than two addresses neither its network
/// address nor its broadcast address.
pub proof fn lemma_hosts_membership(c: Cidr, a: Address)
    requires
        c.wf(),
    ensures
        c.hosts().contains(a) <==> (c.contains(a) && (c.reserves_ends() ==> a != c.network() && a
            != c.broadcast())),
{
    lemma_hosts_ascending(c);
    let first = c.first_host().value();
    let last = c.last_host().value();
    match (c.addr, a) {
        (Address::V4(v), Address::V4(w)) => {
            lemma_v4_range_is_interval(v, w, c.prefix_len);
            if first <= w <= last {
                assert(c.hosts()[w - first] == a);
            }
        },
        (Address::V6(v), Address::V6(w)) => {
            lemma_v6_range_is_interval(v, w, c.prefix_len);
            if first <= w <= last {
                assert(c.hosts()[w - first] == a);
            }
        },
        _ => {
            if c.hosts().contains(a) {
                let i = choose|i: int| 0 <= i < c.hosts().len() && c.hosts()[i] == a;
                assert(c.hosts()[i].same_family(c.addr));
            }
        },
    }
}

} // verus!
