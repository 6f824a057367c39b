//! The boundary to the `ipnet` crate: reading CIDR notation, walking the
//! hosts of a range, and writing an IPv6 address as text.
//!
//! Everything in this file is believed, not proved. Each item says what it
//! takes from `ipnet` and what it claims of it.

use crate::addr::{Address, Cidr};
use vstd::prelude::*;

verus! {

/// `ipnet::IpAddrRange`, the iterator over the addresses of a range.
#[verifier::external_type_specification]
#[verifier::external_body]
pub struct ExIpAddrRange(ipnet::IpAddrRange);

/// What `ipnet::IpNet::from_str` reads from a text: the address and prefix
/// length of the network it denotes, or `None` where the text is not CIDR
/// notation.
pub uninterp spec fn parsed_net(text: Seq<char>) -> Option<Cidr>;

/// The addresses that an `ipnet::IpAddrRange` has still to yield, in the
/// order in which `next` hands them out.
pub uninterp spec fn range_rest(range: ipnet::IpAddrRange) -> Seq<Address>;

/// How `std::net::Ipv6Addr` displays the address with the given bits.
pub uninterp spec fn ipv6_text(bits: u128) -> Seq<char>;

/// Calls `ipnet::IpNet::from_str`. Claims that the outcome depends on the
/// text alone, and that a network that was read has a prefix length within
/// its family's width: the parser reads at most 32 for IPv4 and at most 128
/// for IPv6. The address keeps the host bits that the text spelled.
#[verifier::external_body]
pub(crate) fn parse_net(text: &str) -> (r: Option<Cidr>)
    ensures
        r == parsed_net(text@),
        r matches Some(c) ==> c.wf(),
{
    match text.parse::<ipnet::IpNet>() {
        Ok(ipnet::IpNet::V4(n)) => Some(
            Cidr { addr: Address::V4(n.addr().into()), prefix_len: n.prefix_len() },
        ),
        Ok(ipnet::IpNet::V6(n)) => Some(
            Cidr { addr: Address::V6(n.addr().into()), prefix_len: n.prefix_len() },
        ),
        Err(_) => None,
    }
}

/// Calls `ipnet::IpNet::hosts` on the network with the given address and
/// prefix length. Claims that the iterator yields, in ascending order, the
/// addresses from the network address to the broadcast address, without
/// those two where the network is IPv4 and its prefix is shorter than 31.
#[verifier::external_body]
pub(crate) fn host_range(c: Cidr) -> (range: ipnet::IpAddrRange)
    requires
        c.wf(),
    ensures
        range_rest(range) == c.hosts(),
{
    match c.addr {
        Address::V4(v) => ipnet::IpNet::V4(
            ipnet::Ipv4Net::new(v.into(), c.prefix_len).unwrap(),
        ).hosts(),
        Address::V6(v) => ipnet::IpNet::V6(
            ipnet::Ipv6Net::new(v.into(), c.prefix_len).unwrap(),
        ).hosts(),
    }
}

/// Calls `next` on an `ipnet::IpAddrRange`. Claims that it hands out the
/// first of the remaining addresses and leaves the others, and that an
/// exhausted range stays exhausted.
#[verifier::external_body]
pub(crate) fn next_host(range: &mut ipnet::IpAddrRange) -> (a: Option<Address>)
    ensures
        range_rest(*old(range)).len() == 0 ==> a is None && range_rest(*final(range)).len() == 0,
        range_rest(*old(range)).len() > 0 ==> a == Some(range_rest(*old(range))[0]) && range_rest(
            *final(range),
        ) == range_rest(*old(range)).drop_first(),
{
    match range {
        ipnet::IpAddrRange::V4(r) => r.next().map(|a| Address::V4(a.into())),
        ipnet::IpAddrRange::V6(r) => r.next().map(|a| Address::V6(a.into())),
    }
}

/// Formats the address with the given bits through the `Display` impl of
/// `std::net::Ipv6Addr`, reached by way of `ipnet::Ipv6Net::addr`. Claims
/// only that the text depends on the bits alone.
#[verifier::external_body]
pub(crate) fn format_v6(bits: u128) -> (s: String)
    ensures
        s@ == ipv6_text(bits),
{
    ipnet::Ipv6Net::new(bits.into(), 128).unwrap().addr().to_string()
}

} // verus!
