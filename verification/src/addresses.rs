//! IP addresses, socket addresses and networks, read with the standard
//! library's parsers (`core::net`) and `ipnet`. Each parsed value is handed to
//! the library as the plain numbers that it is ordered by.
use vstd::prelude::*;

use vstd::arithmetic::power2::pow2;

verus! {

/// What `core::net::Ipv4Addr::from_str(word)` gives, as the address's 32 bits
/// (`u32::from`, big-endian, so that the order is the address order).
pub uninterp spec fn ipv4_addr_from_str(word: Seq<char>) -> Option<u32>;

/// What `core::net::Ipv6Addr::from_str(word)` gives, as the address's 128 bits.
pub uninterp spec fn ipv6_addr_from_str(word: Seq<char>) -> Option<u128>;

/// What `core::net::IpAddr::from_str(word)` gives, as (is IPv6, address bits).
pub uninterp spec fn ip_addr_from_str(word: Seq<char>) -> Option<(bool, u128)>;

/// What `core::net::SocketAddrV4::from_str(word)` gives, as (address, port).
pub uninterp spec fn socket_addr_v4_from_str(word: Seq<char>) -> Option<(u32, u16)>;

/// What `core::net::SocketAddrV6::from_str(word)` gives, as (address, port,
/// flow information, scope id).
pub uninterp spec fn socket_addr_v6_from_str(word: Seq<char>) -> Option<(u128, u16, u32, u32)>;

/// What `core::net::SocketAddr::from_str(word)` gives, as (is IPv6, address,
/// port, flow information, scope id); an IPv4 socket address has no flow
/// information or scope id, and they are given as 0.
pub uninterp spec fn socket_addr_from_str(word: Seq<char>) -> Option<(bool, u128, u16, u32, u32)>;

/// What `ipnet::Ipv4Net::from_str(word)` gives, as (address, prefix length).
pub uninterp spec fn ipv4_net_from_str(word: Seq<char>) -> Option<(u32, u8)>;

/// What `ipnet::Ipv6Net::from_str(word)` gives, as (address, prefix length).
pub uninterp spec fn ipv6_net_from_str(word: Seq<char>) -> Option<(u128, u8)>;

/// What `ipnet::IpNet::from_str(word)` gives, as (is IPv6, address, prefix
/// length).
pub uninterp spec fn ip_net_from_str(word: Seq<char>) -> Option<(bool, u128, u8)>;

/// Calls `core::net::Ipv4Addr::from_str`. Claims only that the result is the
/// named one.
#[verifier::external_body]
pub(crate) fn parse_ipv4_addr(word: &str) -> (r: Option<u32>)
    ensures
        r == ipv4_addr_from_str(word@),
{
    match word.parse::<core::net::Ipv4Addr>() {
        Ok(address) => Some(u32::from(address)),
        Err(_) => None,
    }
}

/// Calls `core::net::Ipv6Addr::from_str`. Claims only that the result is the
/// named one.
#[verifier::external_body]
pub(crate) fn parse_ipv6_addr(word: &str) -> (r: Option<u128>)
    ensures
        r == ipv6_addr_from_str(word@),
{
    match word.parse::<core::net::Ipv6Addr>() {
        Ok(address) => Some(u128::from(address)),
        Err(_) => None,
    }
}

/// Calls `core::net::IpAddr::from_str`. Claims that the result is the named
/// one, and that an IPv4 address fits in 32 bits.
#[verifier::external_body]
pub(crate) fn parse_ip_addr(word: &str) -> (r: Option<(bool, u128)>)
    ensures
        r == ip_addr_from_str(word@),
        r matches Some((v6, bits)) ==> v6 || bits <= u32::MAX,
{
    match word.parse::<core::net::IpAddr>() {
        Ok(core::net::IpAddr::V4(address)) => Some((false, u128::from(u32::from(address)))),
        Ok(core::net::IpAddr::V6(address)) => Some((true, u128::from(address))),
        Err(_) => None,
    }
}

/// Calls `core::net::SocketAddrV4::from_str`. Claims only that the result is
/// the named one.
#[verifier::external_body]
pub(crate) fn parse_socket_addr_v4(word: &str) -> (r: Option<(u32, u16)>)
    ensures
        r == socket_addr_v4_from_str(word@),
{
    match word.parse::<core::net::SocketAddrV4>() {
        Ok(socket) => Some((u32::from(*socket.ip()), socket.port())),
        Err(_) => None,
    }
}

/// Calls `core::net::SocketAddrV6::from_str`. Claims only that the result is
/// the named one.
#[verifier::external_body]
pub(crate) fn parse_socket_addr_v6(word: &str) -> (r: Option<(u128, u16, u32, u32)>)
    ensures
        r == socket_addr_v6_from_str(word@),
{
    match word.parse::<core::net::SocketAddrV6>() {
        Ok(socket) => Some(
            (u128::from(*socket.ip()), socket.port(), socket.flowinfo(), socket.scope_id()),
        ),
        Err(_) => None,
    }
}

/// Calls `core::net::SocketAddr::from_str`. Claims that the result is the
/// named one, and that an IPv4 address fits in 32 bits.
#[verifier::external_body]
pub(crate) fn parse_socket_addr(word: &str) -> (r: Option<(bool, u128, u16, u32, u32)>)
    ensures
        r == socket_addr_from_str(word@),
        r matches Some((v6, bits, _, _, _)) ==> v6 || bits <= u32::MAX,
{
    match word.parse::<core::net::SocketAddr>() {
        Ok(core::net::SocketAddr::V4(socket)) => Some(
            (false, u128::from(u32::from(*socket.ip())), socket.port(), 0, 0),
        ),
        Ok(core::net::SocketAddr::V6(socket)) => Some(
            (true, u128::from(*socket.ip()), socket.port(), socket.flowinfo(), socket.scope_id()),
        ),
        Err(_) => None,
    }
}

/// Calls `ipnet::Ipv4Net::from_str`. Claims that the result is the named one
/// and that its prefix length is at most 32, which the parser checks.
#[verifier::external_body]
pub(crate) fn parse_ipv4_net(word: &str) -> (r: Option<(u32, u8)>)
    ensures
        r == ipv4_net_from_str(word@),
        r matches Some((_, prefix)) ==> prefix <= 32,
{
    match word.parse::<ipnet::Ipv4Net>() {
        Ok(network) => Some((u32::from(network.addr()), network.prefix_len())),
        Err(_) => None,
    }
}

/// Calls `ipnet::Ipv6Net::from_str`. Claims that the result is the named one
/// and that its prefix length is at most 128, which the parser checks.
#[verifier::external_body]
pub(crate) fn parse_ipv6_net(word: &str) -> (r: Option<(u128, u8)>)
    ensures
        r == ipv6_net_from_str(word@),
        r matches Some((_, prefix)) ==> prefix <= 128,
{
    match word.parse::<ipnet::Ipv6Net>() {
        Ok(network) => Some((u128::from(network.addr()), network.prefix_len())),
        Err(_) => None,
    }
}

/// Calls `ipnet::IpNet::from_str`. Claims that the result is the named one,
/// that an IPv4 network's address fits in 32 bits and that the prefix length
/// is at most the address width, which the parser checks.
#[verifier::external_body]
pub(crate) fn parse_ip_net(word: &str) -> (r: Option<(bool, u128, u8)>)
    ensures
        r == ip_net_from_str(word@),
        r matches Some((v6, bits, prefix)) ==> if v6 {
            prefix <= 128
        } else {
            prefix <= 32 && bits <= u32::MAX
        },
{
    match word.parse::<ipnet::IpNet>() {
        Ok(ipnet::IpNet::V4(network)) => Some(
            (false, u128::from(u32::from(network.addr())), network.prefix_len()),
        ),
        Ok(ipnet::IpNet::V6(network)) => Some(
            (true, u128::from(network.addr()), network.prefix_len()),
        ),
        Err(_) => None,
    }
}

/// The number of bits of an address of the family.
pub open spec fn address_width(v6: bool) -> nat {
    if v6 {
        128
    } else {
        32
    }
}

/// Whether the leading `prefix` bits of two addresses of width `width` agree:
/// the network with address `network` and that prefix length contains
/// `address` (ipnet's `network() <= address <= broadcast()`).
pub open spec fn prefix_agrees(width: nat, prefix: int, network: int, address: int) -> bool {
    prefix == 0 || network / (pow2((width - prefix) as nat) as int) == address / (pow2(
        (width - prefix) as nat,
    ) as int)
}

/// Whether the leading `prefix` bits of the two addresses agree.
pub fn leading_bits_agree(width: u32, prefix: u8, network: u128, address: u128) -> (r: bool)
    requires
        width <= 128,
        prefix <= width,
    ensures
        r == prefix_agrees(width as nat, prefix as int, network as int, address as int),
{
    if prefix == 0 {
        return true;
    }
    let shift: u128 = (width - prefix as u32) as u128;
    proof {
        vstd::bits::lemma_u128_shr_is_div(network, shift);
        vstd::bits::lemma_u128_shr_is_div(address, shift);
    }
    (network >> shift) == (address >> shift)
}

} // verus!
