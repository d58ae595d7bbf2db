//! IP addresses and networks as plain integers.
use vstd::prelude::*;

verus! {

/// An IP address: IPv4 as its 32-bit big-endian value, IPv6 as its 128-bit
/// big-endian value.
#[derive(Clone, Copy, Debug, PartialEq, Eq, Structural)]
pub enum ClientIp {
    V4(u32),
    V6(u128),
}

/// An IP network: an address with a prefix length (host bits allowed, as
/// in `ipnet::IpNet`).
#[derive(Clone, Copy, Debug, PartialEq, Eq, Structural)]
pub struct ProxyNet {
    pub addr: ClientIp,
    pub prefix_len: u8,
}

impl ProxyNet {
    /// The prefix length fits the address family.
    pub open spec fn valid(self) -> bool {
        match self.addr {
            ClientIp::V4(_) => self.prefix_len <= 32,
            ClientIp::V6(_) => self.prefix_len <= 128,
        }
    }
}

/// Network mask of an IPv4 prefix length.
pub open spec fn mask4(prefix_len: u8) -> u32 {
    if prefix_len == 0 {
        0
    } else {
        (0xFFFF_FFFFu32 << ((32 - prefix_len) as u32)) as u32
    }
}

/// Network mask of an IPv6 prefix length.
pub open spec fn mask6(prefix_len: u8) -> u128 {
    if prefix_len == 0 {
        0
    } else {
        (0xFFFF_FFFF_FFFF_FFFF_FFFF_FFFF_FFFF_FFFFu128 << ((128 - prefix_len) as u128)) as u128
    }
}

/// `IpNet::contains(&IpAddr)`: same family, and the address lies between
/// the network address and the broadcast address.
pub open spec fn net_contains(net: ProxyNet, ip: ClientIp) -> bool {
    match (net.addr, ip) {
        (ClientIp::V4(a), ClientIp::V4(b)) => {
            let m = mask4(net.prefix_len);
            (a & m) <= b && b <= (a | !m)
        },
        (ClientIp::V6(a), ClientIp::V6(b)) => {
            let m = mask6(net.prefix_len);
            (a & m) <= b && b <= (a | !m)
        },
        _ => false,
    }
}

/// What `str::parse::<ipnet::IpNet>` yields for a string.
pub uninterp spec fn ipnet_parse(s: Seq<char>) -> Option<ProxyNet>;

/// Parses an IP network with `str::parse::<ipnet::IpNet>`.
///
/// The contract names the parse result and states that its prefix length
/// fits its family, as `Ipv4Net::new` and `Ipv6Net::new` check.
#[verifier::external_body]
pub(crate) fn parse_ipnet(s: &str) -> (r: Option<ProxyNet>)
    ensures
        r == ipnet_parse(s@),
        r matches Some(n) ==> n.valid(),
{
    match s.parse::<ipnet::IpNet>() {
        Ok(ipnet::IpNet::V4(n)) => Some(
            ProxyNet { addr: ClientIp::V4(u32::from(n.addr())), prefix_len: n.prefix_len() },
        ),
        Ok(ipnet::IpNet::V6(n)) => Some(
            ProxyNet { addr: ClientIp::V6(u128::from(n.addr())), prefix_len: n.prefix_len() },
        ),
        Err(_) => None,
    }
}

/// Whether a network contains an address (`ipnet::IpNet::contains`).
pub fn proxy_contains(net: &ProxyNet, ip: ClientIp) -> (r: bool)
    requires
        net.valid(),
    ensures
        r == net_contains(*net, ip),
{
    match (net.addr, ip) {
        (ClientIp::V4(a), ClientIp::V4(b)) => {
            let m: u32 = if net.prefix_len == 0 {
                0
            } else {
                0xFFFF_FFFFu32 << ((32 - net.prefix_len) as u32)
            };
            (a & m) <= b && b <= (a | !m)
        },
        (ClientIp::V6(a), ClientIp::V6(b)) => {
            let m: u128 = if net.prefix_len == 0 {
                0
            } else {
                0xFFFF_FFFF_FFFF_FFFF_FFFF_FFFF_FFFF_FFFFu128 << ((128 - net.prefix_len) as u128)
            };
            (a & m) <= b && b <= (a | !m)
        },
        _ => false,
    }
}

/// Private (10/8, 172.16/12, 192.168/16), loopback (127/8) or link-local
/// (169.254/16) IPv4 address.
pub open spec fn internal_ipv4(ip: u32) -> bool {
    let a = ip >> 24u32;
    let b = (ip >> 16u32) & 0xFFu32;
    ||| a == 10
    ||| (a == 172 && (b & 0xF0u32) == 16)
    ||| (a == 192 && b == 168)
    ||| a == 127
    ||| (a == 169 && b == 254)
}

/// Loopback (`::1`), unique local (fc00::/7), unicast link-local (fe80::/10)
/// or IPv4-mapped internal IPv6 address.
pub open spec fn internal_ipv6(ip: u128) -> bool {
    let first = (ip >> 112u128) as u16;
    ||| ip == 1
    ||| (first & 0xFE00u16) == 0xFC00u16
    ||| (first & 0xFFC0u16) == 0xFE80u16
    ||| ((ip >> 32u128) == 0xFFFFu128 && internal_ipv4((ip & 0xFFFF_FFFFu128) as u32))
}

/// Returns true for private, loopback, or link-local IPv4 addresses.
pub fn is_internal_ipv4(ip: u32) -> (r: bool)
    ensures
        r == internal_ipv4(ip),
{
    let a = ip >> 24u32;
    let b = (ip >> 16u32) & 0xFFu32;
    a == 10 || (a == 172 && (b & 0xF0u32) == 16) || (a == 192 && b == 168) || a == 127 || (a
        == 169 && b == 254)
}

/// Returns true for loopback, private, or link-local IPv6 addresses.
pub fn is_internal_ipv6(ip: u128) -> (r: bool)
    ensures
        r == internal_ipv6(ip),
{
    let first = (ip >> 112u128) as u16;
    ip == 1 || (first & 0xFE00u16) == 0xFC00u16 || (first & 0xFFC0u16) == 0xFE80u16 || ((ip
        >> 32u128) == 0xFFFFu128 && is_internal_ipv4((ip & 0xFFFF_FFFFu128) as u32))
}

} // verus!
