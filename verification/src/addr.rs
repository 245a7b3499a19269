use vstd::prelude::*;

verus! {

/// A neighbour's network address, held as plain numeric components:
/// four octets for IPv4, eight 16-bit segments for IPv6.
#[derive(Clone, Copy, Debug, PartialEq, Eq)]
pub enum IpAddress {
    V4([u8; 4]),
    V6([u16; 8]),
}

/// An IPv4 address is in a private range when it lies in
/// `10.0.0.0/8`, `172.16.0.0/12`, `192.168.0.0/16` or `127.0.0.0/8`.
pub open spec fn spec_ipv4_private(octets: [u8; 4]) -> bool {
    ||| octets[0] == 10
    ||| (octets[0] == 172 && 16 <= octets[1] && octets[1] <= 31)
    ||| (octets[0] == 192 && octets[1] == 168)
    ||| octets[0] == 127
}

/// An IPv6 address is in a private range when it is Unique Local
/// (`fc00::/7`) or Link-Local (`fe80::/10`), both visible in the
/// first 16-bit segment.
pub open spec fn spec_ipv6_private(segments: [u16; 8]) -> bool {
    ||| segments[0] & 0xfe00 == 0xfc00
    ||| segments[0] & 0xffc0 == 0xfe80
}

/// Whether an address, of either family, falls in a private range.
pub open spec fn spec_ip_private(addr: IpAddress) -> bool {
    match addr {
        IpAddress::V4(octets) => spec_ipv4_private(octets),
        IpAddress::V6(segments) => spec_ipv6_private(segments),
    }
}

pub fn if_ipv4_in_private_subnet(octets: &[u8; 4]) -> (r: bool)
    ensures
        r == spec_ipv4_private(*octets),
{
    // 10.0.0.0/8
    if octets[0] == 10 {
        return true;
    }

    // 172.16.0.0/12
    if octets[0] == 172 && (octets[1] >= 16 && octets[1] <= 31) {
        return true;
    }

    // 192.168.0.0/16
    if octets[0] == 192 && octets[1] == 168 {
        return true;
    }

    // 127.0.0.0/8 (loopback)
    if octets[0] == 127 {
        return true;
    }

    false
}

pub fn if_ipv6_in_private_subnet(segments: &[u16; 8]) -> (r: bool)
    ensures
        r == spec_ipv6_private(*segments),
{
    // Unique Local addresses (fc00::/7)
    let is_ula = (segments[0] & 0xfe00) == 0xfc00;

    // Link-local addresses (fe80::/10)
    let is_link_local = (segments[0] & 0xffc0) == 0xfe80;

    is_ula || is_link_local
}

/// Whether an address, of either family, falls in a private range.
pub fn ip_in_private_subnet(addr: &IpAddress) -> (r: bool)
    ensures
        r == spec_ip_private(*addr),
{
    match addr {
        IpAddress::V4(octets) => if_ipv4_in_private_subnet(octets),
        IpAddress::V6(segments) => if_ipv6_in_private_subnet(segments),
    }
}

} // verus!
