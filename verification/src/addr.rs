//! Socket addresses as plain values.

use vstd::prelude::*;

verus! {

/// An IP address, held as the integer its octets form in network order.
#[derive(Clone, Copy, Debug, PartialEq, Eq, Structural, Hash)]
pub enum IpAddress {
    V4(u32),
    V6(u128),
}

/// An IP address together with a port and, for IPv6, the flow label and
/// scope identifier that are part of a socket address's identity.
#[derive(Clone, Copy, Debug, PartialEq, Eq, Structural, Hash)]
#[allow(inconsistent_fields)]
pub enum SocketAddress {
    V4 { ip: u32, port: u16 },
    V6 { ip: u128, port: u16, flowinfo: u32, scope_id: u32 },
}

impl SocketAddress {
    /// The address part.
    pub fn ip(&self) -> (ip: IpAddress)
        ensures
            ip == self.spec_ip(),
    {
        match self {
            SocketAddress::V4 { ip, .. } => IpAddress::V4(*ip),
            SocketAddress::V6 { ip, .. } => IpAddress::V6(*ip),
        }
    }

    pub open spec fn spec_ip(&self) -> IpAddress {
        match *self {
            SocketAddress::V4 { ip, .. } => IpAddress::V4(ip),
            SocketAddress::V6 { ip, .. } => IpAddress::V6(ip),
        }
    }

    /// The port part.
    pub fn port(&self) -> (port: u16)
        ensures
            port == self.spec_port(),
    {
        match self {
            SocketAddress::V4 { port, .. } => *port,
            SocketAddress::V6 { port, .. } => *port,
        }
    }

    pub open spec fn spec_port(&self) -> u16 {
        match *self {
            SocketAddress::V4 { port, .. } => port,
            SocketAddress::V6 { port, .. } => port,
        }
    }

    /// The IPv4 socket address `a.b.c.d:port`.
    pub fn v4(a: u8, b: u8, c: u8, d: u8, port: u16) -> (addr: SocketAddress)
        ensures
            addr == (SocketAddress::V4 { ip: ipv4_bits(a, b, c, d), port }),
    {
        SocketAddress::V4 { ip: pack_ipv4(a, b, c, d), port }
    }
}

/// The integer that the octets `a.b.c.d` form in network order.
pub open spec fn ipv4_bits(a: u8, b: u8, c: u8, d: u8) -> u32 {
    (a as int * 0x100_0000 + b as int * 0x1_0000 + c as int * 0x100 + d as int) as u32
}

/// Packs four octets into the integer of an IPv4 address.
pub fn pack_ipv4(a: u8, b: u8, c: u8, d: u8) -> (bits: u32)
    ensures
        bits == ipv4_bits(a, b, c, d),
{
    let hi: u32 = a as u32 * 0x100_0000 + b as u32 * 0x1_0000;
    let lo: u32 = c as u32 * 0x100 + d as u32;
    hi + lo
}

} // verus!
