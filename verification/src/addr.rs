//! Plain-value IP address and socket address types.
//!
//! An IPv4 address is held as its 32-bit value, an IPv6 address as its
//! 128-bit value; helper constructors build them from the familiar
//! dotted-quad octets and colon-separated segments.

use vstd::prelude::*;

verus! {

/// An IPv4 address, held as its 32-bit big-endian value.
#[derive(Debug, Clone, Copy, PartialEq, Eq, Structural, Hash)]
pub struct Ipv4Address {
    pub bits: u32,
}

/// The 32-bit value an IPv4 address with the given octets has.
pub open spec fn ipv4_bits(a: u8, b: u8, c: u8, d: u8) -> int {
    (a as u32) * 0x100_0000 + (b as u32) * 0x1_0000 + (c as u32) * 0x100 + (d as u32)
}

impl Ipv4Address {
    /// Builds the address `a.b.c.d`.
    pub fn new(a: u8, b: u8, c: u8, d: u8) -> (r: Self)
        ensures
            r.bits == ipv4_bits(a, b, c, d),
    {
        Ipv4Address {
            bits: (a as u32) * 0x100_0000 + (b as u32) * 0x1_0000 + (c as u32) * 0x100
                + (d as u32),
        }
    }
}

/// An IPv6 address, held as its 128-bit big-endian value.
#[derive(Debug, Clone, Copy, PartialEq, Eq, Structural, Hash)]
pub struct Ipv6Address {
    pub bits: u128,
}

/// The 128-bit value an IPv6 address with the given eight 16-bit segments
/// has.
pub open spec fn ipv6_bits(
    a: u16,
    b: u16,
    c: u16,
    d: u16,
    e: u16,
    f: u16,
    g: u16,
    h: u16,
) -> int {
    (((a as u128) * 0x1_0000 + (b as u128)) * 0x1_0000_0000_0000_0000_0000_0000)
        + (((c as u128) * 0x1_0000 + (d as u128)) * 0x1_0000_0000_0000_0000)
        + (((e as u128) * 0x1_0000 + (f as u128)) * 0x1_0000_0000) + ((g as u128) * 0x1_0000 + (
    h as u128))
}

impl Ipv6Address {
    /// Builds the address `a:b:c:d:e:f:g:h` from its eight segments.
    pub fn new(a: u16, b: u16, c: u16, d: u16, e: u16, f: u16, g: u16, h: u16) -> (r: Self)
        ensures
            r.bits == ipv6_bits(a, b, c, d, e, f, g, h),
    {
        Ipv6Address {
            bits: (((a as u128) * 0x1_0000 + (b as u128)) * 0x1_0000_0000_0000_0000_0000_0000) + (((
            c as u128) * 0x1_0000 + (d as u128)) * 0x1_0000_0000_0000_0000) + (((e as u128)
                * 0x1_0000 + (f as u128)) * 0x1_0000_0000) + ((g as u128) * 0x1_0000 + (h as u128)),
        }
    }
}

/// An IP address of either family.
#[derive(Debug, Clone, Copy, PartialEq, Eq, Structural, Hash)]
pub enum IpAddress {
    V4(Ipv4Address),
    V6(Ipv6Address),
}

impl IpAddress {
    /// Whether this is an IPv6 address.
    pub fn is_v6(&self) -> (r: bool)
        ensures
            r == (self is V6),
    {
        match self {
            IpAddress::V6(_) => true,
            IpAddress::V4(_) => false,
        }
    }
}

/// An IP address paired with a port.
#[derive(Debug, Clone, Copy, PartialEq, Eq, Structural, Hash)]
pub struct SocketAddress {
    pub ip: IpAddress,
    pub port: u16,
}

impl SocketAddress {
    /// Builds a socket address from an IP address and a port.
    pub fn new(ip: IpAddress, port: u16) -> (r: Self)
        ensures
            r == (SocketAddress { ip, port }),
    {
        SocketAddress { ip, port }
    }
}

} // verus!
