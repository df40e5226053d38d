//! Network addresses as plain values.

use vstd::prelude::*;

verus! {

/// The host part of an address: the bits of an IPv4 or of an IPv6 address,
/// most significant octet first.
#[derive(Clone, Copy, Debug, PartialEq, Eq, Hash, Structural)]
pub enum Host {
    V4(u32),
    V6(u128),
}

/// Where a receiver can be reached: a host and a port.
#[derive(Clone, Copy, Debug, PartialEq, Eq, Hash, Structural)]
pub struct Address {
    pub host: Host,
    pub port: u16,
}

impl Address {
    /// An IPv4 address from its four octets, in the order in which they are written.
    pub fn v4(a: u8, b: u8, c: u8, d: u8, port: u16) -> (addr: Address)
        ensures
            addr == (Address { host: Host::V4(v4_bits(a, b, c, d)), port }),
    {
        let bits: u32 = ((a as u32) << 24) | ((b as u32) << 16) | ((c as u32) << 8) | (d as u32);
        Address { host: Host::V4(bits), port }
    }

    /// An address from the bits of an IPv6 host.
    pub fn v6(bits: u128, port: u16) -> (addr: Address)
        ensures
            addr == (Address { host: Host::V6(bits), port }),
    {
        Address { host: Host::V6(bits), port }
    }
}

/// The 32 bits of the IPv4 host `a.b.c.d`.
pub open spec fn v4_bits(a: u8, b: u8, c: u8, d: u8) -> u32 {
    ((a as u32) << 24) | ((b as u32) << 16) | ((c as u32) << 8) | (d as u32)
}

} // verus!
