//! Socket addresses as plain values.
//!
//! The relay only ever compares addresses, uses them as keys and hands them
//! back, so an address is kept as the integers that identify it.

use vstd::prelude::*;

verus! {

/// The IPv4 loopback host, `127.0.0.1`, as a 32-bit number.
pub const LOOPBACK_V4: u32 = 0x7F00_0001;

/// An internet socket address.
///
/// Two addresses are equal exactly when all their fields are equal. The IPv4
/// host is the big-endian number of its four octets, the IPv6 host the
/// big-endian number of its sixteen octets.
#[derive(Clone, Copy, Debug, PartialEq, Eq, Structural, Hash)]
#[allow(inconsistent_fields)]
pub enum SocketAddress {
    V4 { host: u32, port: u16 },
    V6 { host: u128, port: u16, flowinfo: u32, scope_id: u32 },
}

/// The 32-bit number of the IPv4 host `a.b.c.d`.
pub open spec fn v4_host(a: u8, b: u8, c: u8, d: u8) -> int {
    a * 0x100_0000 + b * 0x1_0000 + c * 0x100 + d
}

impl SocketAddress {
    /// The address `127.0.0.1:port`.
    pub open spec fn spec_loopback(port: u16) -> SocketAddress {
        SocketAddress::V4 { host: LOOPBACK_V4, port }
    }

    /// The port of the address.
    pub open spec fn spec_port(&self) -> u16 {
        match *self {
            SocketAddress::V4 { port, .. } => port,
            SocketAddress::V6 { port, .. } => port,
        }
    }

    /// The IPv4 address `a.b.c.d:port`.
    pub fn v4(a: u8, b: u8, c: u8, d: u8, port: u16) -> (addr: SocketAddress)
        ensures
            addr == (SocketAddress::V4 { host: v4_host(a, b, c, d) as u32, port }),
            v4_host(a, b, c, d) <= u32::MAX,
    {
        let host: u32 = (a as u32) * 0x100_0000 + (b as u32) * 0x1_0000 + (c as u32) * 0x100 + (
        d as u32);
        SocketAddress::V4 { host, port }
    }

    /// The address `127.0.0.1:port`.
    #[verifier::when_used_as_spec(spec_loopback)]
    pub fn loopback(port: u16) -> (addr: SocketAddress)
        ensures
            addr == Self::spec_loopback(port),
    {
        SocketAddress::V4 { host: LOOPBACK_V4, port }
    }

    /// The port of the address.
    #[verifier::when_used_as_spec(spec_port)]
    pub fn port(&self) -> (port: u16)
        ensures
            port == self.spec_port(),
    {
        match self {
            SocketAddress::V4 { port, .. } => *port,
            SocketAddress::V6 { port, .. } => *port,
        }
    }
}

} // verus!
