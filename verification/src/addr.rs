//! Network addresses as plain values.
use vstd::prelude::*;

verus! {

/// The host half of an address. The bits stand in the order in which the address is written.
#[derive(Clone, Copy, PartialEq, Eq, Debug, Structural)]
pub enum Host {
    V4(u32),
    V6 { bits: u128, flowinfo: u32, scope_id: u32 },
}

/// Where a peer listens.
#[derive(Clone, Copy, PartialEq, Eq, Debug, Structural)]
pub struct SocketAddr {
    pub host: Host,
    pub port: u16,
}

impl SocketAddr {
    /// The IPv4 address `a.b.c.d`, at `port`.
    pub fn v4(a: u8, b: u8, c: u8, d: u8, port: u16) -> (addr: SocketAddr)
        ensures
            addr.host == Host::V4(
                (a * 0x100_0000 + b * 0x1_0000 + c * 0x100 + d) as u32,
            ),
            addr.port == port,
    {
        let bits: u32 = a as u32 * 0x100_0000 + b as u32 * 0x1_0000 + c as u32 * 0x100 + d as u32;
        SocketAddr { host: Host::V4(bits), port }
    }

    /// Whether the host is the wildcard, `0.0.0.0` or `::`: a place to listen, never one to dial.
    pub open spec fn unspecified(self) -> bool {
        match self.host {
            Host::V4(bits) => bits == 0,
            Host::V6 { bits, .. } => bits == 0,
        }
    }

    /// Whether the host is this very machine: `127.0.0.0/8` or `::1`.
    pub open spec fn loopback(self) -> bool {
        match self.host {
            Host::V4(bits) => bits / 0x100_0000 == 127,
            Host::V6 { bits, .. } => bits == 1,
        }
    }

    pub fn is_unspecified(&self) -> (b: bool)
        ensures
            b == self.unspecified(),
    {
        match self.host {
            Host::V4(bits) => bits == 0,
            Host::V6 { bits, .. } => bits == 0,
        }
    }

    pub fn is_loopback(&self) -> (b: bool)
        ensures
            b == self.loopback(),
    {
        match self.host {
            Host::V4(bits) => bits / 0x100_0000 == 127,
            Host::V6 { bits, .. } => bits == 1,
        }
    }
}

} // verus!
