//! Network addresses as plain data.

use vstd::prelude::*;

use crate::packet::be32_bytes;

verus! {

/// An IPv4 address as a 32-bit number, first octet most significant.
#[derive(Debug, Clone, Copy, PartialEq, Eq, Structural)]
pub struct Ipv4Addr {
    pub bits: u32,
}

/// An IPv6 address as four 32-bit words, first word most significant.
#[derive(Debug, Clone, Copy, PartialEq, Eq, Structural)]
pub struct Ipv6Addr {
    pub w0: u32,
    pub w1: u32,
    pub w2: u32,
    pub w3: u32,
}

/// An address of either family.
#[derive(Debug, Clone, Copy, PartialEq, Eq, Structural)]
pub enum IpAddr {
    V4(Ipv4Addr),
    V6(Ipv6Addr),
}

/// An address and port that a socket connects to. The flow information and the scope
/// belong to IPv6 and are zero for IPv4.
#[derive(Debug, Clone, Copy, PartialEq, Eq, Structural)]
pub struct SocketAddr {
    pub ip: IpAddr,
    pub port: u16,
    pub flowinfo: u32,
    pub scope_id: u32,
}

impl Ipv4Addr {
    pub fn new(a: u8, b: u8, c: u8, d: u8) -> (r: Ipv4Addr)
        ensures
            r.bits == a * 16777216 + b * 65536 + c * 256 + d,
    {
        Ipv4Addr { bits: (a as u32) * 16777216 + (b as u32) * 65536 + (c as u32) * 256 + d as u32 }
    }

    /// The four octets, first one first.
    pub fn octets(&self) -> (r: [u8; 4])
        ensures
            r@ == be32_bytes(self.bits),
    {
        let r: [u8; 4] = [
            (self.bits / 16777216) as u8,
            (self.bits / 65536 % 256) as u8,
            (self.bits / 256 % 256) as u8,
            (self.bits % 256) as u8,
        ];
        assert(r@ =~= be32_bytes(self.bits));
        r
    }
}

/// One 32-bit word made of two 16-bit segments.
pub open spec fn word(hi: u16, lo: u16) -> u32 {
    (hi * 65536 + lo) as u32
}

impl Ipv6Addr {
    pub fn new(a: u16, b: u16, c: u16, d: u16, e: u16, f: u16, g: u16, h: u16) -> (r: Ipv6Addr)
        ensures
            r.w0 == word(a, b),
            r.w1 == word(c, d),
            r.w2 == word(e, f),
            r.w3 == word(g, h),
    {
        Ipv6Addr {
            w0: (a as u32) * 65536 + b as u32,
            w1: (c as u32) * 65536 + d as u32,
            w2: (e as u32) * 65536 + f as u32,
            w3: (g as u32) * 65536 + h as u32,
        }
    }

    /// The eight 16-bit segments, first one first.
    pub fn segments(&self) -> (r: [u16; 8])
        ensures
            self.w0 == word(r@[0], r@[1]),
            self.w1 == word(r@[2], r@[3]),
            self.w2 == word(r@[4], r@[5]),
            self.w3 == word(r@[6], r@[7]),
    {
        [
            (self.w0 / 65536) as u16,
            (self.w0 % 65536) as u16,
            (self.w1 / 65536) as u16,
            (self.w1 % 65536) as u16,
            (self.w2 / 65536) as u16,
            (self.w2 % 65536) as u16,
            (self.w3 / 65536) as u16,
            (self.w3 % 65536) as u16,
        ]
    }

    /// The loopback address.
    pub fn localhost() -> (r: Ipv6Addr)
        ensures
            r == (Ipv6Addr { w0: 0, w1: 0, w2: 0, w3: 1 }),
    {
        Ipv6Addr { w0: 0, w1: 0, w2: 0, w3: 1 }
    }
}

impl SocketAddr {
    pub fn is_ipv6(&self) -> (r: bool)
        ensures
            r == (self.ip is V6),
    {
        match self.ip {
            IpAddr::V4(_) => false,
            IpAddr::V6(_) => true,
        }
    }

    /// The address `ip` with a port, without flow information and scope.
    pub fn new(ip: IpAddr, port: u16) -> (r: SocketAddr)
        ensures
            r == (SocketAddr { ip, port, flowinfo: 0, scope_id: 0 }),
    {
        SocketAddr { ip, port, flowinfo: 0, scope_id: 0 }
    }
}

} // verus!
