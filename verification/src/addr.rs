//! Network addresses as plain values.

use vstd::prelude::*;

verus! {

/// An IP address as the number that its bytes spell, most significant first.
#[derive(Debug, Copy, Clone, PartialEq, Eq, Structural)]
pub enum IpAddr {
    /// Four bytes.
    V4(u32),
    /// Sixteen bytes.
    V6(u128),
}

impl IpAddr {
    /// The address that is written `a.b.c.d`.
    pub fn v4(a: u8, b: u8, c: u8, d: u8) -> (ip: IpAddr)
        ensures
            ip == IpAddr::V4(
                (a * 0x100_0000 + b * 0x1_0000 + c * 0x100 + d) as u32,
            ),
    {
        IpAddr::V4(a as u32 * 0x100_0000 + b as u32 * 0x1_0000 + c as u32 * 0x100 + d as u32)
    }
}

/// An IPv4 address and a port.
#[derive(Debug, Copy, Clone, PartialEq, Eq)]
pub struct SocketAddrV4 {
    /// The four bytes of the address.
    pub ip: [u8; 4],
    /// The port.
    pub port: u16,
}

/// An address is the number that its bytes spell, so different bytes are
/// different addresses, and the first byte weighs most.
pub proof fn an_address_is_its_bytes(a: u8, b: u8, c: u8, d: u8, ip: IpAddr)
    requires
        call_ensures(IpAddr::v4, (a, b, c, d), ip),
    ensures
        ip matches IpAddr::V4(n) && n / 0x100_0000 == a && n / 0x1_0000 % 0x100 == b && n / 0x100
            % 0x100 == c && n % 0x100 == d,
{
}

} // verus!
