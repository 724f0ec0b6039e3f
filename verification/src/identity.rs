//! Connection identities.

use vstd::prelude::*;

verus! {

/// The identity of one live connection: the remote socket address, held as
/// plain numbers. Two identities are the same connection exactly when every
/// field agrees.
#[derive(Clone, Copy, Debug, PartialEq, Eq, Hash, Structural)]
pub struct ConnId {
    /// Whether the address is an IPv6 address.
    pub v6: bool,
    /// The address bits; an IPv4 address fills the low 32 bits.
    pub ip: u128,
    /// The remote port.
    pub port: u16,
    /// IPv6 flow information, zero for IPv4.
    pub flowinfo: u32,
    /// IPv6 scope identifier, zero for IPv4.
    pub scope_id: u32,
}

impl ConnId {
    /// The identity of an IPv4 peer.
    pub fn v4(ip: u32, port: u16) -> (id: ConnId)
        ensures
            id == (ConnId { v6: false, ip: ip as u128, port, flowinfo: 0, scope_id: 0 }),
    {
        ConnId { v6: false, ip: ip as u128, port, flowinfo: 0, scope_id: 0 }
    }

    /// The identity of an IPv6 peer.
    pub fn v6(ip: u128, port: u16, flowinfo: u32, scope_id: u32) -> (id: ConnId)
        ensures
            id == (ConnId { v6: true, ip, port, flowinfo, scope_id }),
    {
        ConnId { v6: true, ip, port, flowinfo, scope_id }
    }

    /// Whether two identities name the same connection.
    pub fn same(&self, other: &ConnId) -> (r: bool)
        ensures
            r == (*self == *other),
    {
        self.v6 == other.v6 && self.ip == other.ip && self.port == other.port
            && self.flowinfo == other.flowinfo && self.scope_id == other.scope_id
    }
}

} // verus!
