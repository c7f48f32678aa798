//! Socket addresses as plain numbers.

use vstd::prelude::*;

verus! {

/// Address and port of one end of a path.
#[derive(Debug, Clone, Copy, PartialEq, Eq, Hash, Structural)]
pub enum SocketAddress {
    /// An IPv4 address.
    V4 { ip: u32, port: u16 },
    /// An IPv6 address with its flow information and scope.
    V6 { ip6: u128, port: u16, flowinfo: u32, scope_id: u32 },
}

} // verus!
