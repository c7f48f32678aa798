//! Transport parameters (RFC 9000 Section 18).

use crate::varint::VarInt;
use vstd::prelude::*;

verus! {

/// What an endpoint declares during the handshake. A parameter that is not sent is `None`.
#[derive(Debug, Clone, Copy, PartialEq, Eq, Structural)]
pub struct TransportParameters {
    /// Idle timeout in milliseconds
    pub max_idle_timeout: Option<VarInt>,
    /// Initial limit on the data of the connection
    pub initial_max_data: Option<VarInt>,
    /// Initial limit on the number of bidirectional streams
    pub initial_max_streams_bidi: Option<VarInt>,
    /// Initial limit on the number of unidirectional streams
    pub initial_max_streams_uni: Option<VarInt>,
    /// Exponent by which reported ACK delays are scaled
    pub ack_delay_exponent: Option<VarInt>,
    /// Longest time by which an endpoint delays an ACK, in milliseconds
    pub max_ack_delay: Option<VarInt>,
    /// How many connection IDs the endpoint stores
    pub active_connection_id_limit: Option<VarInt>,
    /// Whether the endpoint does not support active migration
    pub disable_active_migration: bool,
}

/// The value of a parameter, or what stands for it where it is not sent.
pub open spec fn declared(v: Option<VarInt>, otherwise: u64) -> u64 {
    match v {
        Some(n) => n.0,
        None => otherwise,
    }
}

/// The value of a parameter, or what stands for it where it is not sent
pub fn value_or(v: Option<VarInt>, otherwise: u64) -> (r: u64)
    ensures
        r == declared(v, otherwise),
{
    match v {
        Some(n) => n.into_inner(),
        None => otherwise,
    }
}

} // verus!
