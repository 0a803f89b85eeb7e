//! TCP socket policy: who may connect, and which local port a connection takes. The
//! sockets themselves live in the network stack.
use vstd::prelude::*;
use crate::capability::{CapId, CapabilityTable, PermissionBits};
use crate::capability::permissions::CONNECT_BIT;
use crate::capability::table::validate_result;
use crate::task::TaskId;

verus! {

#[derive(Debug, Clone, Copy, PartialEq, Eq)]
pub enum SocketError {
    ConnectionFailed,
    NotConnected,
    SendFailed,
    ReceiveFailed,
    CapabilityDenied,
}

/// First port of the ephemeral range.
pub const EPHEMERAL_BASE: u16 = 49152;
/// Number of ports in the ephemeral range.
pub const EPHEMERAL_COUNT: u16 = 16384;

/// A task may open a connection under `net_cap`: the capability is valid, belongs to the
/// task and grants `CONNECT`.
pub fn authorize_connect(table: &CapabilityTable, net_cap: CapId, task_id: TaskId) -> (r: Result<(), SocketError>)
    requires
        table.wf(),
    ensures
        r is Ok <==> validate_result(table.caps(), net_cap as int, task_id, CONNECT_BIT) is Ok,
        r is Err ==> r == Err::<(), SocketError>(SocketError::CapabilityDenied),
{
    match table.validate(net_cap, task_id, PermissionBits::connect()) {
        Ok(_) => Ok(()),
        Err(_) => Err(SocketError::CapabilityDenied),
    }
}

/// The local port for the next connection, from the connection counter (which advances,
/// wrapping): `49152 + counter % 16384`.
pub fn next_local_port(counter: &mut u16) -> (port: u16)
    ensures
        port == EPHEMERAL_BASE + *old(counter) % EPHEMERAL_COUNT,
        *final(counter) == (*old(counter) as int + 1) % 0x10000,
        EPHEMERAL_BASE <= port,
{
    let raw = *counter;
    *counter = raw.wrapping_add(1);
    EPHEMERAL_BASE + raw % EPHEMERAL_COUNT
}

} // verus!
