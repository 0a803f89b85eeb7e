//! TLS is not available: connections are refused with the reason.
use vstd::prelude::*;
use crate::task::TaskId;
use crate::capability::CapId;

verus! {

#[derive(Debug, Clone, Copy, PartialEq, Eq)]
pub enum TlsError {
    HandshakeNotImplemented,
    CertificateValidationNotImplemented,
    NoTlsLibrary,
}

/// Attempt a TLS connection to `host:port`: the handshake is not implemented.
pub fn connect(host: &str, port: u16, task_id: TaskId, cap_id: CapId) -> (r: Result<(), TlsError>)
    ensures
        r == Err::<(), TlsError>(TlsError::HandshakeNotImplemented),
{
    Err(TlsError::HandshakeNotImplemented)
}

/// TLS can be used: never.
pub fn is_available() -> (r: bool)
    ensures
        !r,
{
    false
}

} // verus!
