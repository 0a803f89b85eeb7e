pub mod channel;
pub mod key_order;
pub mod message;
pub mod request_reply;
pub mod shared_memory;

use vstd::prelude::*;

verus! {

#[derive(Debug, Clone, Copy, PartialEq, Eq, Structural)]
pub struct MessageId(pub u64);

#[derive(Debug, Clone, Copy, PartialEq, Eq, Structural)]
pub enum MessageType {
    Data,
    Request,
    Reply,
    CapTransfer,
    Signal,
}

#[derive(Debug, Clone, Copy, PartialEq, Eq, Structural)]
pub enum IpcError {
    RecipientNotFound,
    MailboxFull,
    NoMessage,
    Timeout,
    CapabilityDenied,
    InvalidCapTransfer,
}

} // verus!
