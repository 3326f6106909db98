//! The echo server's handling of one client: what it does after each read.

use vstd::prelude::*;

verus! {

/// Size of the buffer each read fills.
pub const BUFFER_SIZE: usize = 512;

/// How a read from the client ended.
#[derive(Clone, Copy, Debug, PartialEq, Eq, Structural)]
pub enum ReadOutcome {
    /// The read returned this many bytes; zero means the client closed.
    Bytes(usize),
    /// The read failed.
    Failed,
}

/// What the server does next.
#[derive(Clone, Copy, Debug, PartialEq, Eq, Structural)]
pub enum EchoAction {
    /// The client closed the connection: stop serving it.
    Disconnect,
    /// Send back the first this-many bytes of the buffer, then read again.
    EchoBack(usize),
    /// The read failed: report it and stop serving the client.
    Abort,
}

/// The step after a read: a closed connection ends the session, received
/// bytes are echoed back exactly, and a failed read ends the session.
pub fn after_read(outcome: ReadOutcome) -> (r: EchoAction)
    requires
        outcome matches ReadOutcome::Bytes(n) ==> n <= BUFFER_SIZE,
    ensures
        outcome == ReadOutcome::Bytes(0) ==> r == EchoAction::Disconnect,
        outcome matches ReadOutcome::Bytes(n) ==> (n > 0 ==> r == EchoAction::EchoBack(n)),
        outcome == ReadOutcome::Failed ==> r == EchoAction::Abort,
        r matches EchoAction::EchoBack(n) ==> 0 < n <= BUFFER_SIZE,
{
    match outcome {
        ReadOutcome::Bytes(0) => EchoAction::Disconnect,
        ReadOutcome::Bytes(n) => EchoAction::EchoBack(n),
        ReadOutcome::Failed => EchoAction::Abort,
    }
}

} // verus!
