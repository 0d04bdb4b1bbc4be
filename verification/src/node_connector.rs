//! What the routing engine decides about the transport between servers:
//! which failures of the listener are fatal, and when a request that was
//! sent to a peer counts as delivered.

use crate::directory::ServerIdx;
use vstd::prelude::*;

verus! {

/// A failure of the transport.
#[derive(Debug, Clone)]
pub enum ConnectionError {
    /// A message came that is no request; it is kept as it came.
    DeserializationError(Vec<u8>),
    /// No connection leads to this server.
    TargetDoesNotExist(ServerIdx),
    /// The socket failed; the text says how.
    ProtocolError(String),
    /// The listener's stream has ended.
    NoRequest,
    /// A published message is no request; the text says why.
    RedisDeserializationError(String),
}

/// What a failure means to the one who listens.
#[derive(Debug, Clone, Copy, PartialEq, Eq, Structural)]
pub enum ListenerFault {
    /// The socket failed: the server cannot go on.
    Socket,
    /// The stream has ended: nothing more will come.
    Closed,
    /// One message could not be taken; the next may be.
    Message,
}

impl ConnectionError {
    /// What the failure means to the one who listens.
    pub open spec fn fault_of(self) -> ListenerFault {
        match self {
            ConnectionError::ProtocolError(_) => ListenerFault::Socket,
            ConnectionError::NoRequest => ListenerFault::Closed,
            _ => ListenerFault::Message,
        }
    }

    /// What the failure means to the one who listens.
    pub fn fault(&self) -> (fault: ListenerFault)
        ensures
            fault == self.fault_of(),
    {
        match self {
            ConnectionError::ProtocolError(_) => ListenerFault::Socket,
            ConnectionError::NoRequest => ListenerFault::Closed,
            _ => ListenerFault::Message,
        }
    }

    /// Whether the failure ends the server. Only a failure of the socket
    /// does.
    pub fn is_fatal(&self) -> (fatal: bool)
        ensures
            fatal == (self is ProtocolError),
    {
        match self {
            ConnectionError::ProtocolError(_) => true,
            _ => false,
        }
    }
}

/// The acknowledgement of a peer: the two bytes of `OK`.
pub open spec fn ack() -> Seq<u8> {
    seq![79u8, 75u8]
}

/// Whether `frame` acknowledges a request.
pub fn is_ack(frame: &[u8]) -> (accepted: bool)
    ensures
        accepted == (frame@ == ack()),
{
    let accepted = frame.len() == 2 && frame[0] == 79u8 && frame[1] == 75u8;
    proof {
        if accepted {
            assert(frame@ =~= ack());
        }
    }
    accepted
}

/// What the sender of a request does next.
#[derive(Debug, Clone)]
pub enum SendStep {
    /// Send the request on the peer's socket and wait for what comes back.
    Transmit,
    /// The request is delivered.
    Delivered,
    /// The request cannot be delivered.
    Failed(ConnectionError),
}

/// What came back from the socket.
#[derive(Debug, Clone)]
pub enum SendReport {
    /// The first frame of the peer's reply.
    Reply(Vec<u8>),
    /// The socket failed; the text says how.
    SocketFailed(String),
}

/// How the sending of a request to `target` starts: with a first
/// transmission where a connection leads there, with a failure where none
/// does.
pub fn send_start(target: ServerIdx, connected: bool) -> (step: SendStep)
    ensures
        connected ==> step is Transmit,
        !connected ==> step == SendStep::Failed(ConnectionError::TargetDoesNotExist(target)),
{
    if connected {
        SendStep::Transmit
    } else {
        SendStep::Failed(ConnectionError::TargetDoesNotExist(target))
    }
}

/// How the sending goes on after a transmission: the request is delivered
/// once the peer has acknowledged it, and is transmitted again on the same
/// socket after any other reply. A failure of the socket ends the sending.
pub fn send_next(report: SendReport) -> (step: SendStep)
    ensures
        match report {
            SendReport::Reply(frame) => if frame@ == ack() {
                step is Delivered
            } else {
                step is Transmit
            },
            SendReport::SocketFailed(text) => step == SendStep::Failed(
                ConnectionError::ProtocolError(text),
            ),
        },
{
    match report {
        SendReport::Reply(frame) => {
            if is_ack(frame.as_slice()) {
                SendStep::Delivered
            } else {
                SendStep::Transmit
            }
        },
        SendReport::SocketFailed(text) => SendStep::Failed(ConnectionError::ProtocolError(text)),
    }
}

} // verus!
