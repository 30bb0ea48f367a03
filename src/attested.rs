//! Decisions of the attested-connection layer: which WebSocket failures end
//! a multi-route attempt, and how the orchestrator's errors collapse into the
//! errors this layer reports.
use crate::connect::{ConnectError, TimeoutOr};
use std::ops::ControlFlow;
use vstd::prelude::*;

verus! {

/// How a failed connection attempt should be treated.
#[derive(Clone, Copy, Debug, PartialEq, Eq)]
pub enum ErrorClass {
    /// Likely to pass: try the next route.
    Intermittent,
    /// The server asked for no retry before this time (milliseconds on the
    /// caller's monotonic clock).
    RetryAt(u64),
    /// Will not pass by retrying.
    Fatal,
}

/// The errors of an attested connection: a WebSocket failure that ended the
/// attempt, the attempt running out of routes or time, or a failed handshake.
#[derive(Clone, Debug, PartialEq, Eq)]
pub enum AttestedConnectError<W, H> {
    WebSocketConnect(W),
    ConnectionTimedOut,
    Handshake(H),
}

/// The decision after one route failed with `error`, classified as `class`:
/// go on after an intermittent failure, stop with the error otherwise.
pub fn attested_on_error<W, H>(class: ErrorClass, error: W) -> (r: ControlFlow<
    AttestedConnectError<W, H>,
>)
    ensures
        match class {
            ErrorClass::Intermittent => r == ControlFlow::<AttestedConnectError<W, H>>::Continue(()),
            _ => r == ControlFlow::<AttestedConnectError<W, H>, ()>::Break(
                AttestedConnectError::WebSocketConnect(error),
            ),
        },
{
    match class {
        ErrorClass::Intermittent => ControlFlow::Continue(()),
        ErrorClass::RetryAt(_) | ErrorClass::Fatal => ControlFlow::Break(
            AttestedConnectError::WebSocketConnect(error),
        ),
    }
}

/// The attested layer's error for a failed attempt: running out of routes and
/// the timeout both become `ConnectionTimedOut`; an error that stopped the
/// attempt is passed on as it is.
pub fn attested_connect_error<W, H>(e: TimeoutOr<ConnectError<AttestedConnectError<W, H>>>) -> (r:
    AttestedConnectError<W, H>)
    ensures
        match e {
            TimeoutOr::Other(ConnectError::FatalConnect(inner)) => r == inner,
            _ => r is ConnectionTimedOut,
        },
{
    match e {
        TimeoutOr::Other(ConnectError::NoResolvedRoutes)
        | TimeoutOr::Other(ConnectError::AllAttemptsFailed)
        | TimeoutOr::Timeout { .. } => AttestedConnectError::ConnectionTimedOut,
        TimeoutOr::Other(ConnectError::FatalConnect(inner)) => inner,
    }
}

} // verus!
