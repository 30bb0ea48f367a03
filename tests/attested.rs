use std::ops::ControlFlow;
use std::time::Duration;

use net_connect::attested::{attested_connect_error, attested_on_error, AttestedConnectError, ErrorClass};
use net_connect::connect::{ConnectError, TimeoutOr};

type AErr = AttestedConnectError<&'static str, u8>;

#[test]
fn intermittent_failure_goes_on() {
    let r: ControlFlow<AErr> = attested_on_error(ErrorClass::Intermittent, "closed");
    assert!(matches!(r, ControlFlow::Continue(())));
}

#[test]
fn retry_later_and_fatal_failures_stop() {
    let r: ControlFlow<AErr> = attested_on_error(ErrorClass::RetryAt(500), "busy");
    assert!(matches!(r, ControlFlow::Break(AttestedConnectError::WebSocketConnect("busy"))));
    let r: ControlFlow<AErr> = attested_on_error(ErrorClass::Fatal, "bad");
    assert!(matches!(r, ControlFlow::Break(AttestedConnectError::WebSocketConnect("bad"))));
}

#[test]
fn exhaustion_and_timeout_become_timed_out() {
    let e: AErr = attested_connect_error(TimeoutOr::Other(ConnectError::NoResolvedRoutes));
    assert!(matches!(e, AttestedConnectError::ConnectionTimedOut));
    let e: AErr = attested_connect_error(TimeoutOr::Other(ConnectError::AllAttemptsFailed));
    assert!(matches!(e, AttestedConnectError::ConnectionTimedOut));
    let e: AErr = attested_connect_error(TimeoutOr::Timeout { attempt_duration: Duration::from_secs(31) });
    assert!(matches!(e, AttestedConnectError::ConnectionTimedOut));
}

#[test]
fn fatal_error_passes_through() {
    let e: AErr = attested_connect_error(TimeoutOr::Other(ConnectError::FatalConnect(
        AttestedConnectError::WebSocketConnect("bad"),
    )));
    assert!(matches!(e, AttestedConnectError::WebSocketConnect("bad")));
    let e: AErr = attested_connect_error(TimeoutOr::Other(ConnectError::FatalConnect(
        AttestedConnectError::Handshake(3),
    )));
    assert!(matches!(e, AttestedConnectError::Handshake(3)));
}
