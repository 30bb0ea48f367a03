//! Connection-establishment decisions over several alternative network routes:
//! log-safe rendering of routes, a per-route outcome ledger, the multi-route
//! attempt state machine with its two-phase ledger update, and the error
//! mapping of the attested layer.
pub mod attested;
pub mod connect;
pub mod ledger;
pub mod redact;
pub mod route;
