//! Core logic of a container-restart alerting service.
//!
//! The library watches a stream of workload lifecycle events, keeps a ledger
//! of per-container restart counts, throttles alerts for flapping containers,
//! routes each alert to a destination channel through an ordered list of
//! wildcard rules, and renders the textual parts of the alert message.
//! All state transitions and text computations are verified; the surrounding
//! process (cluster watch, log fetch, message delivery) lives outside the
//! library and only hands plain values in and out.

pub mod throttle;
pub mod glob;
pub mod rules;
pub mod ledger;
pub mod message;
pub mod snapshot;
pub mod watch;
pub mod delivery;
