//! Verified core of a set of SONiC process-supervision utilities.
//!
//! The heart of the crate is the supervisor process-exit listener: the
//! supervisor event-stream codec, the critical/watched name-list loader,
//! the per-process alert and heartbeat state store with its periodic
//! sweep, and the policy-driven event dispatcher.  Around it stand the
//! verified compute parts of the companion tools: the wake-on-LAN packet
//! builder and its argument parsers, the warm-restart/fast-reboot state
//! checks, and the container-watchdog health classifications.

pub mod childutils;
pub mod device_info;
pub mod dispatch;
pub mod namedmap;
pub mod namelist;
pub mod policy;
pub mod state;
pub mod strutil;
pub mod watchdog_checks;
pub mod wol;

use vstd::prelude::*;

verus! {

/// Seconds between successive "not running" alerts for one process, and
/// the default staleness threshold for watched-process heartbeats.
pub const ALERTING_INTERVAL_SECS: u64 = 60;

} // verus!
