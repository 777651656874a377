//! Warm-restart and fast-reboot state checks: reads of the state
//! database's `WARM_RESTART_ENABLE_TABLE` and `FAST_RESTART_ENABLE_TABLE`
//! rows, with the decision logic verified over whatever values a read
//! hands back.

use vstd::prelude::*;
use vstd::string::StringExecFns;

use crate::strutil::str_eq;

verus! {

/// A failure reported by the state database.
#[derive(Debug)]
pub enum DeviceInfoError {
    SwSS(String),
}

/// The state database: one operation, reading one field of one key.  The
/// production implementation wraps the database client; tests substitute
/// fixed values.  Nothing is assumed of what a read returns.
pub trait StateDBTrait {
    fn hget(&self, key: &str, field: &str) -> Result<Option<String>, String>;
}

/// Whether one stored flag reads as set: exactly the value `true`.
pub open spec fn flag_is_true(v: Option<String>) -> bool {
    match v {
        Some(s) => s@ == "true"@,
        None => false,
    }
}

/// Decides warm restart from the two flags read: the system-wide flag or
/// the container's own, either being exactly `true`.
pub fn warm_restart_decision(system_state: &Option<String>, container_state: &Option<String>) -> (r:
    bool)
    ensures
        r == (flag_is_true(*system_state) || flag_is_true(*container_state)),
{
    let sys = match system_state {
        Some(s) => str_eq(s.as_str(), "true"),
        None => false,
    };
    let cont = match container_state {
        Some(s) => str_eq(s.as_str(), "true"),
        None => false,
    };
    sys || cont
}

/// Decides fast reboot from the one flag read: the system-wide flag being
/// exactly `true`.
pub fn fast_reboot_decision(system_state: &Option<String>) -> (r: bool)
    ensures
        r == flag_is_true(*system_state),
{
    match system_state {
        Some(s) => str_eq(s.as_str(), "true"),
        None => false,
    }
}

/// Whether a container watcher should keep waiting after its container
/// stopped: only a dependent service under warm restart or fast reboot
/// is expected back; anything else ends the wait.
pub fn container_wait_decision(dependent: bool, warm_restart: bool, fast_reboot: bool) -> (r: bool)
    ensures
        r == (dependent && (warm_restart || fast_reboot)),
{
    dependent && (warm_restart || fast_reboot)
}

/// Whether warm restart is enabled for a container: the `enable` field of
/// `WARM_RESTART_ENABLE_TABLE|system` or of the container's own row reads
/// `true`.  A database failure on either read is the error.
pub fn is_warm_restart_enabled_with_db<T: StateDBTrait + ?Sized>(
    container_name: &str,
    state_db: &T,
) -> Result<bool, DeviceInfoError> {
    let system_key = "WARM_RESTART_ENABLE_TABLE|system";
    let wr_system_state = match state_db.hget(system_key, "enable") {
        Ok(v) => v,
        Err(e) => {
            return Err(DeviceInfoError::SwSS(e));
        },
    };
    let mut container_key = "WARM_RESTART_ENABLE_TABLE|".to_owned();
    container_key.append(container_name);
    let wr_container_state = match state_db.hget(container_key.as_str(), "enable") {
        Ok(v) => v,
        Err(e) => {
            return Err(DeviceInfoError::SwSS(e));
        },
    };
    Ok(warm_restart_decision(&wr_system_state, &wr_container_state))
}

/// Whether fast reboot is enabled: the `enable` field of
/// `FAST_RESTART_ENABLE_TABLE|system` reads `true`.  A database failure
/// is the error.
pub fn is_fast_reboot_enabled_with_db<T: StateDBTrait + ?Sized>(state_db: &T) -> Result<
    bool,
    DeviceInfoError,
> {
    let system_key = "FAST_RESTART_ENABLE_TABLE|system";
    let fb_system_state = match state_db.hget(system_key, "enable") {
        Ok(v) => v,
        Err(e) => {
            return Err(DeviceInfoError::SwSS(e));
        },
    };
    Ok(fast_reboot_decision(&fb_system_state))
}

} // verus!
