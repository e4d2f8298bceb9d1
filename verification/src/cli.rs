//! The run options a caller hands the engine, and their validation.

use vstd::prelude::*;
use vstd::string::StringExecFns;

verus! {

/// Options of one orchestration run. The caller's argument parser fills
/// this in; `validate` decides whether the combination is usable.
#[derive(Clone, Debug)]
pub struct Args {
    /// Path to the configuration file.
    pub config: String,
    /// Enable verbose logging.
    pub verbose: bool,
    /// Maximum number of connection attempts per server.
    pub attempts: u32,
    /// Seconds between health check polls.
    pub poll_interval: u64,
    /// Maximum total seconds to wait before giving up.
    pub startup_timeout: Option<u64>,
    /// Stop immediately on the first server failure.
    pub fail_fast: bool,
    /// Continue running even if some servers fail.
    pub continue_on_error: bool,
}

/// The combinations `validate` accepts: a positive attempt budget, a
/// positive poll interval, and at most one failure policy.
pub open spec fn args_ok(a: &Args) -> bool {
    &&& a.attempts > 0
    &&& a.poll_interval > 0
    &&& !(a.fail_fast && a.continue_on_error)
}

impl Args {
    /// Accepts exactly the usable option combinations; a rejection names
    /// the first rule broken, with the exact diagnostic.
    pub fn validate(&self) -> (r: Result<(), String>)
        ensures
            r.is_ok() <==> args_ok(self),
            match r {
                Ok(_) => true,
                Err(m) => {
                    if self.attempts == 0 {
                        m@ == "Attempts must be greater than 0"@
                    } else if self.poll_interval == 0 {
                        m@ == "Poll interval must be greater than 0"@
                    } else {
                        m@ == "Cannot use both --fail-fast and --continue-on-error"@
                    }
                },
            },
    {
        if self.attempts == 0 {
            return Err(String::from_str("Attempts must be greater than 0"));
        }
        if self.poll_interval == 0 {
            return Err(String::from_str("Poll interval must be greater than 0"));
        }
        if self.fail_fast && self.continue_on_error {
            return Err(String::from_str("Cannot use both --fail-fast and --continue-on-error"));
        }
        Ok(())
    }
}

} // verus!
