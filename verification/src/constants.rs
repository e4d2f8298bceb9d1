//! Defaults shared by the engine and its callers.

use vstd::prelude::*;

verus! {

pub const DEFAULT_CONFIG_FILE: &'static str = "servers.yaml";

pub const DEFAULT_MAX_ATTEMPTS: u8 = 10;

pub const HEALTH_CHECK_INTERVAL_SECONDS: u64 = 1;

pub const MAX_OUTPUT_LINES_PER_SERVER: usize = 5;

} // verus!
