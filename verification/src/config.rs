//! How often the monitor works and how long things last, in nanoseconds, and how wide it is.

use vstd::prelude::*;

verus! {

pub const DRAW_INTERVAL: u64 = 240_000_000;

pub const CPU_INTERVAL: u64 = 800_000_000;

pub const PROCESS_INTERVAL: u64 = 800_000_000;

pub const GPU_INTERVAL: u64 = 800_000_000;

pub const STORAGE_INTERVAL: u64 = 4_000_000_000;

/// How long the process list stands still after a movement of the selection.
pub const PROCESS_FREEZE_AFTER_NAV: u64 = 2_000_000_000;

/// How long an application is still listed after its last process went away.
pub const PROCESS_GROUP_DISAPPEAR_GRACE: u64 = 3_000_000_000;

pub const STATUS_MESSAGE_DURATION: u64 = 3_000_000_000;

pub const MAX_CONTENT_WIDTH: u16 = 160;

pub const CPU_LAYOUT_SLACK_ROWS: u16 = 0;

} // verus!
