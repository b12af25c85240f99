//! The daemon's lifecycle: what the PID marker says and what starting and
//! stopping do about it.

use vstd::prelude::*;
use crate::text::parse_u32;
use crate::text::trimmed;
use crate::text::unsigned_decimal;

verus! {

/// The PID marker's file in the directory of the registry.
pub const MARKER_FILE: &'static str = "daemon.pid";

/// Milliseconds a stopping daemon is given to leave.
pub const STOP_GRACE_MILLIS: u64 = 500;

/// Why the daemon was not started or stopped.
#[derive(Clone, Copy, Debug, PartialEq, Eq, Structural)]
pub enum LifecycleError {
    /// A daemon with this process id is alive.
    AlreadyRunning(u32),
    /// There is no PID marker.
    NotRunning,
    /// The marker named a process that is gone.
    StaleState,
    /// The marker does not hold a process id.
    BadMarker,
}

/// The process id that the marker's text holds, if it holds one: a decimal
/// number that fits `u32`, with white space around it at most.
pub open spec fn marker_pid(content: Seq<char>) -> Option<u32> {
    match unsigned_decimal(trimmed(content)) {
        Some(value) => if value <= u32::MAX {
            Some(value as u32)
        } else {
            None
        },
        None => None,
    }
}

/// Reads the process id from the text of a PID marker.
pub fn parse_pid(content: &str) -> (r: Result<u32, LifecycleError>)
    ensures
        match r {
            Ok(pid) => marker_pid(content@) == Some(pid),
            Err(error) => marker_pid(content@).is_none() && error == LifecycleError::BadMarker,
        },
{
    match parse_u32(content.trim()) {
        Some(pid) => Ok(pid),
        None => Err(LifecycleError::BadMarker),
    }
}

/// What is known of the PID marker.
#[derive(Clone, Copy, Debug, PartialEq, Eq, Structural)]
pub enum Marker {
    /// There is none.
    Absent,
    /// It names a process that a signal probe reaches.
    Live(u32),
    /// It names a process that is gone.
    Stale(u32),
}

/// What to do to start the daemon, and how the start ends unless a step fails.
#[derive(Clone, Copy, Debug, PartialEq, Eq)]
pub struct StartPlan {
    /// Whether to remove the marker first.
    pub remove_marker: bool,
    /// Whether to detach, write the new process's id to the marker and run the
    /// scheduler loop.
    pub launch: bool,
    /// What to report.
    pub outcome: Result<(), LifecycleError>,
}

/// What to do to stop the daemon, and how the stop ends unless a step fails.
#[derive(Clone, Copy, Debug, PartialEq, Eq)]
pub struct StopPlan {
    /// The process to ask to terminate, if any.
    pub terminate: Option<u32>,
    /// Milliseconds to wait after asking.
    pub grace_millis: u64,
    /// Whether to remove the marker afterwards.
    pub remove_marker: bool,
    /// What to report.
    pub outcome: Result<(), LifecycleError>,
}

/// The plan of a start for each state of the marker.
pub open spec fn start_plan(marker: Marker) -> StartPlan {
    match marker {
        Marker::Live(pid) => StartPlan {
            remove_marker: false,
            launch: false,
            outcome: Err(LifecycleError::AlreadyRunning(pid)),
        },
        Marker::Stale(_) => StartPlan { remove_marker: true, launch: true, outcome: Ok(()) },
        Marker::Absent => StartPlan { remove_marker: false, launch: true, outcome: Ok(()) },
    }
}

/// The plan of a stop for each state of the marker.
pub open spec fn stop_plan(marker: Marker) -> StopPlan {
    match marker {
        Marker::Absent => StopPlan {
            terminate: None,
            grace_millis: 0,
            remove_marker: false,
            outcome: Err(LifecycleError::NotRunning),
        },
        Marker::Stale(_) => StopPlan {
            terminate: None,
            grace_millis: 0,
            remove_marker: true,
            outcome: Err(LifecycleError::StaleState),
        },
        Marker::Live(pid) => StopPlan {
            terminate: Some(pid),
            grace_millis: STOP_GRACE_MILLIS,
            remove_marker: true,
            outcome: Ok(()),
        },
    }
}

/// Decides a start. A live daemon refuses it, and nothing is written; a stale
/// marker is removed first.
pub fn start_daemon(marker: Marker) -> (plan: StartPlan)
    ensures
        plan == start_plan(marker),
        marker is Live ==> plan.outcome == Err::<(), LifecycleError>(
            LifecycleError::AlreadyRunning(marker->Live_0),
        ) && !plan.launch && !plan.remove_marker,
{
    match marker {
        Marker::Live(pid) => StartPlan {
            remove_marker: false,
            launch: false,
            outcome: Err(LifecycleError::AlreadyRunning(pid)),
        },
        Marker::Stale(_) => StartPlan { remove_marker: true, launch: true, outcome: Ok(()) },
        Marker::Absent => StartPlan { remove_marker: false, launch: true, outcome: Ok(()) },
    }
}

/// Decides a stop. Without a marker there is nothing to stop; a stale marker
/// is removed and reported; a live daemon is asked to terminate, given the
/// grace period, and its marker removed.
pub fn stop_daemon(marker: Marker) -> (plan: StopPlan)
    ensures
        plan == stop_plan(marker),
        marker is Absent ==> plan.outcome == Err::<(), LifecycleError>(LifecycleError::NotRunning)
            && plan.terminate.is_none() && !plan.remove_marker,
{
    match marker {
        Marker::Absent => StopPlan {
            terminate: None,
            grace_millis: 0,
            remove_marker: false,
            outcome: Err(LifecycleError::NotRunning),
        },
        Marker::Stale(_) => StopPlan {
            terminate: None,
            grace_millis: 0,
            remove_marker: true,
            outcome: Err(LifecycleError::StaleState),
        },
        Marker::Live(pid) => StopPlan {
            terminate: Some(pid),
            grace_millis: STOP_GRACE_MILLIS,
            remove_marker: true,
            outcome: Ok(()),
        },
    }
}

/// What is known of the marker once the steps of `plan` are done.
pub open spec fn marker_after_stop(marker: Marker) -> Marker {
    if stop_plan(marker).remove_marker {
        Marker::Absent
    } else {
        marker
    }
}

/// Decides a restart: a stop whose outcome is not reported, then a start on
/// what the stop left of the marker.
pub fn restart_daemon(marker: Marker) -> (plans: (StopPlan, StartPlan))
    ensures
        plans.0 == stop_plan(marker),
        plans.1 == start_plan(marker_after_stop(marker)),
        plans.1.launch && plans.1.outcome.is_ok(),
{
    let stop = stop_daemon(marker);
    let left = if stop.remove_marker {
        Marker::Absent
    } else {
        marker
    };
    (stop, start_daemon(left))
}

} // verus!
