//! The live pages: what is sent to them, and how often.

use crate::handlers::dashboard::{counted, TaskClass};
use crate::task_events::TaskState;
use vstd::prelude::*;

verus! {

/// How many seconds the dashboard and the agents page wait between events.
pub const PAGE_SECONDS: u64 = 3;

/// How many seconds the tasks page waits between events.
pub const TASK_SECONDS: u64 = 2;

/// What the dashboard is sent.
#[derive(Clone, Copy, PartialEq, Eq, Structural, Debug)]
pub enum DashboardEvent {
    Stats,
    Agents,
    Audit,
}

/// What the dashboard is sent next.
pub open spec fn turn(tick: u64) -> DashboardEvent {
    if tick % 3 == 0 {
        DashboardEvent::Stats
    } else if tick % 3 == 1 {
        DashboardEvent::Agents
    } else {
        DashboardEvent::Audit
    }
}

/// What the dashboard is sent next.
pub fn dashboard_turn(tick: u64) -> (r: DashboardEvent)
    ensures
        r == turn(tick),
{
    if tick % 3 == 0 {
        DashboardEvent::Stats
    } else if tick % 3 == 1 {
        DashboardEvent::Agents
    } else {
        DashboardEvent::Audit
    }
}

impl DashboardEvent {
    /// The name under which it is sent.
    pub fn event_name(self) -> (r: &'static str)
        ensures
            r@ == match self {
                DashboardEvent::Stats => "dashboard-stats"@,
                DashboardEvent::Agents => "dashboard-agents"@,
                DashboardEvent::Audit => "dashboard-audit"@,
            },
    {
        match self {
            DashboardEvent::Stats => "dashboard-stats",
            DashboardEvent::Agents => "dashboard-agents",
            DashboardEvent::Audit => "dashboard-audit",
        }
    }

    /// The template of which it is made.
    pub fn template(self) -> (r: &'static str)
        ensures
            r@ == match self {
                DashboardEvent::Stats => "partials/dashboard_stats.html"@,
                DashboardEvent::Agents => "partials/dashboard_agents.html"@,
                DashboardEvent::Audit => "partials/dashboard_audit.html"@,
            },
    {
        match self {
            DashboardEvent::Stats => "partials/dashboard_stats.html",
            DashboardEvent::Agents => "partials/dashboard_agents.html",
            DashboardEvent::Audit => "partials/dashboard_audit.html",
        }
    }
}

/// Any three events in a row are one of each kind.
pub proof fn law_the_dashboard_rotates(tick: u64)
    requires
        tick + 2 <= u64::MAX,
    ensures
        turn(tick) != turn((tick + 1) as u64),
        turn(tick) != turn((tick + 2) as u64),
        turn((tick + 1) as u64) != turn((tick + 2) as u64),
{
}

/// How many tasks are at work: running, waiting or suspended.
pub fn active_tasks(states: &Vec<TaskState>) -> (r: usize)
    ensures
        r == counted(states@, TaskClass::Running),
{
    crate::handlers::dashboard::task_summary(states).running
}

} // verus!
