//! The records that the store keeps and the derived statistics rows.

use vstd::prelude::*;

verus! {

/// A project that sessions are tracked against. `id` is assigned by the store
/// when the project is created and never changes afterwards.
#[derive(Debug, Clone)]
pub struct Project {
    pub id: Option<i64>,
    pub name: String,
    pub color: String,
    pub icon: String,
    /// A JSON array, kept as text.
    pub tags: Option<String>,
    pub archived: bool,
    pub created_at: Option<String>,
}

/// One contiguous block of tracked work. `end_time` is absent while the
/// session is still running.
#[derive(Debug, Clone)]
pub struct Session {
    pub id: Option<i64>,
    pub project_id: i64,
    pub start_time: String,
    pub end_time: Option<String>,
    pub duration_seconds: i64,
    pub notes: Option<String>,
    pub is_pomodoro: bool,
    pub created_at: Option<String>,
}

/// The single row of timer settings; its `id` is always 1.
#[derive(Debug, Clone)]
pub struct PomodoroSettings {
    pub id: i64,
    pub work_duration: i64,
    pub short_break: i64,
    pub long_break: i64,
    pub cycles_before_long_break: i64,
    pub sound_enabled: bool,
    pub notifications_enabled: bool,
}

/// A daily target; without a `project_id` it applies to all projects.
#[derive(Debug, Clone)]
pub struct Goal {
    pub id: Option<i64>,
    pub project_id: Option<i64>,
    pub daily_target_seconds: i64,
    pub created_at: Option<String>,
}

/// The record of one calendar day: the seconds tracked and whether the goal
/// was met. The store keeps at most one entry per date.
#[derive(Debug, Clone)]
pub struct Streak {
    pub id: Option<i64>,
    pub date: String,
    pub total_seconds: i64,
    pub goal_met: bool,
}

/// Totals of the sessions that started on one calendar day.
#[derive(Debug, Clone)]
pub struct DailyStats {
    pub date: String,
    pub total_seconds: i64,
    pub sessions_count: i64,
}

/// Totals of the sessions of one project.
#[derive(Debug, Clone)]
pub struct ProjectStats {
    pub project_id: i64,
    pub project_name: String,
    pub total_seconds: i64,
    pub sessions_count: i64,
}

} // verus!
