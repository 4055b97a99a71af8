//! The schema of the store, as the list of migrations that creates it.

use vstd::prelude::*;

verus! {

/// The direction of a migration.
#[derive(Debug, Clone, Copy)]
pub enum MigrationKind {
    Up,
    Down,
}

/// One step in the history of the schema.
#[derive(Debug, Clone, Copy)]
pub struct Migration {
    pub version: i64,
    pub description: &'static str,
    pub sql: &'static str,
    pub kind: MigrationKind,
}

/// Creates the five tables, the one row of timer settings and the indexes.
///
/// Sessions and goals refer to their project and are deleted with it; the
/// settings table admits only the row with `id` 1; a date has at most one
/// streak entry.
pub const INITIAL_SCHEMA_SQL: &'static str = "\
CREATE TABLE IF NOT EXISTS projects (
    id INTEGER PRIMARY KEY AUTOINCREMENT,
    name TEXT NOT NULL,
    color TEXT DEFAULT '#6366f1',
    icon TEXT DEFAULT '\u{1F4C1}',
    tags TEXT,
    archived BOOLEAN DEFAULT 0,
    created_at DATETIME DEFAULT CURRENT_TIMESTAMP
);

CREATE TABLE IF NOT EXISTS sessions (
    id INTEGER PRIMARY KEY AUTOINCREMENT,
    project_id INTEGER NOT NULL,
    start_time DATETIME NOT NULL,
    end_time DATETIME,
    duration_seconds INTEGER DEFAULT 0,
    notes TEXT,
    is_pomodoro BOOLEAN DEFAULT 0,
    created_at DATETIME DEFAULT CURRENT_TIMESTAMP,
    FOREIGN KEY (project_id) REFERENCES projects(id) ON DELETE CASCADE
);

CREATE TABLE IF NOT EXISTS pomodoro_settings (
    id INTEGER PRIMARY KEY CHECK (id = 1),
    work_duration INTEGER DEFAULT 1500,
    short_break INTEGER DEFAULT 300,
    long_break INTEGER DEFAULT 900,
    cycles_before_long_break INTEGER DEFAULT 4,
    sound_enabled BOOLEAN DEFAULT 1,
    notifications_enabled BOOLEAN DEFAULT 1
);

CREATE TABLE IF NOT EXISTS goals (
    id INTEGER PRIMARY KEY AUTOINCREMENT,
    project_id INTEGER,
    daily_target_seconds INTEGER,
    created_at DATETIME DEFAULT CURRENT_TIMESTAMP,
    FOREIGN KEY (project_id) REFERENCES projects(id) ON DELETE CASCADE
);

CREATE TABLE IF NOT EXISTS streaks (
    id INTEGER PRIMARY KEY AUTOINCREMENT,
    date DATE UNIQUE NOT NULL,
    total_seconds INTEGER DEFAULT 0,
    goal_met BOOLEAN DEFAULT 0
);

INSERT OR IGNORE INTO pomodoro_settings (id) VALUES (1);

CREATE INDEX IF NOT EXISTS idx_sessions_project_id ON sessions(project_id);
CREATE INDEX IF NOT EXISTS idx_sessions_start_time ON sessions(start_time);
CREATE INDEX IF NOT EXISTS idx_streaks_date ON streaks(date);
";

/// The migrations of the store, oldest first: so far the one that creates
/// the initial tables.
pub fn get_migrations() -> (r: Vec<Migration>)
    ensures
        r@.len() == 1,
        r@[0].version == 1,
        r@[0].description@ == "create_initial_tables"@,
        r@[0].sql@ == INITIAL_SCHEMA_SQL@,
        r@[0].kind is Up,
{
    let mut migrations: Vec<Migration> = Vec::new();
    migrations.push(
        Migration {
            version: 1,
            description: "create_initial_tables",
            sql: INITIAL_SCHEMA_SQL,
            kind: MigrationKind::Up,
        },
    );
    migrations
}

} // verus!
