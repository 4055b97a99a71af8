use terminaltime::commands::{
    active_session, archive_project, create_goal, create_project, delete_project, delete_session,
    get_active_session, get_current_streak, get_daily_stats, get_goals, get_pomodoro_settings,
    get_project_stats, get_projects, get_sessions, pomodoro_settings, start_session,
    stop_session, update_pomodoro_settings, update_project,
    update_session, update_streak, Statement,
};
use terminaltime::error::CommandError;
use terminaltime::models::{PomodoroSettings, Session};

fn params(statement: &Statement) -> Vec<&str> {
    statement.params.iter().map(|p| p.as_str()).collect()
}

fn placeholders(statement: &Statement) -> usize {
    statement.sql.matches('?').count()
}

fn session(id: i64, start_time: &str) -> Session {
    Session {
        id: Some(id),
        project_id: 1,
        start_time: start_time.to_string(),
        end_time: None,
        duration_seconds: 0,
        notes: None,
        is_pomodoro: false,
        created_at: None,
    }
}

#[test]
fn sessions_query_without_filters() {
    let q = get_sessions(None, None, None, None).unwrap();
    assert_eq!(q.sql, "SELECT * FROM sessions WHERE 1=1 ORDER BY start_time DESC");
    assert!(q.params.is_empty());
}

#[test]
fn sessions_query_with_every_filter() {
    let q = get_sessions(
        Some(7),
        Some("2024-01-01".to_string()),
        Some("2024-01-31".to_string()),
        Some(50),
    )
    .unwrap();
    assert_eq!(
        q.sql,
        "SELECT * FROM sessions WHERE 1=1 AND project_id = ? AND start_time >= ? AND start_time <= ? ORDER BY start_time DESC LIMIT 50"
    );
    assert_eq!(params(&q), vec!["7", "2024-01-01", "2024-01-31"]);
}

#[test]
fn sessions_query_binds_one_parameter_per_filter() {
    for mask in 0..8 {
        let project = if mask & 1 != 0 { Some(42) } else { None };
        let start = if mask & 2 != 0 { Some("2024-02-01".to_string()) } else { None };
        let end = if mask & 4 != 0 { Some("2024-02-29".to_string()) } else { None };
        let mut expected: Vec<&str> = Vec::new();
        if project.is_some() {
            expected.push("42");
        }
        if start.is_some() {
            expected.push("2024-02-01");
        }
        if end.is_some() {
            expected.push("2024-02-29");
        }
        let q = get_sessions(project, start.clone(), end.clone(), None).unwrap();
        assert_eq!(params(&q), expected);
        assert_eq!(placeholders(&q), expected.len());
        assert_eq!(q.sql.contains("project_id = ?"), project.is_some());
        assert_eq!(q.sql.contains("start_time >= ?"), start.is_some());
        assert_eq!(q.sql.contains("start_time <= ?"), end.is_some());
        assert!(q.sql.starts_with("SELECT * FROM sessions WHERE 1=1"));
        assert!(q.sql.ends_with(" ORDER BY start_time DESC"));
    }
}

#[test]
fn sessions_query_keeps_the_order_of_filters() {
    let q = get_sessions(None, Some("a".to_string()), Some("b".to_string()), None).unwrap();
    assert_eq!(
        q.sql,
        "SELECT * FROM sessions WHERE 1=1 AND start_time >= ? AND start_time <= ? ORDER BY start_time DESC"
    );
    assert_eq!(params(&q), vec!["a", "b"]);
    let q = get_sessions(Some(-3), None, Some("b".to_string()), None).unwrap();
    assert_eq!(
        q.sql,
        "SELECT * FROM sessions WHERE 1=1 AND project_id = ? AND start_time <= ? ORDER BY start_time DESC"
    );
    assert_eq!(params(&q), vec!["-3", "b"]);
}

#[test]
fn sessions_query_never_puts_a_value_into_the_text() {
    let hostile = "x' OR 1=1; DROP TABLE sessions; --".to_string();
    let q = get_sessions(None, Some(hostile.clone()), None, None).unwrap();
    assert_eq!(
        q.sql,
        "SELECT * FROM sessions WHERE 1=1 AND start_time >= ? ORDER BY start_time DESC"
    );
    assert_eq!(params(&q), vec![hostile.as_str()]);
}

#[test]
fn sessions_query_caps_rows_last() {
    let q = get_sessions(None, None, None, Some(0)).unwrap();
    assert_eq!(q.sql, "SELECT * FROM sessions WHERE 1=1 ORDER BY start_time DESC LIMIT 0");
    let q = get_sessions(None, None, None, Some(i64::MAX)).unwrap();
    assert_eq!(
        q.sql,
        "SELECT * FROM sessions WHERE 1=1 ORDER BY start_time DESC LIMIT 9223372036854775807"
    );
    assert!(q.params.is_empty());
}

#[test]
fn sessions_query_rejects_a_negative_cap() {
    assert!(matches!(
        get_sessions(None, None, None, Some(-1)),
        Err(CommandError::InvalidArgument)
    ));
    assert!(matches!(
        get_sessions(Some(1), Some("a".to_string()), None, Some(i64::MIN)),
        Err(CommandError::InvalidArgument)
    ));
}

#[test]
fn create_project_binds_four_values() {
    let q = create_project(
        "Thesis".to_string(),
        "#ff0000".to_string(),
        "book".to_string(),
        Some("[\"uni\"]".to_string()),
    );
    assert_eq!(q.sql, "INSERT INTO projects (name, color, icon, tags) VALUES (?, ?, ?, ?)");
    assert_eq!(params(&q), vec!["Thesis", "#ff0000", "book", "[\"uni\"]"]);
    assert_eq!(placeholders(&q), 4);
}

#[test]
fn create_project_without_tags_binds_the_empty_text() {
    let q = create_project("A".to_string(), "b".to_string(), "c".to_string(), None);
    assert_eq!(params(&q), vec!["A", "b", "c", ""]);
}

#[test]
fn projects_are_listed_with_or_without_archived_ones() {
    let all = get_projects(true);
    assert_eq!(all.sql, "SELECT * FROM projects ORDER BY created_at DESC");
    assert!(all.params.is_empty());
    let open = get_projects(false);
    assert_eq!(open.sql, "SELECT * FROM projects WHERE archived = 0 ORDER BY created_at DESC");
    assert!(open.params.is_empty());
}

#[test]
fn update_project_binds_the_id_last() {
    let q = update_project(12, "N".to_string(), "C".to_string(), "I".to_string(), None);
    assert_eq!(q.sql, "UPDATE projects SET name = ?, color = ?, icon = ?, tags = ? WHERE id = ?");
    assert_eq!(params(&q), vec!["N", "C", "I", "", "12"]);
    assert_eq!(placeholders(&q), 5);
}

#[test]
fn archive_project_binds_the_flag_as_a_digit() {
    let q = archive_project(5, true);
    assert_eq!(q.sql, "UPDATE projects SET archived = ? WHERE id = ?");
    assert_eq!(params(&q), vec!["1", "5"]);
    let q = archive_project(5, false);
    assert_eq!(params(&q), vec!["0", "5"]);
}

#[test]
fn delete_project_binds_the_id() {
    let q = delete_project(-9);
    assert_eq!(q.sql, "DELETE FROM projects WHERE id = ?");
    assert_eq!(params(&q), vec!["-9"]);
}

#[test]
fn start_session_binds_project_time_and_flag() {
    let q = start_session(3, true, "2024-01-05T10:00:00+00:00".to_string());
    assert_eq!(
        q.sql,
        "INSERT INTO sessions (project_id, start_time, is_pomodoro) VALUES (?, ?, ?)"
    );
    assert_eq!(params(&q), vec!["3", "2024-01-05T10:00:00+00:00", "1"]);
    assert_eq!(placeholders(&q), 3);
    let q = start_session(-4, false, chrono::Utc::now().to_rfc3339());
    assert_eq!(q.params[0], "-4");
    assert!(chrono::DateTime::parse_from_rfc3339(&q.params[1]).is_ok());
    assert_eq!(q.params[2], "0");
}

#[test]
fn stop_session_binds_four_values() {
    let q = stop_session(8, 1500, Some("done".to_string()), "2024-01-05T10:25:00+00:00".to_string());
    assert_eq!(
        q.sql,
        "UPDATE sessions SET end_time = ?, duration_seconds = ?, notes = ? WHERE id = ?"
    );
    assert_eq!(params(&q), vec!["2024-01-05T10:25:00+00:00", "1500", "done", "8"]);
    assert_eq!(placeholders(&q), 4);
}

#[test]
fn stop_session_without_notes_binds_the_empty_text() {
    let q = stop_session(8, 60, None, "2024-01-05T10:25:00+00:00".to_string());
    assert_eq!(params(&q), vec!["2024-01-05T10:25:00+00:00", "60", "", "8"]);
}

#[test]
fn active_session_is_the_first_row() {
    let q = get_active_session();
    assert_eq!(
        q.sql,
        "SELECT * FROM sessions WHERE end_time IS NULL ORDER BY start_time DESC LIMIT 1"
    );
    assert!(q.params.is_empty());
    assert!(active_session(Vec::new()).is_none());
    let rows = vec![session(4, "2024-01-05T10:00:00"), session(2, "2024-01-04T10:00:00")];
    let first = active_session(rows).unwrap();
    assert_eq!(first.id, Some(4));
    assert_eq!(first.start_time, "2024-01-05T10:00:00");
}

#[test]
fn update_session_binds_three_values() {
    let q = update_session(8, 90, Some("fixed".to_string()));
    assert_eq!(q.sql, "UPDATE sessions SET duration_seconds = ?, notes = ? WHERE id = ?");
    assert_eq!(params(&q), vec!["90", "fixed", "8"]);
}

#[test]
fn delete_session_binds_the_id() {
    let q = delete_session(77);
    assert_eq!(q.sql, "DELETE FROM sessions WHERE id = ?");
    assert_eq!(params(&q), vec!["77"]);
}

#[test]
fn statistics_queries_ask_for_the_sessions_of_the_range() {
    let expected =
        "SELECT * FROM sessions WHERE 1=1 AND start_time >= ? AND start_time <= ? ORDER BY start_time DESC";
    let q = get_daily_stats("2024-01-01".to_string(), "2024-01-31".to_string());
    assert_eq!(q.sql, expected);
    assert_eq!(params(&q), vec!["2024-01-01", "2024-01-31"]);
    assert_eq!(placeholders(&q), 2);
    let q = get_project_stats("2024-02-01".to_string(), "2024-02-29".to_string());
    assert_eq!(q.sql, expected);
    assert_eq!(params(&q), vec!["2024-02-01", "2024-02-29"]);
}

#[test]
fn missing_settings_row_is_not_found() {
    let q = get_pomodoro_settings();
    assert_eq!(q.sql, "SELECT * FROM pomodoro_settings WHERE id = 1");
    assert!(q.params.is_empty());
    let missing = pomodoro_settings(Vec::new());
    assert!(matches!(missing, Err(CommandError::NotFound)));
    assert_eq!(CommandError::NotFound.message(), "Pomodoro settings not found");
}

#[test]
fn settings_are_the_first_row() {
    let row = PomodoroSettings {
        id: 1,
        work_duration: 1500,
        short_break: 300,
        long_break: 900,
        cycles_before_long_break: 4,
        sound_enabled: true,
        notifications_enabled: false,
    };
    let found = pomodoro_settings(vec![row]).unwrap();
    assert_eq!(found.work_duration, 1500);
    assert_eq!(found.cycles_before_long_break, 4);
    assert!(!found.notifications_enabled);
}

#[test]
fn update_pomodoro_settings_binds_six_values() {
    let q = update_pomodoro_settings(1500, 300, 900, 4, true, false);
    assert!(q.sql.starts_with("UPDATE pomodoro_settings SET work_duration = ?"));
    assert!(q.sql.ends_with("WHERE id = 1"));
    assert_eq!(params(&q), vec!["1500", "300", "900", "4", "1", "0"]);
    assert_eq!(placeholders(&q), 6);
}

#[test]
fn create_goal_for_a_project_binds_its_identity() {
    let q = create_goal(Some(3), 7200);
    assert_eq!(q.sql, "INSERT INTO goals (project_id, daily_target_seconds) VALUES (?, ?)");
    assert_eq!(params(&q), vec!["3", "7200"]);
    assert_eq!(placeholders(&q), 2);
}

#[test]
fn create_goal_without_project_stores_null() {
    let q = create_goal(None, 7200);
    assert_eq!(q.sql, "INSERT INTO goals (project_id, daily_target_seconds) VALUES (NULL, ?)");
    assert_eq!(params(&q), vec!["7200"]);
    assert_eq!(placeholders(&q), 1);
}

#[test]
fn goals_are_listed_newest_first() {
    let q = get_goals();
    assert_eq!(q.sql, "SELECT * FROM goals ORDER BY created_at DESC");
    assert!(q.params.is_empty());
}

#[test]
fn update_streak_replaces_the_entry_of_the_date() {
    let q = update_streak("2024-01-05".to_string(), 5400, true);
    assert_eq!(
        q.sql,
        "INSERT OR REPLACE INTO streaks (date, total_seconds, goal_met) VALUES (?, ?, ?)"
    );
    assert_eq!(params(&q), vec!["2024-01-05", "5400", "1"]);
}

#[test]
fn current_streak_query_asks_for_met_days_newest_first() {
    let q = get_current_streak();
    assert_eq!(q.sql, "SELECT * FROM streaks WHERE goal_met = 1 ORDER BY date DESC");
    assert!(q.params.is_empty());
}

#[test]
fn error_messages() {
    assert_eq!(CommandError::StorageFailure("disk full".to_string()).message(), "disk full");
    assert_eq!(
        CommandError::InvalidArgument.message(),
        "Invalid argument: limit must not be negative"
    );
}
