use terminaltime::error::CommandError;
use terminaltime::models::{DailyStats, Project, ProjectStats, Session};
use terminaltime::stats::{
    belongs, collect_days, daily_stats, day_of, place_row, project_stats, starts_within, tally,
    GroupKey,
};

fn session(project_id: i64, start_time: &str, duration_seconds: i64) -> Session {
    Session {
        id: None,
        project_id,
        start_time: start_time.to_string(),
        end_time: None,
        duration_seconds,
        notes: None,
        is_pomodoro: false,
        created_at: None,
    }
}

fn project(id: Option<i64>, name: &str) -> Project {
    Project {
        id,
        name: name.to_string(),
        color: "#000000".to_string(),
        icon: "i".to_string(),
        tags: None,
        archived: false,
        created_at: None,
    }
}

fn daily(rows: &Vec<DailyStats>) -> Vec<(&str, i64, i64)> {
    rows.iter().map(|r| (r.date.as_str(), r.total_seconds, r.sessions_count)).collect()
}

fn per_project(rows: &Vec<ProjectStats>) -> Vec<(i64, &str, i64, i64)> {
    rows.iter()
        .map(|r| (r.project_id, r.project_name.as_str(), r.total_seconds, r.sessions_count))
        .collect()
}

fn week() -> Vec<Session> {
    vec![
        session(1, "2024-01-03T09:00:00", 600),
        session(2, "2024-01-01T08:00:00", 1200),
        session(1, "2024-01-03T15:30:00", 300),
        session(3, "2024-01-02T23:59:59", 60),
        session(2, "2024-01-05T00:00:00", 0),
        session(9, "2024-01-01T12:00:00", 45),
        session(1, "2023-12-31T23:00:00", 999),
    ]
}

#[test]
fn day_is_the_first_ten_characters() {
    assert_eq!(day_of("2024-01-05T10:00:00+00:00"), "2024-01-05");
    assert_eq!(day_of("2024-01-05"), "2024-01-05");
    assert_eq!(day_of("2024-01"), "2024-01");
    assert_eq!(day_of(""), "");
    assert_eq!(day_of("\u{1F4C1}024-01-05T10"), "\u{1F4C1}024-01-05");
}

#[test]
fn range_includes_both_ends() {
    let s = session(1, "2024-01-03", 1);
    assert!(starts_within(&s, "2024-01-03", "2024-01-03"));
    assert!(starts_within(&s, "2024-01-01", "2024-01-03"));
    assert!(starts_within(&s, "2024-01-03", "2024-01-09"));
    assert!(!starts_within(&s, "2024-01-04", "2024-01-09"));
    assert!(!starts_within(&s, "2024-01-01", "2024-01-02"));
    assert!(!starts_within(&s, "2024-01-09", "2024-01-01"));
}

#[test]
fn group_membership() {
    let s = session(4, "2024-01-03T09:00:00", 1);
    assert!(belongs(&s, "2024-01-01", "2024-01-31", &GroupKey::All));
    assert!(belongs(&s, "2024-01-01", "2024-01-31", &GroupKey::Day("2024-01-03".to_string())));
    assert!(!belongs(&s, "2024-01-01", "2024-01-31", &GroupKey::Day("2024-01-04".to_string())));
    assert!(belongs(&s, "2024-01-01", "2024-01-31", &GroupKey::Project(4)));
    assert!(!belongs(&s, "2024-01-01", "2024-01-31", &GroupKey::Project(5)));
    assert!(!belongs(&s, "2024-02-01", "2024-02-28", &GroupKey::All));
}

#[test]
fn tally_adds_seconds_and_counts_sessions() {
    let sessions = week();
    assert_eq!(tally(&sessions, "2024-01-01", "2024-01-31", &GroupKey::All), (2205, 6));
    assert_eq!(tally(&sessions, "2024-01-01", "2024-01-31", &GroupKey::Project(1)), (900, 2));
    assert_eq!(
        tally(&sessions, "2024-01-01", "2024-01-31", &GroupKey::Day("2024-01-01".to_string())),
        (1245, 2)
    );
    assert_eq!(tally(&sessions, "2024-01-01", "2024-01-31", &GroupKey::Project(77)), (0, 0));
    assert_eq!(tally(&Vec::new(), "", "z", &GroupKey::All), (0, 0));
}

#[test]
fn tally_does_not_overflow_where_a_row_would() {
    let sessions =
        vec![session(1, "2024-01-01", i64::MAX), session(1, "2024-01-01", i64::MAX)];
    assert_eq!(
        tally(&sessions, "2024-01-01", "2024-01-31", &GroupKey::All),
        (2 * (i64::MAX as i128), 2)
    );
}

#[test]
fn days_are_collected_once_and_ascending() {
    let days = collect_days(&week(), "2024-01-01", "2024-01-31");
    assert_eq!(days, vec!["2024-01-01", "2024-01-02", "2024-01-03", "2024-01-05"]);
    assert!(collect_days(&week(), "2025-01-01", "2025-01-31").is_empty());
}

#[test]
fn daily_stats_group_by_day_in_ascending_order() {
    let rows = daily_stats(&week(), "2024-01-01", "2024-01-31").unwrap();
    assert_eq!(
        daily(&rows),
        vec![
            ("2024-01-01", 1245, 2),
            ("2024-01-02", 60, 1),
            ("2024-01-03", 900, 2),
            ("2024-01-05", 0, 1),
        ]
    );
}

#[test]
fn daily_stats_add_up_to_the_filtered_sessions() {
    let sessions = week();
    let rows = daily_stats(&sessions, "2024-01-01", "2024-01-31").unwrap();
    let (seconds, count) = tally(&sessions, "2024-01-01", "2024-01-31", &GroupKey::All);
    assert_eq!(rows.iter().map(|r| r.total_seconds as i128).sum::<i128>(), seconds);
    assert_eq!(rows.iter().map(|r| r.sessions_count as u64).sum::<u64>(), count);
    assert!(rows.iter().all(|r| r.sessions_count > 0));
}

#[test]
fn daily_stats_compare_the_whole_timestamp_with_the_range() {
    let rows = daily_stats(&week(), "2024-01-02", "2024-01-05").unwrap();
    assert_eq!(daily(&rows), vec![("2024-01-02", 60, 1), ("2024-01-03", 900, 2)]);
    let rows = daily_stats(&week(), "2024-01-02", "2024-01-05T00:00:00").unwrap();
    assert_eq!(
        daily(&rows),
        vec![("2024-01-02", 60, 1), ("2024-01-03", 900, 2), ("2024-01-05", 0, 1)]
    );
}

#[test]
fn daily_stats_of_nothing_are_empty() {
    assert!(daily_stats(&Vec::new(), "2024-01-01", "2024-01-31").unwrap().is_empty());
    assert!(daily_stats(&week(), "2024-02-01", "2024-02-29").unwrap().is_empty());
    assert!(daily_stats(&week(), "2024-01-31", "2024-01-01").unwrap().is_empty());
}

#[test]
fn daily_stats_fail_where_a_day_overflows() {
    let sessions = vec![
        session(1, "2024-01-01T08:00:00", i64::MAX),
        session(1, "2024-01-01T09:00:00", 1),
        session(1, "2024-01-02T09:00:00", 5),
    ];
    match daily_stats(&sessions, "2024-01-01", "2024-01-31") {
        Err(CommandError::StorageFailure(message)) => assert_eq!(message, "integer overflow"),
        _ => panic!("expected an overflow"),
    }
    let rows = daily_stats(&sessions, "2024-01-02", "2024-01-31").unwrap();
    assert_eq!(daily(&rows), vec![("2024-01-02", 5, 1)]);
}

#[test]
fn daily_stats_hold_a_total_that_only_passes_through_an_overflow() {
    let sessions = vec![
        session(1, "2024-01-01T08:00:00", i64::MAX),
        session(1, "2024-01-01T09:00:00", 10),
        session(1, "2024-01-01T10:00:00", -10),
        session(1, "2024-01-03T10:00:00", i64::MIN),
    ];
    let rows = daily_stats(&sessions, "2024-01-01", "2024-01-31").unwrap();
    assert_eq!(daily(&rows), vec![("2024-01-01", i64::MAX, 3), ("2024-01-03", i64::MIN, 1)]);
}

#[test]
fn project_stats_order_by_seconds_largest_first() {
    let projects = vec![project(Some(1), "Alpha"), project(Some(2), "Beta"), project(Some(3), "Gamma")];
    let rows = project_stats(&week(), &projects, "2024-01-01", "2024-01-31").unwrap();
    assert_eq!(
        per_project(&rows),
        vec![(2, "Beta", 1200, 2), (1, "Alpha", 900, 2), (3, "Gamma", 60, 1)]
    );
}

#[test]
fn project_stats_leave_out_sessions_of_unlisted_projects() {
    let projects = vec![project(Some(1), "Alpha"), project(Some(2), "Beta"), project(Some(3), "Gamma")];
    let sessions = week();
    let rows = project_stats(&sessions, &projects, "2024-01-01", "2024-01-31").unwrap();
    assert!(rows.iter().all(|r| r.project_id != 9));
    let (seconds, count) = tally(&sessions, "2024-01-01", "2024-01-31", &GroupKey::All);
    assert_eq!(rows.iter().map(|r| r.total_seconds as i128).sum::<i128>(), seconds - 45);
    assert_eq!(rows.iter().map(|r| r.sessions_count as u64).sum::<u64>(), count - 1);
}

#[test]
fn project_stats_add_up_where_every_project_is_listed() {
    let projects = vec![
        project(Some(3), "Gamma"),
        project(Some(9), "Iota"),
        project(Some(1), "Alpha"),
        project(Some(2), "Beta"),
        project(Some(4), "Idle"),
    ];
    let sessions = week();
    let rows = project_stats(&sessions, &projects, "2024-01-01", "2024-01-31").unwrap();
    let (seconds, count) = tally(&sessions, "2024-01-01", "2024-01-31", &GroupKey::All);
    assert_eq!(rows.iter().map(|r| r.total_seconds as i128).sum::<i128>(), seconds);
    assert_eq!(rows.iter().map(|r| r.sessions_count as u64).sum::<u64>(), count);
    assert_eq!(rows.len(), 4);
    assert!(rows.iter().all(|r| r.sessions_count > 0));
}

#[test]
fn project_stats_keep_the_order_of_projects_among_equal_totals() {
    let sessions = vec![
        session(1, "2024-01-01", 100),
        session(2, "2024-01-01", 50),
        session(2, "2024-01-02", 50),
        session(3, "2024-01-01", 100),
        session(4, "2024-01-01", 500),
    ];
    let projects = vec![
        project(Some(3), "C"),
        project(Some(1), "A"),
        project(Some(4), "D"),
        project(Some(2), "B"),
    ];
    let rows = project_stats(&sessions, &projects, "2024-01-01", "2024-01-31").unwrap();
    assert_eq!(
        per_project(&rows),
        vec![(4, "D", 500, 1), (3, "C", 100, 1), (1, "A", 100, 1), (2, "B", 100, 2)]
    );
}

#[test]
fn project_stats_skip_projects_without_identity_or_sessions() {
    let projects = vec![project(None, "Draft"), project(Some(5), "Idle"), project(Some(3), "Gamma")];
    let rows = project_stats(&week(), &projects, "2024-01-01", "2024-01-31").unwrap();
    assert_eq!(per_project(&rows), vec![(3, "Gamma", 60, 1)]);
    assert!(project_stats(&week(), &Vec::new(), "2024-01-01", "2024-01-31").unwrap().is_empty());
    assert!(project_stats(&Vec::new(), &projects, "2024-01-01", "2024-01-31").unwrap().is_empty());
}

#[test]
fn project_stats_order_negative_totals_last() {
    let sessions = vec![
        session(1, "2024-01-01", -5),
        session(2, "2024-01-01", 0),
        session(3, "2024-01-01", 7),
    ];
    let projects = vec![project(Some(1), "A"), project(Some(2), "B"), project(Some(3), "C")];
    let rows = project_stats(&sessions, &projects, "2024-01-01", "2024-01-31").unwrap();
    assert_eq!(per_project(&rows), vec![(3, "C", 7, 1), (2, "B", 0, 1), (1, "A", -5, 1)]);
}

#[test]
fn project_stats_fail_where_a_listed_project_overflows() {
    let sessions = vec![
        session(1, "2024-01-01", i64::MIN),
        session(1, "2024-01-02", -1),
        session(2, "2024-01-02", 5),
    ];
    let both = vec![project(Some(2), "B"), project(Some(1), "A")];
    match project_stats(&sessions, &both, "2024-01-01", "2024-01-31") {
        Err(CommandError::StorageFailure(message)) => assert_eq!(message, "integer overflow"),
        _ => panic!("expected an overflow"),
    }
    let only = vec![project(Some(2), "B")];
    let rows = project_stats(&sessions, &only, "2024-01-01", "2024-01-31").unwrap();
    assert_eq!(per_project(&rows), vec![(2, "B", 5, 1)]);
}

#[test]
fn place_row_goes_behind_rows_with_as_many_seconds() {
    let row = |id: i64, seconds: i64| ProjectStats {
        project_id: id,
        project_name: format!("p{}", id),
        total_seconds: seconds,
        sessions_count: 1,
    };
    let mut rows: Vec<ProjectStats> = Vec::new();
    place_row(&mut rows, row(1, 10));
    place_row(&mut rows, row(2, 30));
    place_row(&mut rows, row(3, 10));
    place_row(&mut rows, row(4, 20));
    place_row(&mut rows, row(5, 30));
    let ids: Vec<i64> = rows.iter().map(|r| r.project_id).collect();
    assert_eq!(ids, vec![2, 5, 4, 1, 3]);
}
