//! The statements behind each operation of the tracker.
//!
//! A function here takes the operation's arguments and builds the statement
//! that the operation runs against the store: its text, with one `?` for each
//! bound value, and the values in the order of their placeholders. Values never
//! become part of the text, with the one exception of the row cap of
//! [`get_sessions`], which is a checked non-negative integer.

use vstd::prelude::*;
use vstd::string::StringExecFns;
use crate::error::CommandError;
use crate::models::{PomodoroSettings, Session};
use crate::text::{
    contains_text, decimal, decimal_string, flag_string, flag_text, lemma_decimal_characters,
    lemma_occurrences_concat, lemma_part_needs_its_characters, occurrences, occurrences_before,
    occurs_at, push_decimal,
};

verus! {

/// A statement for the store: the text and its positional parameters.
#[derive(Debug, Clone)]
pub struct Statement {
    pub sql: String,
    pub params: Vec<String>,
}

/// The contents of a list of strings.
pub open spec fn texts(v: Seq<String>) -> Seq<Seq<char>> {
    v.map_values(|s: String| s@)
}

/// A clause that is part of the text only when its filter is present.
pub open spec fn optional_clause(present: bool, clause: Seq<char>) -> Seq<char> {
    if present {
        clause
    } else {
        Seq::empty()
    }
}

/// The parameter that a filter binds: one when it is present, none otherwise.
pub open spec fn optional_param(value: Option<Seq<char>>) -> Seq<Seq<char>> {
    match value {
        Some(t) => seq![t],
        None => Seq::empty(),
    }
}

/// The contents of an optional string.
pub open spec fn optional_text(value: Option<String>) -> Option<Seq<char>> {
    match value {
        Some(s) => Some(s@),
        None => None,
    }
}

/// The decimal text of an optional integer.
pub open spec fn optional_decimal(value: Option<i64>) -> Option<Seq<char>> {
    match value {
        Some(n) => Some(decimal(n as int)),
        None => None,
    }
}

/// The row cap at the end of the sessions query.
pub open spec fn limit_clause(limit: Option<i64>) -> Seq<char> {
    match limit {
        Some(l) => " LIMIT "@ + decimal(l as int),
        None => Seq::empty(),
    }
}

/// Text of the sessions query: all sessions, narrowed by each filter that is
/// present (project, then earliest start, then latest start), newest first,
/// capped last.
pub open spec fn sessions_sql(project: bool, start: bool, end: bool, limit: Option<i64>) -> Seq<
    char,
> {
    "SELECT * FROM sessions WHERE 1=1"@ + optional_clause(project, " AND project_id = ?"@)
        + optional_clause(start, " AND start_time >= ?"@) + optional_clause(
        end,
        " AND start_time <= ?"@,
    ) + " ORDER BY start_time DESC"@ + limit_clause(limit)
}

/// Parameters of the sessions query, in the order of their placeholders.
pub open spec fn sessions_params(
    project_id: Option<i64>,
    start_date: Option<String>,
    end_date: Option<String>,
) -> Seq<Seq<char>> {
    optional_param(optional_decimal(project_id)) + optional_param(optional_text(start_date))
        + optional_param(optional_text(end_date))
}

/// A row cap is accepted unless it is negative.
pub open spec fn limit_accepted(limit: Option<i64>) -> bool {
    match limit {
        Some(l) => l >= 0,
        None => true,
    }
}

fn sessions_statement(
    project_id: Option<i64>,
    start_date: Option<String>,
    end_date: Option<String>,
    limit: Option<i64>,
) -> (q: Statement)
    ensures
        q.sql@ == sessions_sql(project_id is Some, start_date is Some, end_date is Some, limit),
        texts(q.params@) == sessions_params(project_id, start_date, end_date),
{
    let ghost project_param = optional_param(optional_decimal(project_id));
    let ghost start_param = optional_param(optional_text(start_date));
    let ghost all_params = sessions_params(project_id, start_date, end_date);
    let ghost all_text = sessions_sql(
        project_id is Some,
        start_date is Some,
        end_date is Some,
        limit,
    );

    let mut query = String::from_str("SELECT * FROM sessions WHERE 1=1");
    let mut params: Vec<String> = Vec::new();
    assert(texts(params@) =~= Seq::<Seq<char>>::empty());

    if let Some(pid) = project_id {
        query.append(" AND project_id = ?");
        params.push(decimal_string(pid));
    }
    assert(texts(params@) =~= project_param);

    if let Some(start) = start_date {
        query.append(" AND start_time >= ?");
        params.push(start);
    }
    assert(texts(params@) =~= project_param + start_param);

    if let Some(end) = end_date {
        query.append(" AND start_time <= ?");
        params.push(end);
    }
    assert(texts(params@) =~= all_params);

    query.append(" ORDER BY start_time DESC");

    if let Some(lim) = limit {
        query.append(" LIMIT ");
        push_decimal(&mut query, lim);
    }
    assert(query@ =~= all_text);
    Statement { sql: query, params }
}

/// Lists sessions under any combination of the optional filters.
///
/// A negative `limit` is rejected with `InvalidArgument`; every other input
/// gives the statement described by [`sessions_sql`] and [`sessions_params`].
pub fn get_sessions(
    project_id: Option<i64>,
    start_date: Option<String>,
    end_date: Option<String>,
    limit: Option<i64>,
) -> (r: Result<Statement, CommandError>)
    ensures
        limit_accepted(limit) <==> r is Ok,
        r matches Ok(q) ==> q.sql@ == sessions_sql(
            project_id is Some,
            start_date is Some,
            end_date is Some,
            limit,
        ) && texts(q.params@) == sessions_params(project_id, start_date, end_date),
        r matches Err(e) ==> e is InvalidArgument,
{
    if let Some(lim) = limit {
        if lim < 0 {
            return Err(CommandError::InvalidArgument);
        }
    }
    Ok(sessions_statement(project_id, start_date, end_date, limit))
}

/// Number of the filters that are present.
pub open spec fn filters_present(project: bool, start: bool, end: bool) -> int {
    (if project {
        1int
    } else {
        0int
    }) + (if start {
        1int
    } else {
        0int
    }) + (if end {
        1int
    } else {
        0int
    })
}

/// The characters by which the pieces of the sessions query are told apart:
/// the placeholder, and one character that only one filter's clause has.
spec fn is_marker(c: char) -> bool {
    c == '?' || c == 'j' || c == '>' || c == '<'
}

proof fn lemma_select_markers(c: char)
    requires
        is_marker(c),
    ensures
        occurrences("SELECT * FROM sessions WHERE 1=1"@, c) == 0,
{
    reveal_strlit("SELECT * FROM sessions WHERE 1=1");
    reveal_with_fuel(occurrences_before, 34);
}

proof fn lemma_order_markers(c: char)
    requires
        is_marker(c),
    ensures
        occurrences(" ORDER BY start_time DESC"@, c) == 0,
{
    reveal_strlit(" ORDER BY start_time DESC");
    reveal_with_fuel(occurrences_before, 27);
}

proof fn lemma_project_clause_markers(c: char)
    requires
        is_marker(c),
    ensures
        occurrences(" AND project_id = ?"@, c) == (if c == '?' || c == 'j' {
            1int
        } else {
            0int
        }),
        " AND project_id = ?"@.len() == 19,
        " AND project_id = ?"@[8] == 'j',
{
    reveal_strlit(" AND project_id = ?");
    reveal_with_fuel(occurrences_before, 21);
}

proof fn lemma_start_clause_markers(c: char)
    requires
        is_marker(c),
    ensures
        occurrences(" AND start_time >= ?"@, c) == (if c == '?' || c == '>' {
            1int
        } else {
            0int
        }),
        " AND start_time >= ?"@.len() == 20,
        " AND start_time >= ?"@[16] == '>',
{
    reveal_strlit(" AND start_time >= ?");
    reveal_with_fuel(occurrences_before, 22);
}

proof fn lemma_end_clause_markers(c: char)
    requires
        is_marker(c),
    ensures
        occurrences(" AND start_time <= ?"@, c) == (if c == '?' || c == '<' {
            1int
        } else {
            0int
        }),
        " AND start_time <= ?"@.len() == 20,
        " AND start_time <= ?"@[16] == '<',
{
    reveal_strlit(" AND start_time <= ?");
    reveal_with_fuel(occurrences_before, 22);
}

proof fn lemma_limit_markers(limit: Option<i64>, c: char)
    requires
        is_marker(c),
    ensures
        occurrences(limit_clause(limit), c) == 0,
{
    reveal_strlit(" LIMIT ");
    reveal_with_fuel(occurrences_before, 9);
    if let Some(l) = limit {
        lemma_decimal_characters(l as int, c);
        lemma_occurrences_concat(" LIMIT "@, decimal(l as int), c);
    }
}

proof fn lemma_sessions_sql_markers(
    project: bool,
    start: bool,
    end: bool,
    limit: Option<i64>,
    c: char,
)
    requires
        is_marker(c),
    ensures
        occurrences(sessions_sql(project, start, end, limit), c) == (if project && (c == '?' || c
            == 'j') {
            1int
        } else {
            0int
        }) + (if start && (c == '?' || c == '>') {
            1int
        } else {
            0int
        }) + (if end && (c == '?' || c == '<') {
            1int
        } else {
            0int
        }),
{
    let select = "SELECT * FROM sessions WHERE 1=1"@;
    let by_project = optional_clause(project, " AND project_id = ?"@);
    let from_start = optional_clause(start, " AND start_time >= ?"@);
    let to_end = optional_clause(end, " AND start_time <= ?"@);
    let order = " ORDER BY start_time DESC"@;
    let cap = limit_clause(limit);
    lemma_select_markers(c);
    lemma_project_clause_markers(c);
    lemma_start_clause_markers(c);
    lemma_end_clause_markers(c);
    lemma_order_markers(c);
    lemma_limit_markers(limit, c);
    lemma_occurrences_concat(select, by_project, c);
    lemma_occurrences_concat(select + by_project, from_start, c);
    lemma_occurrences_concat(select + by_project + from_start, to_end, c);
    lemma_occurrences_concat(select + by_project + from_start + to_end, order, c);
    lemma_occurrences_concat(select + by_project + from_start + to_end + order, cap, c);
}

/// Each filter that is present binds exactly one parameter, in the order
/// project, earliest start, latest start, and the text has one placeholder
/// for each of them; a filter that is absent binds nothing.
pub proof fn lemma_one_parameter_per_filter(
    project_id: Option<i64>,
    start_date: Option<String>,
    end_date: Option<String>,
    limit: Option<i64>,
)
    ensures
        sessions_params(project_id, start_date, end_date).len() == filters_present(
            project_id is Some,
            start_date is Some,
            end_date is Some,
        ),
        occurrences(
            sessions_sql(project_id is Some, start_date is Some, end_date is Some, limit),
            '?',
        ) == sessions_params(project_id, start_date, end_date).len(),
        project_id matches Some(p) ==> sessions_params(project_id, start_date, end_date)[0]
            == decimal(p as int),
        start_date matches Some(s) ==> sessions_params(
            project_id,
            start_date,
            end_date,
        )[filters_present(project_id is Some, false, false)] == s@,
        end_date matches Some(e) ==> sessions_params(
            project_id,
            start_date,
            end_date,
        )[filters_present(project_id is Some, start_date is Some, false)] == e@,
{
    lemma_sessions_sql_markers(
        project_id is Some,
        start_date is Some,
        end_date is Some,
        limit,
        '?',
    );
}

/// The clause of a filter stands in the text of the sessions query exactly
/// when the filter is present.
pub proof fn lemma_clause_only_when_present(
    project: bool,
    start: bool,
    end: bool,
    limit: Option<i64>,
)
    ensures
        contains_text(sessions_sql(project, start, end, limit), " AND project_id = ?"@)
            <==> project,
        contains_text(sessions_sql(project, start, end, limit), " AND start_time >= ?"@)
            <==> start,
        contains_text(sessions_sql(project, start, end, limit), " AND start_time <= ?"@)
            <==> end,
{
    let sql = sessions_sql(project, start, end, limit);
    let select = "SELECT * FROM sessions WHERE 1=1"@;
    let by_project = optional_clause(project, " AND project_id = ?"@);
    let from_start = optional_clause(start, " AND start_time >= ?"@);
    lemma_project_clause_markers('j');
    lemma_start_clause_markers('>');
    lemma_end_clause_markers('<');
    lemma_sessions_sql_markers(project, start, end, limit, 'j');
    lemma_sessions_sql_markers(project, start, end, limit, '>');
    lemma_sessions_sql_markers(project, start, end, limit, '<');
    if project {
        let at = select.len() as int;
        assert(sql.subrange(at, at + 19) =~= " AND project_id = ?"@);
        assert(occurs_at(sql, " AND project_id = ?"@, at));
    } else {
        lemma_part_needs_its_characters(sql, " AND project_id = ?"@, 'j', 8);
    }
    if start {
        let at = (select.len() + by_project.len()) as int;
        assert(sql.subrange(at, at + 20) =~= " AND start_time >= ?"@);
        assert(occurs_at(sql, " AND start_time >= ?"@, at));
    } else {
        lemma_part_needs_its_characters(sql, " AND start_time >= ?"@, '>', 16);
    }
    if end {
        let at = (select.len() + by_project.len() + from_start.len()) as int;
        assert(sql.subrange(at, at + 20) =~= " AND start_time <= ?"@);
        assert(occurs_at(sql, " AND start_time <= ?"@, at));
    } else {
        lemma_part_needs_its_characters(sql, " AND start_time <= ?"@, '<', 16);
    }
}

pub const CREATE_PROJECT_SQL: &'static str =
    "INSERT INTO projects (name, color, icon, tags) VALUES (?, ?, ?, ?)";

pub const ALL_PROJECTS_SQL: &'static str = "SELECT * FROM projects ORDER BY created_at DESC";

pub const OPEN_PROJECTS_SQL: &'static str =
    "SELECT * FROM projects WHERE archived = 0 ORDER BY created_at DESC";

pub const UPDATE_PROJECT_SQL: &'static str =
    "UPDATE projects SET name = ?, color = ?, icon = ?, tags = ? WHERE id = ?";

pub const ARCHIVE_PROJECT_SQL: &'static str = "UPDATE projects SET archived = ? WHERE id = ?";

pub const DELETE_PROJECT_SQL: &'static str = "DELETE FROM projects WHERE id = ?";

pub const START_SESSION_SQL: &'static str =
    "INSERT INTO sessions (project_id, start_time, is_pomodoro) VALUES (?, ?, ?)";

pub const STOP_SESSION_SQL: &'static str =
    "UPDATE sessions SET end_time = ?, duration_seconds = ?, notes = ? WHERE id = ?";

pub const ACTIVE_SESSION_SQL: &'static str =
    "SELECT * FROM sessions WHERE end_time IS NULL ORDER BY start_time DESC LIMIT 1";

pub const UPDATE_SESSION_SQL: &'static str =
    "UPDATE sessions SET duration_seconds = ?, notes = ? WHERE id = ?";

pub const DELETE_SESSION_SQL: &'static str = "DELETE FROM sessions WHERE id = ?";

pub const POMODORO_SETTINGS_SQL: &'static str = "SELECT * FROM pomodoro_settings WHERE id = 1";

pub const UPDATE_POMODORO_SETTINGS_SQL: &'static str =
    "UPDATE pomodoro_settings SET work_duration = ?, short_break = ?, long_break = ?, cycles_before_long_break = ?, sound_enabled = ?, notifications_enabled = ? WHERE id = 1";

pub const CREATE_GOAL_SQL: &'static str =
    "INSERT INTO goals (project_id, daily_target_seconds) VALUES (?, ?)";

pub const CREATE_GLOBAL_GOAL_SQL: &'static str =
    "INSERT INTO goals (project_id, daily_target_seconds) VALUES (NULL, ?)";

pub const GOALS_SQL: &'static str = "SELECT * FROM goals ORDER BY created_at DESC";

pub const UPDATE_STREAK_SQL: &'static str =
    "INSERT OR REPLACE INTO streaks (date, total_seconds, goal_met) VALUES (?, ?, ?)";

pub const CURRENT_STREAK_SQL: &'static str =
    "SELECT * FROM streaks WHERE goal_met = 1 ORDER BY date DESC";

/// The contents of an optional text, empty where there is none.
pub open spec fn text_or_empty(value: Option<String>) -> Seq<char> {
    match value {
        Some(s) => s@,
        None => Seq::empty(),
    }
}

fn or_empty(value: Option<String>) -> (r: String)
    ensures
        r@ == text_or_empty(value),
{
    match value {
        Some(s) => s,
        None => String::new(),
    }
}

fn statement(sql: &str, params: Vec<String>) -> (r: Statement)
    ensures
        r.sql@ == sql@,
        r.params == params,
{
    Statement { sql: String::from_str(sql), params }
}

/// Creates a project; absent tags are stored as the empty text.
pub fn create_project(name: String, color: String, icon: String, tags: Option<String>) -> (r:
    Statement)
    ensures
        r.sql@ == CREATE_PROJECT_SQL@,
        texts(r.params@) == seq![name@, color@, icon@, text_or_empty(tags)],
{
    let ghost expected = seq![name@, color@, icon@, text_or_empty(tags)];
    let mut params: Vec<String> = Vec::new();
    params.push(name);
    params.push(color);
    params.push(icon);
    params.push(or_empty(tags));
    assert(texts(params@) =~= expected);
    statement(CREATE_PROJECT_SQL, params)
}

/// Lists the projects, newest first, with or without the archived ones.
pub fn get_projects(include_archived: bool) -> (r: Statement)
    ensures
        r.sql@ == (if include_archived {
            ALL_PROJECTS_SQL@
        } else {
            OPEN_PROJECTS_SQL@
        }),
        r.params@.len() == 0,
{
    if include_archived {
        statement(ALL_PROJECTS_SQL, Vec::new())
    } else {
        statement(OPEN_PROJECTS_SQL, Vec::new())
    }
}

/// Replaces the name, colour, icon and tags of the project `id`.
pub fn update_project(
    id: i64,
    name: String,
    color: String,
    icon: String,
    tags: Option<String>,
) -> (r: Statement)
    ensures
        r.sql@ == UPDATE_PROJECT_SQL@,
        texts(r.params@) == seq![name@, color@, icon@, text_or_empty(tags), decimal(id as int)],
{
    let ghost expected = seq![name@, color@, icon@, text_or_empty(tags), decimal(id as int)];
    let mut params: Vec<String> = Vec::new();
    params.push(name);
    params.push(color);
    params.push(icon);
    params.push(or_empty(tags));
    params.push(decimal_string(id));
    assert(texts(params@) =~= expected);
    statement(UPDATE_PROJECT_SQL, params)
}

/// Sets or clears the archived flag of the project `id`.
pub fn archive_project(id: i64, archived: bool) -> (r: Statement)
    ensures
        r.sql@ == ARCHIVE_PROJECT_SQL@,
        texts(r.params@) == seq![flag_text(archived), decimal(id as int)],
{
    let mut params: Vec<String> = Vec::new();
    params.push(flag_string(archived));
    params.push(decimal_string(id));
    assert(texts(params@) =~= seq![flag_text(archived), decimal(id as int)]);
    statement(ARCHIVE_PROJECT_SQL, params)
}

/// Deletes the project `id`; the store removes its sessions and goals with it.
pub fn delete_project(id: i64) -> (r: Statement)
    ensures
        r.sql@ == DELETE_PROJECT_SQL@,
        texts(r.params@) == seq![decimal(id as int)],
{
    let mut params: Vec<String> = Vec::new();
    params.push(decimal_string(id));
    assert(texts(params@) =~= seq![decimal(id as int)]);
    statement(DELETE_PROJECT_SQL, params)
}

/// Starts a session of `project_id` at the time `now`, which the caller has
/// read from the clock.
pub fn start_session(project_id: i64, is_pomodoro: bool, now: String) -> (r: Statement)
    ensures
        r.sql@ == START_SESSION_SQL@,
        texts(r.params@) == seq![decimal(project_id as int), now@, flag_text(is_pomodoro)],
{
    let ghost expected = seq![decimal(project_id as int), now@, flag_text(is_pomodoro)];
    let mut params: Vec<String> = Vec::new();
    params.push(decimal_string(project_id));
    params.push(now);
    params.push(flag_string(is_pomodoro));
    assert(texts(params@) =~= expected);
    statement(START_SESSION_SQL, params)
}

/// Ends the session `session_id` at the time `now`, which the caller has read
/// from the clock, recording its duration and notes; absent notes are stored
/// as the empty text.
pub fn stop_session(
    session_id: i64,
    duration_seconds: i64,
    notes: Option<String>,
    now: String,
) -> (r: Statement)
    ensures
        r.sql@ == STOP_SESSION_SQL@,
        texts(r.params@) == seq![
            now@,
            decimal(duration_seconds as int),
            text_or_empty(notes),
            decimal(session_id as int),
        ],
{
    let ghost expected = seq![
        now@,
        decimal(duration_seconds as int),
        text_or_empty(notes),
        decimal(session_id as int),
    ];
    let mut params: Vec<String> = Vec::new();
    params.push(now);
    params.push(decimal_string(duration_seconds));
    params.push(or_empty(notes));
    params.push(decimal_string(session_id));
    assert(texts(params@) =~= expected);
    statement(STOP_SESSION_SQL, params)
}

/// Asks for the session that has not ended, the most recent one if several.
pub fn get_active_session() -> (r: Statement)
    ensures
        r.sql@ == ACTIVE_SESSION_SQL@,
        r.params@.len() == 0,
{
    statement(ACTIVE_SESSION_SQL, Vec::new())
}

/// The active session among the rows that [`get_active_session`] brought:
/// the first row, or none where there is no row.
pub fn active_session(rows: Vec<Session>) -> (r: Option<Session>)
    ensures
        rows@.len() == 0 ==> r is None,
        rows@.len() > 0 ==> r == Some(rows@[0]),
{
    let mut rows = rows;
    if rows.len() == 0 {
        None
    } else {
        Some(rows.swap_remove(0))
    }
}

/// Corrects the duration and notes of the session `session_id`.
pub fn update_session(session_id: i64, duration_seconds: i64, notes: Option<String>) -> (r:
    Statement)
    ensures
        r.sql@ == UPDATE_SESSION_SQL@,
        texts(r.params@) == seq![
            decimal(duration_seconds as int),
            text_or_empty(notes),
            decimal(session_id as int),
        ],
{
    let ghost expected = seq![
        decimal(duration_seconds as int),
        text_or_empty(notes),
        decimal(session_id as int),
    ];
    let mut params: Vec<String> = Vec::new();
    params.push(decimal_string(duration_seconds));
    params.push(or_empty(notes));
    params.push(decimal_string(session_id));
    assert(texts(params@) =~= expected);
    statement(UPDATE_SESSION_SQL, params)
}

/// Deletes the session `session_id`.
pub fn delete_session(session_id: i64) -> (r: Statement)
    ensures
        r.sql@ == DELETE_SESSION_SQL@,
        texts(r.params@) == seq![decimal(session_id as int)],
{
    let mut params: Vec<String> = Vec::new();
    params.push(decimal_string(session_id));
    assert(texts(params@) =~= seq![decimal(session_id as int)]);
    statement(DELETE_SESSION_SQL, params)
}

/// Text of the query for the sessions that start within a range: the
/// sessions query with both date filters and nothing else.
pub open spec fn range_sql() -> Seq<char> {
    sessions_sql(false, true, true, None)
}

/// Asks for the sessions that start between `start_date` and `end_date`, both
/// included: the rows that [`crate::stats::daily_stats`] groups by calendar
/// day.
pub fn get_daily_stats(start_date: String, end_date: String) -> (r: Statement)
    ensures
        r.sql@ == range_sql(),
        texts(r.params@) == seq![start_date@, end_date@],
{
    let ghost expected = seq![start_date@, end_date@];
    let r = sessions_statement(None, Some(start_date), Some(end_date), None);
    assert(texts(r.params@) =~= expected);
    r
}

/// Asks for the sessions that start between `start_date` and `end_date`, both
/// included: the rows that [`crate::stats::project_stats`] groups by project,
/// together with the projects that [`get_projects`] lists.
pub fn get_project_stats(start_date: String, end_date: String) -> (r: Statement)
    ensures
        r.sql@ == range_sql(),
        texts(r.params@) == seq![start_date@, end_date@],
{
    let ghost expected = seq![start_date@, end_date@];
    let r = sessions_statement(None, Some(start_date), Some(end_date), None);
    assert(texts(r.params@) =~= expected);
    r
}

/// Asks for the one row of timer settings.
pub fn get_pomodoro_settings() -> (r: Statement)
    ensures
        r.sql@ == POMODORO_SETTINGS_SQL@,
        r.params@.len() == 0,
{
    statement(POMODORO_SETTINGS_SQL, Vec::new())
}

/// The settings among the rows that [`get_pomodoro_settings`] brought: the
/// first row, or `NotFound` where the row is missing.
pub fn pomodoro_settings(rows: Vec<PomodoroSettings>) -> (r: Result<
    PomodoroSettings,
    CommandError,
>)
    ensures
        rows@.len() == 0 ==> (r matches Err(e) && e is NotFound),
        rows@.len() > 0 ==> r == Ok::<PomodoroSettings, CommandError>(rows@[0]),
{
    let mut rows = rows;
    if rows.len() == 0 {
        Err(CommandError::NotFound)
    } else {
        Ok(rows.swap_remove(0))
    }
}

/// Replaces the timer settings.
pub fn update_pomodoro_settings(
    work_duration: i64,
    short_break: i64,
    long_break: i64,
    cycles_before_long_break: i64,
    sound_enabled: bool,
    notifications_enabled: bool,
) -> (r: Statement)
    ensures
        r.sql@ == UPDATE_POMODORO_SETTINGS_SQL@,
        texts(r.params@) == seq![
            decimal(work_duration as int),
            decimal(short_break as int),
            decimal(long_break as int),
            decimal(cycles_before_long_break as int),
            flag_text(sound_enabled),
            flag_text(notifications_enabled),
        ],
{
    let mut params: Vec<String> = Vec::new();
    params.push(decimal_string(work_duration));
    params.push(decimal_string(short_break));
    params.push(decimal_string(long_break));
    params.push(decimal_string(cycles_before_long_break));
    params.push(flag_string(sound_enabled));
    params.push(flag_string(notifications_enabled));
    assert(texts(params@) =~= seq![
        decimal(work_duration as int),
        decimal(short_break as int),
        decimal(long_break as int),
        decimal(cycles_before_long_break as int),
        flag_text(sound_enabled),
        flag_text(notifications_enabled),
    ]);
    statement(UPDATE_POMODORO_SETTINGS_SQL, params)
}

/// Creates a goal. With a `project_id` the goal belongs to that project and
/// the identity is bound as the first parameter; without one the goal is
/// global, and the statement stores `NULL` as its project.
pub fn create_goal(project_id: Option<i64>, daily_target_seconds: i64) -> (r: Statement)
    ensures
        r.sql@ == (if project_id is Some {
            CREATE_GOAL_SQL@
        } else {
            CREATE_GLOBAL_GOAL_SQL@
        }),
        texts(r.params@) == optional_param(optional_decimal(project_id)) + seq![
            decimal(daily_target_seconds as int),
        ],
{
    let ghost expected = optional_param(optional_decimal(project_id)) + seq![
        decimal(daily_target_seconds as int),
    ];
    let mut params: Vec<String> = Vec::new();
    match project_id {
        Some(id) => {
            params.push(decimal_string(id));
            params.push(decimal_string(daily_target_seconds));
            assert(texts(params@) =~= expected);
            statement(CREATE_GOAL_SQL, params)
        },
        None => {
            params.push(decimal_string(daily_target_seconds));
            assert(texts(params@) =~= expected);
            statement(CREATE_GLOBAL_GOAL_SQL, params)
        },
    }
}

/// Lists the goals, newest first.
pub fn get_goals() -> (r: Statement)
    ensures
        r.sql@ == GOALS_SQL@,
        r.params@.len() == 0,
{
    statement(GOALS_SQL, Vec::new())
}

/// Records the totals of one day, replacing the entry of that date if the
/// store already has one.
pub fn update_streak(date: String, total_seconds: i64, goal_met: bool) -> (r: Statement)
    ensures
        r.sql@ == UPDATE_STREAK_SQL@,
        texts(r.params@) == seq![date@, decimal(total_seconds as int), flag_text(goal_met)],
{
    let ghost expected = seq![date@, decimal(total_seconds as int), flag_text(goal_met)];
    let mut params: Vec<String> = Vec::new();
    params.push(date);
    params.push(decimal_string(total_seconds));
    params.push(flag_string(goal_met));
    assert(texts(params@) =~= expected);
    statement(UPDATE_STREAK_SQL, params)
}

/// Asks for the goal-met days, most recent first: the rows that
/// [`crate::streak::current_streak`] counts.
pub fn get_current_streak() -> (r: Statement)
    ensures
        r.sql@ == CURRENT_STREAK_SQL@,
        r.params@.len() == 0,
{
    statement(CURRENT_STREAK_SQL, Vec::new())
}

} // verus!
