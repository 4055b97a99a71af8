//! Grouped statistics over sessions: totals per calendar day and per project
//! of the sessions that start within a range of timestamps.
//!
//! Timestamps are compared as texts, character by character, which orders
//! them by time as long as all of them follow one zero-padded format.

use vstd::prelude::*;
use vstd::string::{StrSliceExecFns, StringExecFns};
use crate::error::CommandError;
use crate::models::{DailyStats, Project, ProjectStats, Session};
use crate::text::{
    lemma_text_le_is_not_after, lemma_text_lt_transitive, lemma_text_order_total, text_before,
    text_le, text_lt,
};

verus! {

/// The calendar day of a timestamp: its first ten characters (`YYYY-MM-DD`).
/// A shorter text is taken whole.
pub open spec fn day_text(timestamp: Seq<char>) -> Seq<char> {
    if timestamp.len() >= 10 {
        timestamp.take(10)
    } else {
        timestamp
    }
}

/// The calendar day of a timestamp.
pub fn day_of(timestamp: &str) -> (r: String)
    ensures
        r@ == day_text(timestamp@),
{
    let n = timestamp.unicode_len();
    if n >= 10 {
        String::from_str(timestamp.substring_char(0, 10))
    } else {
        String::from_str(timestamp)
    }
}

/// The session starts within the range, both ends included.
pub open spec fn in_range(s: Session, start: Seq<char>, end: Seq<char>) -> bool {
    text_le(start, s.start_time@) && text_le(s.start_time@, end)
}

/// Whether the session starts within the range, both ends included.
pub fn starts_within(s: &Session, start: &str, end: &str) -> (r: bool)
    ensures
        r == in_range(*s, start@, end@),
{
    proof {
        lemma_text_le_is_not_after(start@, s.start_time@);
        lemma_text_le_is_not_after(s.start_time@, end@);
    }
    !text_before(s.start_time.as_str(), start) && !text_before(end, s.start_time.as_str())
}

/// What a group of sessions has in common.
pub enum Group {
    /// Every session.
    All,
    /// The sessions that start on one calendar day.
    Day(Seq<char>),
    /// The sessions of one project.
    Project(int),
}

/// The key of a group, as the code holds it.
pub enum GroupKey {
    All,
    Day(String),
    Project(i64),
}

impl View for GroupKey {
    type V = Group;

    open spec fn view(&self) -> Group {
        match self {
            GroupKey::All => Group::All,
            GroupKey::Day(d) => Group::Day(d@),
            GroupKey::Project(id) => Group::Project(*id as int),
        }
    }
}

/// The session starts within the range and belongs to the group.
pub open spec fn in_group(s: Session, start: Seq<char>, end: Seq<char>, g: Group) -> bool {
    in_range(s, start, end) && match g {
        Group::All => true,
        Group::Day(d) => day_text(s.start_time@) == d,
        Group::Project(id) => s.project_id == id,
    }
}

/// Sum of the durations of the sessions of a group within the range.
pub open spec fn group_seconds(
    sessions: Seq<Session>,
    start: Seq<char>,
    end: Seq<char>,
    g: Group,
) -> int
    decreases sessions.len(),
{
    if sessions.len() == 0 {
        0
    } else {
        group_seconds(sessions.drop_last(), start, end, g) + if in_group(
            sessions.last(),
            start,
            end,
            g,
        ) {
            sessions.last().duration_seconds as int
        } else {
            0
        }
    }
}

/// Number of the sessions of a group within the range.
pub open spec fn group_sessions(
    sessions: Seq<Session>,
    start: Seq<char>,
    end: Seq<char>,
    g: Group,
) -> int
    decreases sessions.len(),
{
    if sessions.len() == 0 {
        0
    } else {
        group_sessions(sessions.drop_last(), start, end, g) + if in_group(
            sessions.last(),
            start,
            end,
            g,
        ) {
            1int
        } else {
            0int
        }
    }
}

/// Whether the session starts within the range and belongs to the group.
pub fn belongs(s: &Session, start: &str, end: &str, key: &GroupKey) -> (r: bool)
    ensures
        r == in_group(*s, start@, end@, key@),
{
    if !starts_within(s, start, end) {
        return false;
    }
    match key {
        GroupKey::All => true,
        GroupKey::Day(d) => {
            let day = day_of(s.start_time.as_str());
            day == *d
        },
        GroupKey::Project(id) => s.project_id == *id,
    }
}

/// Adds up the durations and counts the sessions of one group within the
/// range. The sum is held in 128 bits, which no list of sessions can exceed.
pub fn tally(sessions: &Vec<Session>, start: &str, end: &str, key: &GroupKey) -> (r: (i128, u64))
    ensures
        r.0 == group_seconds(sessions@, start@, end@, key@),
        r.1 == group_sessions(sessions@, start@, end@, key@),
{
    let mut total: i128 = 0;
    let mut count: u64 = 0;
    let mut i: usize = 0;
    proof {
        assert(sessions@.take(0) =~= Seq::<Session>::empty());
    }
    while i < sessions.len()
        invariant
            0 <= i <= sessions.len(),
            total == group_seconds(sessions@.take(i as int), start@, end@, key@),
            count == group_sessions(sessions@.take(i as int), start@, end@, key@),
            count <= i,
            -(i * 0x8000_0000_0000_0000) <= total <= i * 0x8000_0000_0000_0000,
        decreases sessions.len() - i,
    {
        proof {
            assert(sessions@.take(i + 1).drop_last() =~= sessions@.take(i as int));
            assert(sessions@.take(i + 1).last() == sessions@[i as int]);
        }
        if belongs(&sessions[i], start, end, key) {
            total = total + sessions[i].duration_seconds as i128;
            count = count + 1;
        }
        i = i + 1;
    }
    proof {
        assert(sessions@.take(i as int) =~= sessions@);
    }
    (total, count)
}

/// The count of a group is at least zero and at most the number of sessions.
pub proof fn lemma_group_sessions_bounded(
    sessions: Seq<Session>,
    start: Seq<char>,
    end: Seq<char>,
    g: Group,
)
    ensures
        0 <= group_sessions(sessions, start, end, g) <= sessions.len(),
    decreases sessions.len(),
{
    if sessions.len() > 0 {
        lemma_group_sessions_bounded(sessions.drop_last(), start, end, g);
    }
}

/// A group that holds one of the sessions has a count of at least one.
pub proof fn lemma_member_counted(
    sessions: Seq<Session>,
    start: Seq<char>,
    end: Seq<char>,
    g: Group,
    k: int,
)
    requires
        0 <= k < sessions.len(),
        in_group(sessions[k], start, end, g),
    ensures
        group_sessions(sessions, start, end, g) >= 1,
    decreases sessions.len(),
{
    lemma_group_sessions_bounded(sessions.drop_last(), start, end, g);
    if k < sessions.len() - 1 {
        lemma_member_counted(sessions.drop_last(), start, end, g, k);
    }
}

/// A group that holds none of the sessions has no seconds and no count.
pub proof fn lemma_empty_group(sessions: Seq<Session>, start: Seq<char>, end: Seq<char>, g: Group)
    requires
        forall|k: int| 0 <= k < sessions.len() ==> !in_group(#[trigger] sessions[k], start, end, g),
    ensures
        group_seconds(sessions, start, end, g) == 0,
        group_sessions(sessions, start, end, g) == 0,
    decreases sessions.len(),
{
    if sessions.len() > 0 {
        let earlier = sessions.drop_last();
        assert forall|k: int| 0 <= k < earlier.len() implies !in_group(
            #[trigger] earlier[k],
            start,
            end,
            g,
        ) by {
            assert(earlier[k] == sessions[k]);
        }
        lemma_empty_group(earlier, start, end, g);
        assert(!in_group(sessions[sessions.len() - 1], start, end, g));
    }
}

/// `day` is one of the listed days.
pub open spec fn day_listed(days: Seq<String>, day: Seq<char>) -> bool {
    exists|i: int| 0 <= i < days.len() && (#[trigger] days[i])@ == day
}

/// One of the first `n` sessions starts within the range on `day`.
pub open spec fn day_occurs(
    sessions: Seq<Session>,
    start: Seq<char>,
    end: Seq<char>,
    day: Seq<char>,
    n: int,
) -> bool {
    exists|k: int|
        0 <= k < n && k < sessions.len() && in_group(
            #[trigger] sessions[k],
            start,
            end,
            Group::Day(day),
        )
}

/// The days are listed in strictly ascending order.
pub open spec fn days_ascend(days: Seq<String>) -> bool {
    forall|i: int, j: int|
        #![trigger days[i], days[j]]
        0 <= i < j < days.len() ==> text_lt(days[i]@, days[j]@)
}

/// The calendar days on which the sessions within the range start, each once,
/// in ascending order.
pub fn collect_days(sessions: &Vec<Session>, start: &str, end: &str) -> (days: Vec<String>)
    ensures
        days_ascend(days@),
        forall|i: int|
            0 <= i < days@.len() ==> day_occurs(
                sessions@,
                start@,
                end@,
                (#[trigger] days@[i])@,
                sessions@.len() as int,
            ),
        forall|k: int|
            0 <= k < sessions@.len() && in_range(#[trigger] sessions@[k], start@, end@)
                ==> day_listed(days@, day_text(sessions@[k].start_time@)),
{
    let mut days: Vec<String> = Vec::new();
    let mut i: usize = 0;
    while i < sessions.len()
        invariant
            0 <= i <= sessions.len(),
            days_ascend(days@),
            forall|d: int|
                0 <= d < days@.len() ==> day_occurs(
                    sessions@,
                    start@,
                    end@,
                    (#[trigger] days@[d])@,
                    i as int,
                ),
            forall|k: int|
                0 <= k < i && in_range(#[trigger] sessions@[k], start@, end@) ==> day_listed(
                    days@,
                    day_text(sessions@[k].start_time@),
                ),
        decreases sessions.len() - i,
    {
        let ghost before = days@;
        if starts_within(&sessions[i], start, end) {
            let day = day_of(sessions[i].start_time.as_str());
            let mut p: usize = 0;
            while p < days.len() && text_before(days[p].as_str(), day.as_str())
                invariant
                    0 <= p <= days.len(),
                    forall|j: int| 0 <= j < p ==> text_lt((#[trigger] days@[j])@, day@),
                decreases days.len() - p,
            {
                p = p + 1;
            }
            let found = p < days.len() && days[p] == day;
            if found {
                assert(day_listed(days@, day@)) by {
                    assert(days@[p as int]@ == day@);
                }
            } else {
                let ghost day_view = day@;
                days.insert(p, day);
                proof {
                    let after = days@;
                    assert(after.len() == before.len() + 1);
                    assert(after[p as int]@ == day_view);
                    assert forall|j: int| 0 <= j < p implies #[trigger] after[j] == before[j] by {}
                    assert forall|j: int| p < j < after.len() implies #[trigger] after[j]
                        == before[j - 1] by {}
                    if p < before.len() {
                        lemma_text_order_total(day_view, before[p as int]@);
                    }
                    assert forall|a: int, b: int|
                        #![trigger after[a], after[b]]
                        0 <= a < b < after.len() implies text_lt(after[a]@, after[b]@) by {
                        if b < p {
                            assert(text_lt(before[a]@, before[b]@));
                        } else if b == p {
                            assert(text_lt(before[a]@, day_view));
                        } else if a < p {
                            assert(text_lt(before[a]@, before[b - 1]@));
                        } else if a == p {
                            assert(text_lt(day_view, before[p as int]@));
                            if b - 1 > p {
                                assert(text_lt(before[p as int]@, before[b - 1]@));
                                lemma_text_lt_transitive(
                                    day_view,
                                    before[p as int]@,
                                    before[b - 1]@,
                                );
                            }
                        } else {
                            assert(text_lt(before[a - 1]@, before[b - 1]@));
                        }
                    }
                    assert forall|k: int|
                        0 <= k < i && in_range(
                            #[trigger] sessions@[k],
                            start@,
                            end@,
                        ) implies day_listed(after, day_text(sessions@[k].start_time@)) by {
                        let wanted = day_text(sessions@[k].start_time@);
                        assert(day_listed(before, wanted));
                        let w = choose|w: int| 0 <= w < before.len() && (#[trigger] before[w])@
                            == wanted;
                        if w < p {
                            assert(after[w]@ == wanted);
                        } else {
                            assert(after[w + 1]@ == wanted);
                        }
                    }
                    assert(day_listed(after, day_view)) by {
                        assert(after[p as int]@ == day_view);
                    }
                    assert forall|d: int| 0 <= d < after.len() implies day_occurs(
                        sessions@,
                        start@,
                        end@,
                        (#[trigger] after[d])@,
                        i + 1,
                    ) by {
                        if d == p {
                            assert(in_group(sessions@[i as int], start@, end@, Group::Day(day_view)));
                        } else {
                            let e = if d < p {
                                d
                            } else {
                                d - 1
                            };
                            assert(after[d] == before[e]);
                            assert(day_occurs(sessions@, start@, end@, before[e]@, i as int));
                        }
                    }
                }
            }
        }
        proof {
            assert forall|d: int| 0 <= d < days@.len() implies day_occurs(
                sessions@,
                start@,
                end@,
                (#[trigger] days@[d])@,
                i + 1,
            ) by {
                if days@ == before {
                    assert(day_occurs(sessions@, start@, end@, before[d]@, i as int));
                }
            }
        }
        i = i + 1;
    }
    days
}

/// Totals that a statistics row can hold.
pub open spec fn fits(seconds: int, count: int) -> bool {
    i64::MIN <= seconds <= i64::MAX && count <= i64::MAX
}

/// The totals of every calendar day can be held in a row.
pub open spec fn daily_totals_fit(sessions: Seq<Session>, start: Seq<char>, end: Seq<char>) -> bool {
    forall|day: Seq<char>|
        fits(
            #[trigger] group_seconds(sessions, start, end, Group::Day(day)),
            group_sessions(sessions, start, end, Group::Day(day)),
        )
}

/// `rows` is the daily summary of the sessions within the range: one row for
/// each calendar day on which such a session starts and for no other day, by
/// ascending date, each with the summed durations and the number of sessions
/// of its day.
pub open spec fn is_daily_summary(
    rows: Seq<DailyStats>,
    sessions: Seq<Session>,
    start: Seq<char>,
    end: Seq<char>,
) -> bool {
    &&& forall|i: int, j: int|
        #![trigger rows[i], rows[j]]
        0 <= i < j < rows.len() ==> text_lt(rows[i].date@, rows[j].date@)
    &&& forall|i: int|
        0 <= i < rows.len() ==> {
            &&& (#[trigger] rows[i]).sessions_count > 0
            &&& rows[i].sessions_count == group_sessions(
                sessions,
                start,
                end,
                Group::Day(rows[i].date@),
            )
            &&& rows[i].total_seconds == group_seconds(
                sessions,
                start,
                end,
                Group::Day(rows[i].date@),
            )
        }
    &&& forall|k: int|
        0 <= k < sessions.len() && in_range(#[trigger] sessions[k], start, end) ==> exists|i: int|
            0 <= i < rows.len() && (#[trigger] rows[i]).date@ == day_text(sessions[k].start_time@)
}

/// The error of a sum or count that a row cannot hold.
pub open spec fn is_overflow(e: CommandError) -> bool {
    e matches CommandError::StorageFailure(m) && m@ == "integer overflow"@
}

fn overflow() -> (e: CommandError)
    ensures
        is_overflow(e),
{
    CommandError::StorageFailure(String::from_str("integer overflow"))
}

/// Daily aggregation: groups the sessions that start between `start_date` and
/// `end_date`, both included, by calendar day.
///
/// Fails with the store's `integer overflow` exactly when the totals of some
/// day cannot be held in a row.
pub fn daily_stats(sessions: &Vec<Session>, start_date: &str, end_date: &str) -> (r: Result<
    Vec<DailyStats>,
    CommandError,
>)
    ensures
        daily_totals_fit(sessions@, start_date@, end_date@) <==> r is Ok,
        r matches Ok(rows) ==> is_daily_summary(rows@, sessions@, start_date@, end_date@),
        r matches Err(e) ==> is_overflow(e),
{
    let days = collect_days(sessions, start_date, end_date);
    let mut rows: Vec<DailyStats> = Vec::new();
    let mut i: usize = 0;
    while i < days.len()
        invariant
            0 <= i <= days.len(),
            rows@.len() == i,
            days_ascend(days@),
            forall|d: int|
                0 <= d < days@.len() ==> day_occurs(
                    sessions@,
                    start_date@,
                    end_date@,
                    (#[trigger] days@[d])@,
                    sessions@.len() as int,
                ),
            forall|j: int|
                0 <= j < i ==> {
                    &&& (#[trigger] rows@[j]).date@ == days@[j]@
                    &&& rows@[j].sessions_count > 0
                    &&& rows@[j].sessions_count == group_sessions(
                        sessions@,
                        start_date@,
                        end_date@,
                        Group::Day(days@[j]@),
                    )
                    &&& rows@[j].total_seconds == group_seconds(
                        sessions@,
                        start_date@,
                        end_date@,
                        Group::Day(days@[j]@),
                    )
                },
        decreases days.len() - i,
    {
        let key = GroupKey::Day(days[i].clone());
        assert(key@ == Group::Day(days@[i as int]@));
        let (total, count) = tally(sessions, start_date, end_date, &key);
        proof {
            let day = days@[i as int]@;
            assert(day_occurs(sessions@, start_date@, end_date@, day, sessions@.len() as int));
            let k = choose|k: int|
                0 <= k < sessions@.len() && in_group(
                    #[trigger] sessions@[k],
                    start_date@,
                    end_date@,
                    Group::Day(day),
                );
            lemma_member_counted(sessions@, start_date@, end_date@, Group::Day(day), k);
        }
        if total < i64::MIN as i128 || total > i64::MAX as i128 || count > i64::MAX as u64 {
            assert(!fits(
                group_seconds(sessions@, start_date@, end_date@, Group::Day(days@[i as int]@)),
                group_sessions(sessions@, start_date@, end_date@, Group::Day(days@[i as int]@)),
            ));
            return Err(overflow());
        }
        let row = DailyStats {
            date: days[i].clone(),
            total_seconds: total as i64,
            sessions_count: count as i64,
        };
        rows.push(row);
        i = i + 1;
    }
    proof {
        assert forall|a: int, b: int|
            #![trigger rows@[a], rows@[b]]
            0 <= a < b < rows@.len() implies text_lt(rows@[a].date@, rows@[b].date@) by {
            assert(text_lt(days@[a]@, days@[b]@));
        }
        assert forall|k: int|
            0 <= k < sessions@.len() && in_range(
                #[trigger] sessions@[k],
                start_date@,
                end_date@,
            ) implies exists|j: int|
            0 <= j < rows@.len() && (#[trigger] rows@[j]).date@ == day_text(
                sessions@[k].start_time@,
            ) by {
            let wanted = day_text(sessions@[k].start_time@);
            assert(day_listed(days@, wanted));
            let w = choose|w: int| 0 <= w < days@.len() && (#[trigger] days@[w])@ == wanted;
            assert(rows@[w].date@ == wanted);
        }
        assert forall|day: Seq<char>|
            fits(
                #[trigger] group_seconds(sessions@, start_date@, end_date@, Group::Day(day)),
                group_sessions(sessions@, start_date@, end_date@, Group::Day(day)),
            ) by {
            if day_listed(days@, day) {
                let w = choose|w: int| 0 <= w < days@.len() && (#[trigger] days@[w])@ == day;
                assert(rows@[w].date@ == day);
            } else {
                assert forall|k: int| 0 <= k < sessions@.len() implies !in_group(
                    #[trigger] sessions@[k],
                    start_date@,
                    end_date@,
                    Group::Day(day),
                ) by {
                    if in_group(sessions@[k], start_date@, end_date@, Group::Day(day)) {
                        assert(day_listed(days@, day_text(sessions@[k].start_time@)));
                    }
                }
                lemma_empty_group(sessions@, start_date@, end_date@, Group::Day(day));
            }
        }
    }
    Ok(rows)
}

/// What a row of the project summary says.
pub struct ProjectRow {
    pub project_id: int,
    pub name: Seq<char>,
    pub seconds: int,
    pub sessions: int,
}

/// What each row of a list says.
pub open spec fn rows_of(rows: Seq<ProjectStats>) -> Seq<ProjectRow> {
    rows.map_values(
        |r: ProjectStats|
            ProjectRow {
                project_id: r.project_id as int,
                name: r.project_name@,
                seconds: r.total_seconds as int,
                sessions: r.sessions_count as int,
            },
    )
}

/// The row of a project: its identity, its name and the totals of its
/// sessions within the range. A project without an identity, or without such
/// a session, has none.
pub open spec fn project_row(
    sessions: Seq<Session>,
    project: Project,
    start: Seq<char>,
    end: Seq<char>,
) -> Option<ProjectRow> {
    match project.id {
        Some(id) => if group_sessions(sessions, start, end, Group::Project(id as int)) > 0 {
            Some(
                ProjectRow {
                    project_id: id as int,
                    name: project.name@,
                    seconds: group_seconds(sessions, start, end, Group::Project(id as int)),
                    sessions: group_sessions(sessions, start, end, Group::Project(id as int)),
                },
            )
        } else {
            None
        },
        None => None,
    }
}

/// The rows of the projects that have one, in the order of the projects.
pub open spec fn project_rows(
    sessions: Seq<Session>,
    projects: Seq<Project>,
    start: Seq<char>,
    end: Seq<char>,
) -> Seq<ProjectRow>
    decreases projects.len(),
{
    if projects.len() == 0 {
        Seq::empty()
    } else {
        let earlier = project_rows(sessions, projects.drop_last(), start, end);
        match project_row(sessions, projects.last(), start, end) {
            Some(row) => earlier.push(row),
            None => earlier,
        }
    }
}

/// Puts `row` into a list that is ordered by seconds, largest first: behind
/// every row with as many seconds or more, before every row with fewer.
pub open spec fn place_by_seconds(ordered: Seq<ProjectRow>, row: ProjectRow) -> Seq<ProjectRow>
    decreases ordered.len(),
{
    if ordered.len() == 0 || ordered.last().seconds >= row.seconds {
        ordered.push(row)
    } else {
        place_by_seconds(ordered.drop_last(), row).push(ordered.last())
    }
}

/// The rows ordered by seconds, largest first; rows with equal seconds keep
/// the order they had.
pub open spec fn largest_first(rows: Seq<ProjectRow>) -> Seq<ProjectRow>
    decreases rows.len(),
{
    if rows.len() == 0 {
        rows
    } else {
        place_by_seconds(largest_first(rows.drop_last()), rows.last())
    }
}

proof fn lemma_place_at(ordered: Seq<ProjectRow>, row: ProjectRow, j: int)
    requires
        0 <= j <= ordered.len(),
        forall|k: int| j <= k < ordered.len() ==> (#[trigger] ordered[k]).seconds < row.seconds,
        j > 0 ==> ordered[j - 1].seconds >= row.seconds,
    ensures
        place_by_seconds(ordered, row) == ordered.insert(j, row),
    decreases ordered.len() - j,
{
    if j == ordered.len() {
        assert(ordered.insert(j, row) =~= ordered.push(row));
    } else {
        assert(ordered[ordered.len() - 1].seconds < row.seconds);
        lemma_place_at(ordered.drop_last(), row, j);
        assert(ordered.insert(j, row) =~= ordered.drop_last().insert(j, row).push(ordered.last()));
    }
}

/// Puts `row` into its place among rows ordered by seconds, largest first.
pub fn place_row(rows: &mut Vec<ProjectStats>, row: ProjectStats)
    ensures
        rows_of(final(rows)@) == place_by_seconds(rows_of(old(rows)@), rows_of(seq![row])[0]),
{
    let ghost before = rows@;
    let ghost placed = rows_of(seq![row])[0];
    let mut j: usize = rows.len();
    while j > 0 && rows[j - 1].total_seconds < row.total_seconds
        invariant
            0 <= j <= rows.len(),
            rows@ == before,
            forall|k: int|
                j <= k < before.len() ==> (#[trigger] before[k]).total_seconds
                    < row.total_seconds,
        decreases j,
    {
        j = j - 1;
    }
    rows.insert(j, row);
    proof {
        let ordered = rows_of(before);
        assert forall|k: int| j <= k < ordered.len() implies (#[trigger] ordered[k]).seconds
            < placed.seconds by {
            assert(before[k].total_seconds < row.total_seconds);
        }
        lemma_place_at(ordered, placed, j as int);
        assert(rows_of(rows@) =~= ordered.insert(j as int, placed));
    }
}

/// The totals of every listed project can be held in a row.
pub open spec fn project_totals_fit(
    sessions: Seq<Session>,
    projects: Seq<Project>,
    start: Seq<char>,
    end: Seq<char>,
) -> bool {
    forall|i: int|
        0 <= i < projects.len() ==> ((#[trigger] projects[i]).id matches Some(id) ==> fits(
            group_seconds(sessions, start, end, Group::Project(id as int)),
            group_sessions(sessions, start, end, Group::Project(id as int)),
        ))
}

/// Project aggregation: groups the sessions that start between `start_date`
/// and `end_date`, both included, by project.
///
/// Each listed project with at least one such session has a row with its
/// identity, its name and its totals. The rows are ordered by seconds,
/// largest first; projects with equal seconds stay in the order of
/// `projects`. Sessions of a project that is not listed are left out.
///
/// Fails with the store's `integer overflow` exactly when the totals of some
/// listed project cannot be held in a row.
pub fn project_stats(
    sessions: &Vec<Session>,
    projects: &Vec<Project>,
    start_date: &str,
    end_date: &str,
) -> (r: Result<Vec<ProjectStats>, CommandError>)
    ensures
        project_totals_fit(sessions@, projects@, start_date@, end_date@) <==> r is Ok,
        r matches Ok(rows) ==> rows_of(rows@) == largest_first(
            project_rows(sessions@, projects@, start_date@, end_date@),
        ),
        r matches Err(e) ==> is_overflow(e),
{
    let mut rows: Vec<ProjectStats> = Vec::new();
    let mut i: usize = 0;
    proof {
        assert(projects@.take(0) =~= Seq::<Project>::empty());
        assert(rows_of(rows@) =~= Seq::<ProjectRow>::empty());
    }
    while i < projects.len()
        invariant
            0 <= i <= projects.len(),
            project_totals_fit(sessions@, projects@.take(i as int), start_date@, end_date@),
            rows_of(rows@) == largest_first(
                project_rows(sessions@, projects@.take(i as int), start_date@, end_date@),
            ),
        decreases projects.len() - i,
    {
        let ghost earlier = project_rows(
            sessions@,
            projects@.take(i as int),
            start_date@,
            end_date@,
        );
        proof {
            assert(projects@.take(i + 1).drop_last() =~= projects@.take(i as int));
            assert(projects@.take(i + 1).last() == projects@[i as int]);
        }
        if let Some(id) = projects[i].id {
            let key = GroupKey::Project(id);
            let (total, count) = tally(sessions, start_date, end_date, &key);
            proof {
                lemma_group_sessions_bounded(sessions@, start_date@, end_date@, key@);
                if count == 0 {
                    assert forall|k: int| 0 <= k < sessions@.len() implies !in_group(
                        #[trigger] sessions@[k],
                        start_date@,
                        end_date@,
                        key@,
                    ) by {
                        if in_group(sessions@[k], start_date@, end_date@, key@) {
                            lemma_member_counted(sessions@, start_date@, end_date@, key@, k);
                        }
                    }
                    lemma_empty_group(sessions@, start_date@, end_date@, key@);
                }
            }
            if total < i64::MIN as i128 || total > i64::MAX as i128 || count > i64::MAX as u64 {
                assert(!project_totals_fit(sessions@, projects@, start_date@, end_date@)) by {
                    assert(projects@[i as int].id == Some(id));
                }
                return Err(overflow());
            }
            if count > 0 {
                let row = ProjectStats {
                    project_id: id,
                    project_name: projects[i].name.clone(),
                    total_seconds: total as i64,
                    sessions_count: count as i64,
                };
                let ghost placed = rows_of(seq![row])[0];
                place_row(&mut rows, row);
                proof {
                    assert(project_row(sessions@, projects@[i as int], start_date@, end_date@)
                        == Some(placed));
                    assert(earlier.push(placed).drop_last() =~= earlier);
                }
            }
        }
        proof {
            assert forall|k: int| 0 <= k < i + 1 implies ((#[trigger] projects@.take(
                i + 1,
            )[k]).id matches Some(id) ==> fits(
                group_seconds(sessions@, start_date@, end_date@, Group::Project(id as int)),
                group_sessions(sessions@, start_date@, end_date@, Group::Project(id as int)),
            )) by {
                if k < i {
                    assert(projects@.take(i as int)[k] == projects@.take(i + 1)[k]);
                }
            }
        }
        i = i + 1;
    }
    proof {
        assert(projects@.take(i as int) =~= projects@);
    }
    Ok(rows)
}

} // verus!
