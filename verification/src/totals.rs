//! What the grouped statistics promise: a summary loses and invents nothing,
//! and the project summary is ordered by seconds.

use vstd::prelude::*;
use crate::models::{DailyStats, Project, Session};
use crate::stats::{
    day_text, group_seconds, group_sessions, in_group, in_range, is_daily_summary, largest_first,
    lemma_empty_group, lemma_group_sessions_bounded, lemma_member_counted, place_by_seconds,
    project_row, project_rows, Group, ProjectRow,
};
use crate::text::{lemma_text_lt_irreflexive, text_lt};

verus! {

/// Sum of the seconds of the groups, one after another.
pub open spec fn groups_seconds(
    sessions: Seq<Session>,
    start: Seq<char>,
    end: Seq<char>,
    groups: Seq<Group>,
) -> int
    decreases groups.len(),
{
    if groups.len() == 0 {
        0
    } else {
        groups_seconds(sessions, start, end, groups.drop_last()) + group_seconds(
            sessions,
            start,
            end,
            groups.last(),
        )
    }
}

/// Sum of the counts of the groups, one after another.
pub open spec fn groups_sessions(
    sessions: Seq<Session>,
    start: Seq<char>,
    end: Seq<char>,
    groups: Seq<Group>,
) -> int
    decreases groups.len(),
{
    if groups.len() == 0 {
        0
    } else {
        groups_sessions(sessions, start, end, groups.drop_last()) + group_sessions(
            sessions,
            start,
            end,
            groups.last(),
        )
    }
}

/// Number of the groups that hold the session.
pub open spec fn holders(s: Session, start: Seq<char>, end: Seq<char>, groups: Seq<Group>) -> int
    decreases groups.len(),
{
    if groups.len() == 0 {
        0
    } else {
        holders(s, start, end, groups.drop_last()) + if in_group(s, start, end, groups.last()) {
            1int
        } else {
            0int
        }
    }
}

/// The groups divide the sessions within the range among them: each such
/// session is in exactly one group.
pub open spec fn groups_partition(
    sessions: Seq<Session>,
    start: Seq<char>,
    end: Seq<char>,
    groups: Seq<Group>,
) -> bool {
    forall|k: int|
        0 <= k < sessions.len() && in_range(#[trigger] sessions[k], start, end) ==> holders(
            sessions[k],
            start,
            end,
            groups,
        ) == 1
}

proof fn lemma_holders_bounded(s: Session, start: Seq<char>, end: Seq<char>, groups: Seq<Group>)
    ensures
        0 <= holders(s, start, end, groups),
        !in_range(s, start, end) ==> holders(s, start, end, groups) == 0,
    decreases groups.len(),
{
    if groups.len() > 0 {
        lemma_holders_bounded(s, start, end, groups.drop_last());
    }
}

proof fn lemma_single_holder(
    s: Session,
    start: Seq<char>,
    end: Seq<char>,
    groups: Seq<Group>,
    i: int,
)
    requires
        0 <= i < groups.len(),
        in_group(s, start, end, groups[i]),
        forall|j: int|
            0 <= j < groups.len() && j != i ==> !in_group(s, start, end, #[trigger] groups[j]),
    ensures
        holders(s, start, end, groups) == 1,
    decreases groups.len(),
{
    let earlier = groups.drop_last();
    if i == groups.len() - 1 {
        lemma_no_holder(s, start, end, earlier);
    } else {
        assert(!in_group(s, start, end, groups[groups.len() - 1]));
        assert(earlier[i] == groups[i]);
        assert forall|j: int| 0 <= j < earlier.len() && j != i implies !in_group(
            s,
            start,
            end,
            #[trigger] earlier[j],
        ) by {
            assert(earlier[j] == groups[j]);
        }
        lemma_single_holder(s, start, end, earlier, i);
    }
}

proof fn lemma_no_holder(s: Session, start: Seq<char>, end: Seq<char>, groups: Seq<Group>)
    requires
        forall|j: int| 0 <= j < groups.len() ==> !in_group(s, start, end, #[trigger] groups[j]),
    ensures
        holders(s, start, end, groups) == 0,
    decreases groups.len(),
{
    if groups.len() > 0 {
        let earlier = groups.drop_last();
        assert(!in_group(s, start, end, groups[groups.len() - 1]));
        assert forall|j: int| 0 <= j < earlier.len() implies !in_group(
            s,
            start,
            end,
            #[trigger] earlier[j],
        ) by {
            assert(earlier[j] == groups[j]);
        }
        lemma_no_holder(s, start, end, earlier);
    }
}

proof fn lemma_one_more_session(
    sessions: Seq<Session>,
    start: Seq<char>,
    end: Seq<char>,
    groups: Seq<Group>,
)
    requires
        sessions.len() > 0,
        holders(sessions.last(), start, end, groups) <= 1,
    ensures
        groups_seconds(sessions, start, end, groups) == groups_seconds(
            sessions.drop_last(),
            start,
            end,
            groups,
        ) + if holders(sessions.last(), start, end, groups) == 1 {
            sessions.last().duration_seconds as int
        } else {
            0
        },
        groups_sessions(sessions, start, end, groups) == groups_sessions(
            sessions.drop_last(),
            start,
            end,
            groups,
        ) + holders(sessions.last(), start, end, groups),
    decreases groups.len(),
{
    if groups.len() > 0 {
        lemma_holders_bounded(sessions.last(), start, end, groups.drop_last());
        lemma_one_more_session(sessions, start, end, groups.drop_last());
    }
}

proof fn lemma_no_sessions(start: Seq<char>, end: Seq<char>, groups: Seq<Group>)
    ensures
        groups_seconds(Seq::<Session>::empty(), start, end, groups) == 0,
        groups_sessions(Seq::<Session>::empty(), start, end, groups) == 0,
    decreases groups.len(),
{
    if groups.len() > 0 {
        lemma_no_sessions(start, end, groups.drop_last());
    }
}

/// Groups that divide the sessions within the range among them have, taken
/// together, the seconds and the count of all those sessions.
pub proof fn lemma_partition_adds_up(
    sessions: Seq<Session>,
    start: Seq<char>,
    end: Seq<char>,
    groups: Seq<Group>,
)
    requires
        groups_partition(sessions, start, end, groups),
    ensures
        groups_seconds(sessions, start, end, groups) == group_seconds(
            sessions,
            start,
            end,
            Group::All,
        ),
        groups_sessions(sessions, start, end, groups) == group_sessions(
            sessions,
            start,
            end,
            Group::All,
        ),
    decreases sessions.len(),
{
    if sessions.len() == 0 {
        assert(sessions =~= Seq::<Session>::empty());
        lemma_no_sessions(start, end, groups);
    } else {
        let earlier = sessions.drop_last();
        let last = sessions.last();
        assert forall|k: int|
            0 <= k < earlier.len() && in_range(#[trigger] earlier[k], start, end) implies holders(
            earlier[k],
            start,
            end,
            groups,
        ) == 1 by {
            assert(earlier[k] == sessions[k]);
        }
        lemma_partition_adds_up(earlier, start, end, groups);
        lemma_holders_bounded(last, start, end, groups);
        assert(last == sessions[sessions.len() - 1]);
        lemma_one_more_session(sessions, start, end, groups);
    }
}

/// Sum of the seconds of the daily rows.
pub open spec fn daily_seconds(rows: Seq<DailyStats>) -> int
    decreases rows.len(),
{
    if rows.len() == 0 {
        0
    } else {
        daily_seconds(rows.drop_last()) + rows.last().total_seconds
    }
}

/// Sum of the session counts of the daily rows.
pub open spec fn daily_sessions(rows: Seq<DailyStats>) -> int
    decreases rows.len(),
{
    if rows.len() == 0 {
        0
    } else {
        daily_sessions(rows.drop_last()) + rows.last().sessions_count
    }
}

/// The group of each daily row.
pub open spec fn day_groups(rows: Seq<DailyStats>) -> Seq<Group> {
    rows.map_values(|r: DailyStats| Group::Day(r.date@))
}

proof fn lemma_daily_rows_are_groups(
    rows: Seq<DailyStats>,
    sessions: Seq<Session>,
    start: Seq<char>,
    end: Seq<char>,
)
    requires
        forall|i: int|
            0 <= i < rows.len() ==> {
                &&& (#[trigger] rows[i]).sessions_count == group_sessions(
                    sessions,
                    start,
                    end,
                    Group::Day(rows[i].date@),
                )
                &&& rows[i].total_seconds == group_seconds(
                    sessions,
                    start,
                    end,
                    Group::Day(rows[i].date@),
                )
            },
    ensures
        daily_seconds(rows) == groups_seconds(sessions, start, end, day_groups(rows)),
        daily_sessions(rows) == groups_sessions(sessions, start, end, day_groups(rows)),
    decreases rows.len(),
{
    if rows.len() > 0 {
        let earlier = rows.drop_last();
        assert forall|i: int| 0 <= i < earlier.len() implies {
            &&& (#[trigger] earlier[i]).sessions_count == group_sessions(
                sessions,
                start,
                end,
                Group::Day(earlier[i].date@),
            )
            &&& earlier[i].total_seconds == group_seconds(
                sessions,
                start,
                end,
                Group::Day(earlier[i].date@),
            )
        } by {
            assert(earlier[i] == rows[i]);
        }
        lemma_daily_rows_are_groups(earlier, sessions, start, end);
        assert(day_groups(rows).drop_last() =~= day_groups(earlier));
        assert(rows.last() == rows[rows.len() - 1]);
    }
}

/// The daily summary loses and invents nothing: the seconds of its rows add
/// up to the seconds of all sessions within the range, and so do the counts.
pub proof fn lemma_daily_totals_add_up(
    rows: Seq<DailyStats>,
    sessions: Seq<Session>,
    start: Seq<char>,
    end: Seq<char>,
)
    requires
        is_daily_summary(rows, sessions, start, end),
    ensures
        daily_seconds(rows) == group_seconds(sessions, start, end, Group::All),
        daily_sessions(rows) == group_sessions(sessions, start, end, Group::All),
{
    let groups = day_groups(rows);
    assert forall|k: int|
        0 <= k < sessions.len() && in_range(#[trigger] sessions[k], start, end) implies holders(
        sessions[k],
        start,
        end,
        groups,
    ) == 1 by {
        let day = day_text(sessions[k].start_time@);
        let i = choose|i: int| 0 <= i < rows.len() && (#[trigger] rows[i]).date@ == day;
        assert(groups[i] == Group::Day(day));
        assert forall|j: int| 0 <= j < groups.len() && j != i implies !in_group(
            sessions[k],
            start,
            end,
            #[trigger] groups[j],
        ) by {
            assert(groups[j] == Group::Day(rows[j].date@));
            lemma_text_lt_irreflexive(day);
            if j < i {
                assert(text_lt(rows[j].date@, rows[i].date@));
            } else {
                assert(text_lt(rows[i].date@, rows[j].date@));
            }
        }
        lemma_single_holder(sessions[k], start, end, groups, i);
    }
    lemma_partition_adds_up(sessions, start, end, groups);
    lemma_daily_rows_are_groups(rows, sessions, start, end);
}

/// Sum of the seconds of the project rows.
pub open spec fn rows_seconds(rows: Seq<ProjectRow>) -> int
    decreases rows.len(),
{
    if rows.len() == 0 {
        0
    } else {
        rows_seconds(rows.drop_last()) + rows.last().seconds
    }
}

/// Sum of the session counts of the project rows.
pub open spec fn rows_sessions(rows: Seq<ProjectRow>) -> int
    decreases rows.len(),
{
    if rows.len() == 0 {
        0
    } else {
        rows_sessions(rows.drop_last()) + rows.last().sessions
    }
}

/// The rows go from the most seconds to the fewest.
pub open spec fn seconds_descend(rows: Seq<ProjectRow>) -> bool {
    forall|i: int, j: int|
        #![trigger rows[i], rows[j]]
        0 <= i < j < rows.len() ==> rows[i].seconds >= rows[j].seconds
}

proof fn lemma_place_properties(ordered: Seq<ProjectRow>, row: ProjectRow)
    ensures
        rows_seconds(place_by_seconds(ordered, row)) == rows_seconds(ordered) + row.seconds,
        rows_sessions(place_by_seconds(ordered, row)) == rows_sessions(ordered) + row.sessions,
        place_by_seconds(ordered, row).to_multiset() == ordered.to_multiset().insert(row),
        place_by_seconds(ordered, row).len() == ordered.len() + 1,
        seconds_descend(ordered) ==> seconds_descend(place_by_seconds(ordered, row)),
        forall|i: int|
            0 <= i < place_by_seconds(ordered, row).len() ==> #[trigger] place_by_seconds(
                ordered,
                row,
            )[i] == row || exists|j: int|
                0 <= j < ordered.len() && ordered[j] == place_by_seconds(ordered, row)[i],
    decreases ordered.len(),
{
    broadcast use vstd::seq_lib::group_to_multiset_ensures;

    let placed = place_by_seconds(ordered, row);
    if ordered.len() == 0 || ordered.last().seconds >= row.seconds {
        assert(ordered.push(row).drop_last() =~= ordered);
        assert forall|i: int| 0 <= i < placed.len() implies #[trigger] placed[i] == row
            || exists|j: int| 0 <= j < ordered.len() && ordered[j] == placed[i] by {
            if i < ordered.len() {
                assert(ordered[i] == placed[i]);
            }
        }
        if seconds_descend(ordered) {
            assert forall|i: int, j: int|
                #![trigger placed[i], placed[j]]
                0 <= i < j < placed.len() implies placed[i].seconds >= placed[j].seconds by {
                if j == ordered.len() && i < ordered.len() - 1 {
                    assert(ordered[i].seconds >= ordered[ordered.len() - 1].seconds);
                }
            }
        }
    } else {
        let earlier = ordered.drop_last();
        let inner = place_by_seconds(earlier, row);
        lemma_place_properties(earlier, row);
        assert(placed.drop_last() =~= inner);
        assert(ordered =~= earlier.push(ordered.last()));
        assert(earlier.to_multiset().insert(row).insert(ordered.last())
            =~= earlier.to_multiset().insert(ordered.last()).insert(row));
        assert forall|i: int| 0 <= i < placed.len() implies #[trigger] placed[i] == row
            || exists|j: int| 0 <= j < ordered.len() && ordered[j] == placed[i] by {
            if i < inner.len() {
                assert(placed[i] == inner[i]);
                if inner[i] != row {
                    let j = choose|j: int| 0 <= j < earlier.len() && earlier[j] == inner[i];
                    assert(ordered[j] == placed[i]);
                }
            } else {
                assert(ordered[ordered.len() - 1] == placed[i]);
            }
        }
        if seconds_descend(ordered) {
            assert forall|i: int, j: int|
                #![trigger earlier[i], earlier[j]]
                0 <= i < j < earlier.len() implies earlier[i].seconds >= earlier[j].seconds by {
                assert(ordered[i].seconds >= ordered[j].seconds);
            }
            assert forall|i: int, j: int|
                #![trigger placed[i], placed[j]]
                0 <= i < j < placed.len() implies placed[i].seconds >= placed[j].seconds by {
                if j < inner.len() {
                    assert(inner[i].seconds >= inner[j].seconds);
                } else {
                    assert(placed[i] == inner[i]);
                    if inner[i] != row {
                        let k = choose|k: int| 0 <= k < earlier.len() && earlier[k] == inner[i];
                        assert(ordered[k].seconds >= ordered[ordered.len() - 1].seconds);
                    }
                }
            }
        }
    }
}

/// Ordering the rows changes neither the rows nor their sums, and puts the
/// rows with the most seconds first.
pub proof fn lemma_largest_first_properties(rows: Seq<ProjectRow>)
    ensures
        seconds_descend(largest_first(rows)),
        largest_first(rows).to_multiset() == rows.to_multiset(),
        largest_first(rows).len() == rows.len(),
        rows_seconds(largest_first(rows)) == rows_seconds(rows),
        rows_sessions(largest_first(rows)) == rows_sessions(rows),
    decreases rows.len(),
{
    broadcast use vstd::seq_lib::group_to_multiset_ensures;

    if rows.len() > 0 {
        lemma_largest_first_properties(rows.drop_last());
        lemma_place_properties(largest_first(rows.drop_last()), rows.last());
        assert(rows =~= rows.drop_last().push(rows.last()));
    }
}

/// The rows that have exactly `seconds` seconds, in the order they stand in.
pub open spec fn rows_with_seconds(rows: Seq<ProjectRow>, seconds: int) -> Seq<ProjectRow>
    decreases rows.len(),
{
    if rows.len() == 0 {
        rows
    } else if rows.last().seconds == seconds {
        rows_with_seconds(rows.drop_last(), seconds).push(rows.last())
    } else {
        rows_with_seconds(rows.drop_last(), seconds)
    }
}

proof fn lemma_place_keeps_ties(ordered: Seq<ProjectRow>, row: ProjectRow, seconds: int)
    ensures
        rows_with_seconds(place_by_seconds(ordered, row), seconds) == rows_with_seconds(
            ordered.push(row),
            seconds,
        ),
    decreases ordered.len(),
{
    if !(ordered.len() == 0 || ordered.last().seconds >= row.seconds) {
        let earlier = ordered.drop_last();
        let last = ordered.last();
        lemma_place_keeps_ties(earlier, row, seconds);
        let inner = place_by_seconds(earlier, row);
        assert(place_by_seconds(ordered, row) == inner.push(last));
        assert(inner.push(last).drop_last() =~= inner);
        assert(inner.push(last).last() == last);
        assert(earlier.push(row).drop_last() =~= earlier);
        assert(earlier.push(row).last() == row);
        assert(ordered.push(row).drop_last() =~= ordered);
        assert(ordered.push(row).last() == row);
        let kept = rows_with_seconds(earlier, seconds);
        assert(rows_with_seconds(ordered, seconds) == if last.seconds == seconds {
            kept.push(last)
        } else {
            kept
        });
        assert(rows_with_seconds(inner, seconds) == if row.seconds == seconds {
            kept.push(row)
        } else {
            kept
        });
    } else {
        assert(place_by_seconds(ordered, row) == ordered.push(row));
    }
}

/// Ordering leaves rows with equal seconds in the order they had: the rows
/// with any given number of seconds follow one another as before.
pub proof fn lemma_largest_first_keeps_ties(rows: Seq<ProjectRow>, seconds: int)
    ensures
        rows_with_seconds(largest_first(rows), seconds) == rows_with_seconds(rows, seconds),
    decreases rows.len(),
{
    if rows.len() > 0 {
        let earlier = rows.drop_last();
        lemma_largest_first_keeps_ties(earlier, seconds);
        lemma_place_keeps_ties(largest_first(earlier), rows.last(), seconds);
        assert(largest_first(earlier).push(rows.last()).drop_last() =~= largest_first(earlier));
    }
}

/// Every project row stands for at least one session.
pub proof fn lemma_project_rows_have_sessions(
    sessions: Seq<Session>,
    projects: Seq<Project>,
    start: Seq<char>,
    end: Seq<char>,
)
    ensures
        forall|i: int|
            0 <= i < project_rows(sessions, projects, start, end).len() ==> (#[trigger] project_rows(
                sessions,
                projects,
                start,
                end,
            )[i]).sessions > 0,
    decreases projects.len(),
{
    if projects.len() > 0 {
        let rows = project_rows(sessions, projects, start, end);
        let earlier = project_rows(sessions, projects.drop_last(), start, end);
        lemma_project_rows_have_sessions(sessions, projects.drop_last(), start, end);
        assert forall|i: int| 0 <= i < rows.len() implies (#[trigger] rows[i]).sessions > 0 by {
            if i < earlier.len() {
                assert(rows[i] == earlier[i]);
            }
        }
    }
}

/// Every row of the project summary stands for at least one session.
pub proof fn lemma_summary_rows_have_sessions(
    sessions: Seq<Session>,
    projects: Seq<Project>,
    start: Seq<char>,
    end: Seq<char>,
)
    ensures
        forall|i: int|
            0 <= i < largest_first(project_rows(sessions, projects, start, end)).len() ==> (
            #[trigger] largest_first(project_rows(sessions, projects, start, end))[i]).sessions
                > 0,
{
    broadcast use vstd::seq_lib::group_to_multiset_ensures;

    let rows = project_rows(sessions, projects, start, end);
    let ordered = largest_first(rows);
    lemma_project_rows_have_sessions(sessions, projects, start, end);
    lemma_largest_first_properties(rows);
    assert forall|i: int| 0 <= i < ordered.len() implies (#[trigger] ordered[i]).sessions > 0 by {
        assert(ordered.contains(ordered[i]));
        assert(rows.to_multiset().count(ordered[i]) > 0);
        assert(rows.contains(ordered[i]));
        let j = choose|j: int| 0 <= j < rows.len() && rows[j] == ordered[i];
        assert(rows[j].sessions > 0);
    }
}

/// No two listed projects have the same identity.
pub open spec fn distinct_ids(projects: Seq<Project>) -> bool {
    forall|i: int, j: int|
        #![trigger projects[i], projects[j]]
        0 <= i < j < projects.len() && projects[i].id is Some ==> projects[i].id != projects[j].id
}

/// One of the listed projects has the identity `id`.
pub open spec fn project_listed(projects: Seq<Project>, id: i64) -> bool {
    exists|i: int| 0 <= i < projects.len() && (#[trigger] projects[i]).id == Some(id)
}

/// The project of every session within the range is listed.
pub open spec fn projects_cover(
    sessions: Seq<Session>,
    projects: Seq<Project>,
    start: Seq<char>,
    end: Seq<char>,
) -> bool {
    forall|k: int|
        0 <= k < sessions.len() && in_range(#[trigger] sessions[k], start, end) ==> project_listed(
            projects,
            sessions[k].project_id,
        )
}

/// Sum of the durations of the sessions within the range whose project is
/// listed: the sessions that the project summary is made from.
pub open spec fn listed_seconds(
    sessions: Seq<Session>,
    projects: Seq<Project>,
    start: Seq<char>,
    end: Seq<char>,
) -> int
    decreases sessions.len(),
{
    if sessions.len() == 0 {
        0
    } else {
        listed_seconds(sessions.drop_last(), projects, start, end) + if in_range(
            sessions.last(),
            start,
            end,
        ) && project_listed(projects, sessions.last().project_id) {
            sessions.last().duration_seconds as int
        } else {
            0
        }
    }
}

/// Number of the sessions within the range whose project is listed.
pub open spec fn listed_sessions(
    sessions: Seq<Session>,
    projects: Seq<Project>,
    start: Seq<char>,
    end: Seq<char>,
) -> int
    decreases sessions.len(),
{
    if sessions.len() == 0 {
        0
    } else {
        listed_sessions(sessions.drop_last(), projects, start, end) + if in_range(
            sessions.last(),
            start,
            end,
        ) && project_listed(projects, sessions.last().project_id) {
            1int
        } else {
            0int
        }
    }
}

/// The groups of the listed projects that have an identity.
pub open spec fn project_groups(projects: Seq<Project>) -> Seq<Group>
    decreases projects.len(),
{
    if projects.len() == 0 {
        Seq::empty()
    } else {
        let earlier = project_groups(projects.drop_last());
        match projects.last().id {
            Some(id) => earlier.push(Group::Project(id as int)),
            None => earlier,
        }
    }
}

/// Number of the listed projects with the identity `id`.
pub open spec fn id_count(projects: Seq<Project>, id: i64) -> int
    decreases projects.len(),
{
    if projects.len() == 0 {
        0
    } else {
        id_count(projects.drop_last(), id) + if projects.last().id == Some(id) {
            1int
        } else {
            0int
        }
    }
}

proof fn lemma_id_absent(projects: Seq<Project>, id: i64)
    requires
        forall|i: int| 0 <= i < projects.len() ==> (#[trigger] projects[i]).id != Some(id),
    ensures
        id_count(projects, id) == 0,
    decreases projects.len(),
{
    if projects.len() > 0 {
        let earlier = projects.drop_last();
        assert(projects[projects.len() - 1].id != Some(id));
        assert forall|i: int| 0 <= i < earlier.len() implies (#[trigger] earlier[i]).id != Some(
            id,
        ) by {
            assert(earlier[i] == projects[i]);
        }
        lemma_id_absent(earlier, id);
    }
}

proof fn lemma_id_once(projects: Seq<Project>, id: i64, i: int)
    requires
        distinct_ids(projects),
        0 <= i < projects.len(),
        projects[i].id == Some(id),
    ensures
        id_count(projects, id) == 1,
    decreases projects.len(),
{
    let earlier = projects.drop_last();
    assert forall|a: int, b: int|
        #![trigger earlier[a], earlier[b]]
        0 <= a < b < earlier.len() && earlier[a].id is Some implies earlier[a].id
        != earlier[b].id by {
        assert(projects[a].id != projects[b].id);
    }
    if i == projects.len() - 1 {
        assert forall|k: int| 0 <= k < earlier.len() implies (#[trigger] earlier[k]).id != Some(
            id,
        ) by {
            assert(earlier[k] == projects[k]);
            if projects[k].id is Some {
                assert(projects[k].id != projects[i].id);
            }
        }
        lemma_id_absent(earlier, id);
    } else {
        assert(projects[i].id != projects[projects.len() - 1].id);
        assert(earlier[i] == projects[i]);
        lemma_id_once(earlier, id, i);
    }
}

proof fn lemma_project_holders(
    s: Session,
    start: Seq<char>,
    end: Seq<char>,
    projects: Seq<Project>,
)
    requires
        in_range(s, start, end),
    ensures
        holders(s, start, end, project_groups(projects)) == id_count(projects, s.project_id),
    decreases projects.len(),
{
    if projects.len() > 0 {
        let earlier = project_groups(projects.drop_last());
        lemma_project_holders(s, start, end, projects.drop_last());
        if let Some(id) = projects.last().id {
            assert(earlier.push(Group::Project(id as int)).drop_last() =~= earlier);
        }
    }
}

proof fn lemma_project_rows_are_groups(
    sessions: Seq<Session>,
    projects: Seq<Project>,
    start: Seq<char>,
    end: Seq<char>,
)
    ensures
        rows_seconds(project_rows(sessions, projects, start, end)) == groups_seconds(
            sessions,
            start,
            end,
            project_groups(projects),
        ),
        rows_sessions(project_rows(sessions, projects, start, end)) == groups_sessions(
            sessions,
            start,
            end,
            project_groups(projects),
        ),
    decreases projects.len(),
{
    if projects.len() > 0 {
        let earlier_rows = project_rows(sessions, projects.drop_last(), start, end);
        let earlier_groups = project_groups(projects.drop_last());
        lemma_project_rows_are_groups(sessions, projects.drop_last(), start, end);
        if let Some(id) = projects.last().id {
            let g = Group::Project(id as int);
            assert(earlier_groups.push(g).drop_last() =~= earlier_groups);
            lemma_group_sessions_bounded(sessions, start, end, g);
            if group_sessions(sessions, start, end, g) > 0 {
                let row = project_row(sessions, projects.last(), start, end)->0;
                assert(earlier_rows.push(row).drop_last() =~= earlier_rows);
            } else {
                assert forall|k: int| 0 <= k < sessions.len() implies !in_group(
                    #[trigger] sessions[k],
                    start,
                    end,
                    g,
                ) by {
                    if in_group(sessions[k], start, end, g) {
                        lemma_member_counted(sessions, start, end, g, k);
                    }
                }
                lemma_empty_group(sessions, start, end, g);
            }
        }
    }
}

proof fn lemma_listed_groups_add_up(
    sessions: Seq<Session>,
    projects: Seq<Project>,
    start: Seq<char>,
    end: Seq<char>,
)
    requires
        distinct_ids(projects),
    ensures
        groups_seconds(sessions, start, end, project_groups(projects)) == listed_seconds(
            sessions,
            projects,
            start,
            end,
        ),
        groups_sessions(sessions, start, end, project_groups(projects)) == listed_sessions(
            sessions,
            projects,
            start,
            end,
        ),
    decreases sessions.len(),
{
    let groups = project_groups(projects);
    if sessions.len() == 0 {
        assert(sessions =~= Seq::<Session>::empty());
        lemma_no_sessions(start, end, groups);
    } else {
        let last = sessions.last();
        lemma_listed_groups_add_up(sessions.drop_last(), projects, start, end);
        lemma_holders_bounded(last, start, end, groups);
        if in_range(last, start, end) {
            lemma_project_holders(last, start, end, projects);
            if project_listed(projects, last.project_id) {
                let i = choose|i: int|
                    0 <= i < projects.len() && (#[trigger] projects[i]).id == Some(
                        last.project_id,
                    );
                lemma_id_once(projects, last.project_id, i);
            } else {
                lemma_id_absent(projects, last.project_id);
            }
        }
        lemma_one_more_session(sessions, start, end, groups);
    }
}

/// Where no two listed projects share an identity, the project summary loses
/// and invents nothing: the seconds of its rows add up to the seconds of the
/// sessions within the range whose project is listed, and so do the counts.
/// Sessions of a project that is not listed are in neither sum.
pub proof fn lemma_project_totals_add_up(
    sessions: Seq<Session>,
    projects: Seq<Project>,
    start: Seq<char>,
    end: Seq<char>,
)
    requires
        distinct_ids(projects),
    ensures
        rows_seconds(largest_first(project_rows(sessions, projects, start, end)))
            == listed_seconds(sessions, projects, start, end),
        rows_sessions(largest_first(project_rows(sessions, projects, start, end)))
            == listed_sessions(sessions, projects, start, end),
{
    lemma_listed_groups_add_up(sessions, projects, start, end);
    lemma_project_rows_are_groups(sessions, projects, start, end);
    lemma_largest_first_properties(project_rows(sessions, projects, start, end));
}

/// Where the project of every session within the range is listed, the
/// sessions of listed projects are all the sessions within the range.
pub proof fn lemma_covering_projects_hold_all(
    sessions: Seq<Session>,
    projects: Seq<Project>,
    start: Seq<char>,
    end: Seq<char>,
)
    requires
        projects_cover(sessions, projects, start, end),
    ensures
        listed_seconds(sessions, projects, start, end) == group_seconds(
            sessions,
            start,
            end,
            Group::All,
        ),
        listed_sessions(sessions, projects, start, end) == group_sessions(
            sessions,
            start,
            end,
            Group::All,
        ),
    decreases sessions.len(),
{
    if sessions.len() > 0 {
        let earlier = sessions.drop_last();
        assert forall|k: int|
            0 <= k < earlier.len() && in_range(
                #[trigger] earlier[k],
                start,
                end,
            ) implies project_listed(projects, earlier[k].project_id) by {
            assert(earlier[k] == sessions[k]);
        }
        lemma_covering_projects_hold_all(earlier, projects, start, end);
        assert(sessions.last() == sessions[sessions.len() - 1]);
    }
}

} // verus!
