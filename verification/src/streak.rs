//! The streak: how many goal-met days in a row lead up to the latest one.

use vstd::prelude::*;
use crate::calendar::{parse_day_number, parsed_day_number};
use crate::models::Streak;

verus! {

/// The day numbers that could be read, in the order of the entries; entries that
/// could not be read are left out.
pub open spec fn readable_days(days: Seq<Option<i32>>) -> Seq<int>
    decreases days.len(),
{
    if days.len() == 0 {
        Seq::empty()
    } else {
        let earlier = readable_days(days.drop_last());
        match days.last() {
            Some(d) => earlier.push(d as int),
            None => earlier,
        }
    }
}

/// The first `n` days go back one calendar day at a time.
pub open spec fn consecutive_run(days: Seq<int>, n: int) -> bool {
    &&& 0 <= n <= days.len()
    &&& forall|i: int| #![trigger days[i]] 0 < i < n ==> days[i - 1] - days[i] == 1
}

/// `n` is the length of the unbroken run at the front of `days`: the run
/// covers the first `n` days, it starts with the first day if there is one,
/// and the day after it, if any, is not the day before its last.
pub open spec fn is_streak_of(days: Seq<int>, n: int) -> bool {
    &&& consecutive_run(days, n)
    &&& days.len() > 0 ==> n >= 1
    &&& n < days.len() ==> days[n - 1] - days[n] != 1
}

/// Length of the run of consecutive calendar days at the front of `days`,
/// which lists days from the most recent backwards.
pub open spec fn streak_length(days: Seq<int>) -> int
    decreases days.len(),
{
    if days.len() == 0 {
        0
    } else if days.len() == 1 {
        1
    } else if days[0] - days[1] == 1 {
        1 + streak_length(days.drop_first())
    } else {
        1
    }
}

/// The day that an entry stands for: the day number read from its date if
/// its goal was met. An entry whose goal was not met stands for no day, as
/// does one whose date cannot be read.
pub open spec fn entry_day(entry: Streak) -> Option<i32> {
    if entry.goal_met {
        parsed_day_number(entry.date@)
    } else {
        None
    }
}

/// The day that each entry stands for.
pub open spec fn entry_days(entries: Seq<Streak>) -> Seq<Option<i32>> {
    Seq::new(entries.len(), |i: int| entry_day(entries[i]))
}

/// A run length that fits [`is_streak_of`] is the streak length.
pub proof fn lemma_streak_determined(days: Seq<int>, n: int)
    requires
        is_streak_of(days, n),
    ensures
        streak_length(days) == n,
    decreases days.len(),
{
    if days.len() >= 2 {
        if days[0] - days[1] == 1 {
            let rest = days.drop_first();
            assert(n >= 2);
            assert forall|i: int| #![trigger rest[i]] 0 < i < n - 1 implies rest[i - 1] - rest[i]
                == 1 by {
                assert(days[i + 1 - 1] - days[i + 1] == 1);
            }
            if n - 1 < rest.len() {
                assert(rest[n - 2] == days[n - 1] && rest[n - 1] == days[n]);
            }
            lemma_streak_determined(rest, n - 1);
        } else {
            if n >= 2 {
                assert(days[1 - 1] - days[1] == 1);
            }
        }
    }
}

/// The streak length is the length of the unbroken run at the front: the
/// days it counts are consecutive, and the run cannot be extended.
pub proof fn lemma_streak_is_longest_run(days: Seq<int>)
    ensures
        is_streak_of(days, streak_length(days)),
    decreases days.len(),
{
    if days.len() >= 2 && days[0] - days[1] == 1 {
        let rest = days.drop_first();
        let m = streak_length(rest);
        lemma_streak_is_longest_run(rest);
        assert forall|i: int| #![trigger days[i]] 0 < i < m + 1 implies days[i - 1] - days[i]
            == 1 by {
            if i >= 2 {
                assert(rest[i - 1 - 1] - rest[i - 1] == 1);
            }
        }
        if m + 1 < days.len() {
            assert(rest[m - 1] == days[m] && rest[m] == days[m + 1]);
        }
    }
}

/// Entries that cannot be read do not change the streak.
pub proof fn lemma_unreadable_entry_skipped(before: Seq<Option<i32>>, after: Seq<Option<i32>>)
    ensures
        readable_days(before + seq![None] + after) == readable_days(before + after),
    decreases after.len(),
{
    let with = before + seq![None::<i32>] + after;
    let without = before + after;
    if after.len() == 0 {
        assert(with.drop_last() =~= before);
        assert(without =~= before);
    } else {
        assert(with.drop_last() =~= before + seq![None::<i32>] + after.drop_last());
        assert(without.drop_last() =~= before + after.drop_last());
        lemma_unreadable_entry_skipped(before, after.drop_last());
    }
}

proof fn lemma_readable_prefix(days: Seq<Option<i32>>, i: int, j: int)
    requires
        0 <= i <= j <= days.len(),
    ensures
        readable_days(days.take(i)).len() <= readable_days(days.take(j)).len(),
        readable_days(days.take(i)) == readable_days(days.take(j)).take(
            readable_days(days.take(i)).len() as int,
        ),
    decreases j - i,
{
    if i < j {
        lemma_readable_prefix(days, i, j - 1);
        assert(days.take(j).drop_last() =~= days.take(j - 1));
        let short = readable_days(days.take(i));
        let mid = readable_days(days.take(j - 1));
        let long = readable_days(days.take(j));
        assert(short =~= long.take(short.len() as int));
    } else {
        assert(readable_days(days.take(i)) =~= readable_days(days.take(i)).take(
            readable_days(days.take(i)).len() as int,
        ));
    }
}

/// Computes the streak from the day numbers of the goal-met entries, most
/// recent first; `None` stands for an entry whose date could not be read.
pub fn streak_of_days(days: &Vec<Option<i32>>) -> (r: i64)
    ensures
        r == streak_length(readable_days(days@)),
{
    let mut streak: i64 = 0;
    let mut last: Option<i32> = None;
    let mut i: usize = 0;
    let ghost all = readable_days(days@);
    proof {
        assert(days@.take(0) =~= Seq::<Option<i32>>::empty());
    }
    while i < days.len()
        invariant
            0 <= i <= days.len(),
            all == readable_days(days@),
            streak == readable_days(days@.take(i as int)).len(),
            consecutive_run(readable_days(days@.take(i as int)), streak as int),
            streak == 0 ==> last is None,
            streak > 0 ==> last == Some(readable_days(days@.take(i as int)).last() as i32),
            streak > 0 ==> readable_days(days@.take(i as int))[0] - readable_days(
                days@.take(i as int),
            ).last() == streak - 1,
            forall|k: int|
                0 <= k < streak ==> i32::MIN <= #[trigger] readable_days(days@.take(i as int))[k]
                    <= i32::MAX,
        decreases days.len() - i,
    {
        let ghost seen = readable_days(days@.take(i as int));
        let ghost next = readable_days(days@.take(i + 1));
        proof {
            assert(days@.take(i + 1).drop_last() =~= days@.take(i as int));
            assert(days@.take(i + 1).last() == days@[i as int]);
        }
        if let Some(day) = days[i] {
            assert(next == seen.push(day as int));
            if let Some(previous) = last {
                let diff: i64 = previous as i64 - day as i64;
                if diff == 1 {
                    streak = streak + 1;
                    last = Some(day);
                } else {
                    proof {
                        lemma_readable_prefix(days@, i + 1, days@.len() as int);
                        assert(days@.take(days@.len() as int) =~= days@);
                        assert(all.take(next.len() as int) == next);
                        assert forall|k: int| #![trigger all[k]] 0 < k < streak implies all[k - 1]
                            - all[k] == 1 by {
                            assert(all[k] == next[k] && all[k - 1] == next[k - 1]);
                            assert(seen[k - 1] - seen[k] == 1);
                        }
                        assert(all[streak as int] == next[streak as int]);
                        assert(all[streak - 1] == next[streak - 1]);
                        assert(is_streak_of(all, streak as int));
                        lemma_streak_determined(all, streak as int);
                    }
                    return streak;
                }
            } else {
                streak = 1;
                last = Some(day);
            }
        } else {
            assert(next == seen);
        }
        i = i + 1;
    }
    proof {
        assert(days@.take(i as int) =~= days@);
        assert(is_streak_of(all, streak as int));
        lemma_streak_determined(all, streak as int);
    }
    streak
}

/// The current streak over the entries as the store lists them, most recent
/// first: the number of consecutive goal-met calendar days that ends with the
/// most recent one. An entry whose goal was not met or whose date cannot be
/// read is passed over.
pub fn current_streak(entries: &Vec<Streak>) -> (r: i64)
    ensures
        r == streak_length(readable_days(entry_days(entries@))),
{
    let mut days: Vec<Option<i32>> = Vec::new();
    let mut i: usize = 0;
    while i < entries.len()
        invariant
            0 <= i <= entries.len(),
            days@ == entry_days(entries@).take(i as int),
        decreases entries.len() - i,
    {
        let day = if entries[i].goal_met {
            parse_day_number(entries[i].date.as_str())
        } else {
            None
        };
        days.push(day);
        assert(days@ =~= entry_days(entries@).take(i + 1));
        i = i + 1;
    }
    assert(days@ =~= entry_days(entries@));
    streak_of_days(&days)
}

} // verus!
