//! Walking the audited days and recording each day that falls short of the quota.
use vstd::prelude::*;

use crate::calendar::{day_of_timestamp, lemma_day_of_i64, lemma_instant_in_day};
use crate::event::ActivityEvent;
use crate::range::AuditRange;
use crate::tally::{aggregate, count_in, tally, DailyCount};

verus! {

/// A day that falls short of the quota, and by how many commits.
#[derive(Clone, Copy, Debug, PartialEq, Eq, Structural)]
pub struct DeficiencyEntry {
    /// Days since 1970-01-01 (UTC).
    pub day: i64,
    /// Commits missing on that day; never zero.
    pub shortfall: u32,
}

/// The days from `first` through `last`, one by one, in ascending order;
/// empty where `last < first`.
pub open spec fn day_walk(first: int, last: int) -> Seq<int>
    decreases last - first + 1,
{
    if last < first {
        Seq::empty()
    } else {
        day_walk(first, last - 1).push(last)
    }
}

/// The days an audit of `range` visits: from its start day through the day of its end.
pub open spec fn audit_days(range: AuditRange) -> Seq<int> {
    day_walk(range.start_day as int, range.end_day())
}

/// For each of `days` in turn whose count is under `threshold`, an entry
/// holding the difference.
pub open spec fn shortfalls(counts: Map<int, nat>, days: Seq<int>, threshold: nat) -> Seq<
    DeficiencyEntry,
>
    decreases days.len(),
{
    if days.len() == 0 {
        Seq::empty()
    } else {
        let before = shortfalls(counts, days.drop_last(), threshold);
        let day = days.last();
        let count = count_in(counts, day);
        if count < threshold {
            before.push(DeficiencyEntry { day: day as i64, shortfall: (threshold - count) as u32 })
        } else {
            before
        }
    }
}

/// The deficiency report of an audit of `range` with the given per-day counts.
pub open spec fn deficiencies(counts: Map<int, nat>, range: AuditRange, threshold: u32) -> Seq<
    DeficiencyEntry,
> {
    shortfalls(counts, audit_days(range), threshold as nat)
}

/// Walks every calendar day of `range`, start day through the day of its end,
/// and records each day whose count (zero where absent) is below `threshold`,
/// with the commits it lacks, in ascending order of day.
pub fn find_deficiencies(counts: &DailyCount, range: &AuditRange, threshold: u32) -> (r: Vec<
    DeficiencyEntry,
>)
    ensures
        r@ == deficiencies(counts@, *range, threshold),
{
    proof {
        lemma_day_of_i64(range.end);
    }
    let last = day_of_timestamp(range.end);
    let mut out: Vec<DeficiencyEntry> = Vec::new();
    if range.start_day > last {
        return out;
    }
    let mut day = range.start_day;
    while day <= last
        invariant
            range.start_day <= day <= last + 1,
            last == range.end_day(),
            -200000000000000 <= last <= 200000000000000,
            out@ == shortfalls(counts@, day_walk(range.start_day as int, day - 1), threshold as nat),
        decreases last + 1 - day,
    {
        let count = counts.get(day);
        proof {
            let walk = day_walk(range.start_day as int, day as int);
            assert(walk.drop_last() =~= day_walk(range.start_day as int, day - 1));
        }
        if count < threshold as usize {
            out.push(DeficiencyEntry { day, shortfall: (threshold as usize - count) as u32 });
        }
        day += 1;
    }
    out
}

/// Runs one audit on fetched events: counts the qualifying events per day,
/// then reports the days of `range` under `threshold`.
pub fn audit(events: &Vec<ActivityEvent>, range: &AuditRange, threshold: u32) -> (r: Vec<
    DeficiencyEntry,
>)
    ensures
        r@ == deficiencies(tally(events@, *range), *range, threshold),
{
    let counts = aggregate(events, range);
    find_deficiencies(&counts, range, threshold)
}

/// A walk from `first` through `last` visits `last - first + 1` days, one
/// after another, or none where `last < first`.
pub proof fn lemma_walk_shape(first: int, last: int)
    ensures
        day_walk(first, last).len() == if last < first {
            0
        } else {
            last - first + 1
        },
        forall|i: int| 0 <= i < day_walk(first, last).len() ==> #[trigger] day_walk(first, last)[i] == first + i,
    decreases last - first + 1,
{
    if last >= first {
        lemma_walk_shape(first, last - 1);
    }
}

/// What the report over a walk holds: each entry is a walked day under the
/// threshold with its exact shortfall, days strictly ascend, and no day under
/// the threshold is missing.
proof fn lemma_shortfalls_walk(counts: Map<int, nat>, first: int, last: int, threshold: nat)
    requires
        i64::MIN <= first,
        last <= i64::MAX,
        threshold <= u32::MAX,
    ensures
        ({
            let r = shortfalls(counts, day_walk(first, last), threshold);
            &&& forall|i: int|
                0 <= i < r.len() ==> first <= #[trigger] r[i].day <= last && count_in(counts, r[i].day as int) < threshold
                    && r[i].shortfall == threshold - count_in(counts, r[i].day as int)
            &&& forall|i: int, j: int| 0 <= i < j < r.len() ==> r[i].day < r[j].day
            &&& forall|d: int|
                first <= d <= last && count_in(counts, d) < threshold ==> exists|i: int|
                    0 <= i < r.len() && #[trigger] r[i].day == d
        }),
    decreases last - first + 1,
{
    if last >= first {
        lemma_shortfalls_walk(counts, first, last - 1, threshold);
        let walk = day_walk(first, last);
        assert(walk.drop_last() =~= day_walk(first, last - 1));
        let prev = shortfalls(counts, day_walk(first, last - 1), threshold);
        let r = shortfalls(counts, walk, threshold);
        if count_in(counts, last) < threshold {
            assert(r == prev.push(
                DeficiencyEntry { day: last as i64, shortfall: (threshold - count_in(counts, last)) as u32 },
            ));
            assert(r[prev.len() as int].day == last);
            assert forall|d: int| first <= d <= last && count_in(counts, d) < threshold implies exists|i: int|
                0 <= i < r.len() && #[trigger] r[i].day == d by {
                if d < last {
                    let i = choose|i: int| 0 <= i < prev.len() && #[trigger] prev[i].day == d;
                    assert(r[i] == prev[i]);
                }
            }
        } else {
            assert(r == prev);
        }
    }
}

/// A span that starts after it ends is audited as no days, so nothing is reported.
pub proof fn lemma_inverted_range_reports_nothing(
    counts: Map<int, nat>,
    range: AuditRange,
    threshold: u32,
)
    requires
        range.start_instant() > range.end,
    ensures
        deficiencies(counts, range, threshold) == Seq::<DeficiencyEntry>::empty(),
{
    lemma_instant_in_day(range.end as int);
    assert(range.end_day() < range.start_day);
}

/// For each day of the span: a day whose count reaches the threshold gets no
/// entry; a day under it gets exactly one, whose shortfall is the threshold
/// minus the count.
pub proof fn lemma_one_entry_per_short_day(
    counts: Map<int, nat>,
    range: AuditRange,
    threshold: u32,
    day: int,
)
    requires
        range.start_day <= day <= range.end_day(),
    ensures
        ({
            let r = deficiencies(counts, range, threshold);
            &&& count_in(counts, day) >= threshold ==> forall|i: int| 0 <= i < r.len() ==> r[i].day != day
            &&& count_in(counts, day) < threshold ==> exists|i: int|
                0 <= i < r.len() && #[trigger] r[i].day == day && r[i].shortfall == threshold - count_in(counts, day)
                    && forall|j: int| 0 <= j < r.len() && r[j].day == day ==> j == i
        }),
{
    lemma_day_of_i64(range.end);
    lemma_shortfalls_walk(counts, range.start_day as int, range.end_day(), threshold as nat);
    let r = deficiencies(counts, range, threshold);
    if count_in(counts, day) < threshold {
        let i = choose|i: int| 0 <= i < r.len() && #[trigger] r[i].day == day;
        assert(forall|j: int| 0 <= j < r.len() && r[j].day == day ==> j == i) by {
            assert forall|j: int| 0 <= j < r.len() && r[j].day == day implies j == i by {
                if j < i {
                    assert(r[j].day < r[i].day);
                } else if i < j {
                    assert(r[i].day < r[j].day);
                }
            }
        }
    }
}

/// The audit walks `end_day - start_day + 1` whole days of the span, each the
/// day after the one before, or none where the span starts after its end.
pub proof fn lemma_days_walked(range: AuditRange)
    ensures
        audit_days(range).len() == if range.start_day <= range.end_day() {
            range.end_day() - range.start_day + 1
        } else {
            0
        },
        forall|i: int|
            0 <= i < audit_days(range).len() ==> #[trigger] audit_days(range)[i] == range.start_day + i,
{
    lemma_walk_shape(range.start_day as int, range.end_day());
}

/// Two audits of the same events, span and threshold give the same report:
/// nothing but the inputs decides it.
pub proof fn lemma_audit_repeatable(
    events: Seq<ActivityEvent>,
    range: AuditRange,
    threshold: u32,
    first: Seq<DeficiencyEntry>,
    second: Seq<DeficiencyEntry>,
)
    requires
        first == deficiencies(tally(events, range), range, threshold),
        second == deficiencies(tally(events, range), range, threshold),
    ensures
        first == second,
{
}

} // verus!
