//! Bucketing qualifying events by UTC calendar day.
use std::collections::HashMap;
use vstd::prelude::*;
use vstd::std_specs::hash::group_hash_axioms;

use crate::calendar::{day_of, day_of_timestamp, lemma_after_midnight};
use crate::event::{ActivityEvent, EventKind};
use crate::range::AuditRange;

verus! {

broadcast use group_hash_axioms;

/// Whether an event counts toward its day: it is a push and happened inside the span.
pub open spec fn qualifies(e: ActivityEvent, range: AuditRange) -> bool {
    e.kind == EventKind::Push && range.contains(e.timestamp as int)
}

/// The count recorded for `day`, zero where none is.
pub open spec fn count_in(counts: Map<int, nat>, day: int) -> nat {
    if counts.contains_key(day) {
        counts[day]
    } else {
        0
    }
}

/// The per-day counts of the qualifying events among `events`: each one adds
/// one to the day it falls on; days without any are absent.
pub open spec fn tally(events: Seq<ActivityEvent>, range: AuditRange) -> Map<int, nat>
    decreases events.len(),
{
    if events.len() == 0 {
        Map::empty()
    } else {
        let counts = tally(events.drop_last(), range);
        let e = events.last();
        if qualifies(e, range) {
            let day = day_of(e.timestamp as int);
            counts.insert(day, count_in(counts, day) + 1)
        } else {
            counts
        }
    }
}

/// Commit counts per UTC calendar day (days since 1970-01-01).
#[derive(Debug)]
pub struct DailyCount {
    counts: HashMap<i64, usize>,
}

impl View for DailyCount {
    type V = Map<int, nat>;

    closed spec fn view(&self) -> Map<int, nat> {
        Map::new(
            |day: int| i64::MIN <= day <= i64::MAX && self.counts@.contains_key(day as i64),
            |day: int| self.counts@[day as i64] as nat,
        )
    }
}

impl DailyCount {
    /// No day counted yet.
    pub fn new() -> (r: DailyCount)
        ensures
            r@ == Map::<int, nat>::empty(),
    {
        let r = DailyCount { counts: HashMap::new() };
        assert(r@ =~= Map::<int, nat>::empty());
        r
    }

    /// The count of `day`, zero where nothing was recorded.
    pub fn get(&self, day: i64) -> (r: usize)
        ensures
            r as nat == count_in(self@, day as int),
    {
        match self.counts.get(&day) {
            Some(n) => *n,
            None => 0,
        }
    }

    /// Whether no day has a count.
    pub fn is_empty(&self) -> (r: bool)
        ensures
            r == (self@ == Map::<int, nat>::empty()),
    {
        let r = self.counts.is_empty();
        if r {
            assert(self@ =~= Map::<int, nat>::empty());
        } else {
            proof {
                assert(self.counts@.dom().len() > 0);
                let k = self.counts@.dom().choose();
                assert(self@.contains_key(k as int));
            }
        }
        r
    }

    /// Adds one to the count of `day`.
    fn increment(&mut self, day: i64)
        requires
            count_in(old(self)@, day as int) < usize::MAX,
        ensures
            final(self)@ == old(self)@.insert(day as int, count_in(old(self)@, day as int) + 1),
    {
        let n = self.get(day);
        self.counts.insert(day, n + 1);
        assert(final(self)@ =~= old(self)@.insert(day as int, count_in(old(self)@, day as int) + 1));
    }
}

/// Counts the qualifying events of each day: pushes whose instant lies in
/// `range`. Events of other kinds or outside the span are dropped silently;
/// duplicates are counted as often as they occur.
pub fn aggregate(events: &Vec<ActivityEvent>, range: &AuditRange) -> (r: DailyCount)
    ensures
        r@ == tally(events@, *range),
{
    let mut counts = DailyCount::new();
    let mut i: usize = 0;
    while i < events.len()
        invariant
            i <= events.len(),
            counts@ == tally(events@.subrange(0, i as int), *range),
            forall|day: int| count_in(counts@, day) <= i,
        decreases events.len() - i,
    {
        let e = events[i];
        let ghost before = counts@;
        proof {
            lemma_after_midnight(e.timestamp as int, range.start_day as int);
            assert(events@.subrange(0, i + 1).drop_last() =~= events@.subrange(0, i as int));
        }
        if e.kind == EventKind::Push && e.timestamp <= range.end {
            let day = day_of_timestamp(e.timestamp);
            if day >= range.start_day {
                counts.increment(day);
            }
        }
        assert forall|day: int| count_in(counts@, day) <= i + 1 by {
            assert(count_in(before, day) <= i);
        }
        i += 1;
    }
    assert(events@.subrange(0, events.len() as int) =~= events@);
    counts
}

/// Aggregating no events gives no counts, whatever the span.
pub proof fn lemma_aggregate_empty(range: AuditRange)
    ensures
        tally(Seq::<ActivityEvent>::empty(), range) == Map::<int, nat>::empty(),
{
}

/// An event that does not qualify leaves the counts as they are, wherever it
/// stands among the others.
proof fn lemma_inert_event(
    before: Seq<ActivityEvent>,
    e: ActivityEvent,
    after: Seq<ActivityEvent>,
    range: AuditRange,
)
    requires
        !qualifies(e, range),
    ensures
        tally(before + seq![e] + after, range) == tally(before + after, range),
    decreases after.len(),
{
    if after.len() == 0 {
        assert((before + seq![e] + after).drop_last() =~= before);
        assert(before + after =~= before);
    } else {
        let rest = after.drop_last();
        lemma_inert_event(before, e, rest, range);
        assert((before + seq![e] + after).drop_last() =~= before + seq![e] + rest);
        assert((before + after).drop_last() =~= before + rest);
    }
}

/// An event whose instant lies outside the span adds nothing to any day,
/// wherever it stands among the others.
pub proof fn lemma_outside_range_ignored(
    before: Seq<ActivityEvent>,
    e: ActivityEvent,
    after: Seq<ActivityEvent>,
    range: AuditRange,
)
    requires
        !range.contains(e.timestamp as int),
    ensures
        tally(before + seq![e] + after, range) == tally(before + after, range),
{
    lemma_inert_event(before, e, after, range);
}

/// An event of a kind other than a push adds nothing to any day, whatever its
/// instant and wherever it stands among the others.
pub proof fn lemma_other_kinds_ignored(
    before: Seq<ActivityEvent>,
    e: ActivityEvent,
    after: Seq<ActivityEvent>,
    range: AuditRange,
)
    requires
        e.kind != EventKind::Push,
    ensures
        tally(before + seq![e] + after, range) == tally(before + after, range),
{
    lemma_inert_event(before, e, after, range);
}

} // verus!
