//! Classifying one calendar day's events for one author, and the
//! per-month counters they accumulate into.

use vstd::prelude::*;
use crate::events::CheckInEvent;
use crate::time::spec_stamp_date_key;
use crate::time::stamp_date_key;
use crate::{EVENING_HOUR, MORNING_HOUR, REQUIRED_MINUTE};

verus! {

/// The per-(author, month) counters.
#[derive(Clone, Copy, Debug, PartialEq, Eq, Structural)]
pub struct MonthlyRecord {
    pub morning_count: u64,
    pub evening_count: u64,
    pub proper_count: u64,
    pub missed_days: u64,
    pub infraction_count: u64,
    pub alternate_count: u64,
}

/// The mathematical model of a `MonthlyRecord`.
pub ghost struct RecordModel {
    pub morning: int,
    pub evening: int,
    pub proper: int,
    pub missed: int,
    pub infractions: int,
    pub alternate: int,
}

impl View for MonthlyRecord {
    type V = RecordModel;

    open spec fn view(&self) -> RecordModel {
        RecordModel {
            morning: self.morning_count as int,
            evening: self.evening_count as int,
            proper: self.proper_count as int,
            missed: self.missed_days as int,
            infractions: self.infraction_count as int,
            alternate: self.alternate_count as int,
        }
    }
}

pub open spec fn spec_zero_record() -> RecordModel {
    RecordModel { morning: 0, evening: 0, proper: 0, missed: 0, infractions: 0, alternate: 0 }
}

impl MonthlyRecord {
    /// A record with every counter at zero.
    pub fn new() -> (r: MonthlyRecord)
        ensures
            r@ == spec_zero_record(),
    {
        MonthlyRecord {
            morning_count: 0,
            evening_count: 0,
            proper_count: 0,
            missed_days: 0,
            infraction_count: 0,
            alternate_count: 0,
        }
    }
}

/// The event's local minute meets the required minute; otherwise the
/// event is an infraction.
pub open spec fn spec_on_time(e: CheckInEvent) -> bool {
    e.local.minute == REQUIRED_MINUTE
}

pub open spec fn spec_is_morning(e: CheckInEvent) -> bool {
    spec_on_time(e) && e.local.hour == MORNING_HOUR
}

pub open spec fn spec_is_evening(e: CheckInEvent) -> bool {
    spec_on_time(e) && e.local.hour == EVENING_HOUR
}

pub open spec fn spec_is_alternate(e: CheckInEvent) -> bool {
    spec_on_time(e) && e.local.hour != MORNING_HOUR && e.local.hour != EVENING_HOUR
}

pub open spec fn spec_morning_set(evts: Seq<CheckInEvent>) -> bool {
    exists|i: int| 0 <= i < evts.len() && spec_is_morning(evts[i])
}

pub open spec fn spec_evening_set(evts: Seq<CheckInEvent>) -> bool {
    exists|i: int| 0 <= i < evts.len() && spec_is_evening(evts[i])
}

pub open spec fn spec_alternate_set(evts: Seq<CheckInEvent>) -> bool {
    exists|i: int| 0 <= i < evts.len() && spec_is_alternate(evts[i])
}

pub open spec fn spec_morning_proper(evts: Seq<CheckInEvent>) -> bool {
    exists|i: int| 0 <= i < evts.len() && spec_is_morning(evts[i]) && evts[i].proper
}

pub open spec fn spec_evening_proper(evts: Seq<CheckInEvent>) -> bool {
    exists|i: int| 0 <= i < evts.len() && spec_is_evening(evts[i]) && evts[i].proper
}

pub open spec fn spec_alternate_proper(evts: Seq<CheckInEvent>) -> bool {
    exists|i: int| 0 <= i < evts.len() && spec_is_alternate(evts[i]) && evts[i].proper
}

/// How many of the day's events break the required minute.
pub open spec fn spec_infractions(evts: Seq<CheckInEvent>) -> int {
    evts.filter(|e: CheckInEvent| !spec_on_time(e)).len() as int
}

/// A day is missed when no event of the day registered any category.
pub open spec fn spec_day_missed(evts: Seq<CheckInEvent>) -> bool {
    !spec_morning_set(evts) && !spec_evening_set(evts) && !spec_alternate_set(evts)
}

pub open spec fn b2i(b: bool) -> int {
    if b {
        1
    } else {
        0
    }
}

/// The record after folding in one day's events: each registered category
/// counts once, `proper` counts once per category with a proper event,
/// a day with no category counts as missed, and every off-minute event
/// counts as an infraction (also on missed days).
pub open spec fn spec_apply_day(r: RecordModel, evts: Seq<CheckInEvent>) -> RecordModel {
    RecordModel {
        morning: r.morning + b2i(spec_morning_set(evts)),
        evening: r.evening + b2i(spec_evening_set(evts)),
        alternate: r.alternate + b2i(spec_alternate_set(evts)),
        proper: r.proper + b2i(spec_morning_proper(evts)) + b2i(spec_evening_proper(evts)) + b2i(
            spec_alternate_proper(evts),
        ),
        missed: r.missed + b2i(spec_day_missed(evts)),
        infractions: r.infractions + spec_infractions(evts),
    }
}

/// Missed and counted are exclusive: folding in a day increments
/// `missed` exactly when no category was registered that day, and a
/// missed day leaves every category and proper counter unchanged.
pub proof fn lemma_missed_exclusive(r: RecordModel, evts: Seq<CheckInEvent>)
    ensures
        (spec_apply_day(r, evts).missed == r.missed + 1) <==> spec_day_missed(evts),
        spec_day_missed(evts) ==> {
            &&& spec_apply_day(r, evts).morning == r.morning
            &&& spec_apply_day(r, evts).evening == r.evening
            &&& spec_apply_day(r, evts).alternate == r.alternate
            &&& spec_apply_day(r, evts).proper == r.proper
        },
        !spec_day_missed(evts) ==> spec_apply_day(r, evts).missed == r.missed,
{
    if spec_day_missed(evts) {
        if spec_morning_proper(evts) {
            let i = choose|i: int|
                0 <= i < evts.len() && spec_is_morning(evts[i]) && evts[i].proper;
            assert(spec_morning_set(evts));
        }
        if spec_evening_proper(evts) {
            let i = choose|i: int|
                0 <= i < evts.len() && spec_is_evening(evts[i]) && evts[i].proper;
            assert(spec_evening_set(evts));
        }
        if spec_alternate_proper(evts) {
            let i = choose|i: int|
                0 <= i < evts.len() && spec_is_alternate(evts[i]) && evts[i].proper;
            assert(spec_alternate_set(evts));
        }
    }
}

/// Per day, the `proper` increment is bounded by the number of distinct
/// categories registered that day, which is at most three.
pub proof fn lemma_proper_bound_day(r: RecordModel, evts: Seq<CheckInEvent>)
    ensures
        spec_apply_day(r, evts).proper - r.proper <= b2i(spec_morning_set(evts)) + b2i(
            spec_evening_set(evts),
        ) + b2i(spec_alternate_set(evts)),
        spec_apply_day(r, evts).proper - r.proper <= 3,
{
    lemma_missed_exclusive(r, evts);
    if spec_morning_proper(evts) {
        let i = choose|i: int| 0 <= i < evts.len() && spec_is_morning(evts[i]) && evts[i].proper;
        assert(spec_morning_set(evts));
    }
    if spec_evening_proper(evts) {
        let i = choose|i: int| 0 <= i < evts.len() && spec_is_evening(evts[i]) && evts[i].proper;
        assert(spec_evening_set(evts));
    }
    if spec_alternate_proper(evts) {
        let i = choose|i: int|
            0 <= i < evts.len() && spec_is_alternate(evts[i]) && evts[i].proper;
        assert(spec_alternate_set(evts));
    }
}

/// The first position at or after `pos` whose event is not dated `k`:
/// the end of the maximal run of events of day `k`.
pub open spec fn spec_drain_end(s: Seq<CheckInEvent>, pos: int, k: int) -> int
    decreases s.len() - pos,
{
    if 0 <= pos && pos < s.len() && spec_stamp_date_key(s[pos].local) == k {
        spec_drain_end(s, pos + 1, k)
    } else {
        pos
    }
}

pub proof fn lemma_drain_end_range(s: Seq<CheckInEvent>, pos: int, k: int)
    requires
        0 <= pos <= s.len(),
    ensures
        pos <= spec_drain_end(s, pos, k) <= s.len(),
        forall|t: int|
            pos <= t < spec_drain_end(s, pos, k) ==> spec_stamp_date_key(#[trigger] s[t].local)
                == k,
        spec_drain_end(s, pos, k) < s.len() ==> spec_stamp_date_key(
            s[spec_drain_end(s, pos, k)].local,
        ) != k,
    decreases s.len() - pos,
{
    if pos < s.len() && spec_stamp_date_key(s[pos].local) == k {
        lemma_drain_end_range(s, pos + 1, k);
    }
}

/// Extracts from the sorted queue the maximal run of events dated
/// `day_key` starting at `pos`, classifies them, and folds the day into
/// the record. Returns the new queue position.
pub fn process_day(events: &Vec<CheckInEvent>, pos: usize, day_key: i64, rec: &mut MonthlyRecord)
    -> (new_pos: usize)
    requires
        pos <= events@.len(),
        old(rec)@.morning < 1000,
        old(rec)@.evening < 1000,
        old(rec)@.alternate < 1000,
        old(rec)@.proper < 3000,
        old(rec)@.missed < 1000,
        old(rec)@.infractions + (events@.len() - pos) <= u64::MAX,
    ensures
        new_pos as int == spec_drain_end(events@, pos as int, day_key as int),
        pos <= new_pos <= events@.len(),
        final(rec)@ == spec_apply_day(old(rec)@, events@.subrange(pos as int, new_pos as int)),
{
    let mut end: usize = pos;
    let mut morning = false;
    let mut evening = false;
    let mut alternate = false;
    let mut morning_proper = false;
    let mut evening_proper = false;
    let mut alternate_proper = false;
    let mut infractions: u64 = 0;
    proof {
        assert(events@.subrange(pos as int, pos as int) =~= Seq::<CheckInEvent>::empty());
        reveal_with_fuel(Seq::filter, 2);
    }
    while end < events.len() && stamp_date_key(&events[end].local) == day_key
        invariant
            pos <= end <= events@.len(),
            spec_drain_end(events@, pos as int, day_key as int) == spec_drain_end(
                events@,
                end as int,
                day_key as int,
            ),
            morning == spec_morning_set(events@.subrange(pos as int, end as int)),
            evening == spec_evening_set(events@.subrange(pos as int, end as int)),
            alternate == spec_alternate_set(events@.subrange(pos as int, end as int)),
            morning_proper == spec_morning_proper(events@.subrange(pos as int, end as int)),
            evening_proper == spec_evening_proper(events@.subrange(pos as int, end as int)),
            alternate_proper == spec_alternate_proper(events@.subrange(pos as int, end as int)),
            infractions as int == spec_infractions(events@.subrange(pos as int, end as int)),
            infractions <= end - pos,
        decreases events@.len() - end,
    {
        let e = events[end];
        proof {
            reveal_with_fuel(Seq::filter, 2);
            let sub = events@.subrange(pos as int, end as int);
            let sub2 = events@.subrange(pos as int, end as int + 1);
            assert(sub2 =~= sub.push(events@[end as int]));
            assert(forall|i: int| 0 <= i < sub.len() ==> sub2[i] == sub[i]);
            assert(sub2[sub.len() as int] == events@[end as int]);
            Seq::<CheckInEvent>::filter_distributes_over_add(
                sub,
                seq![events@[end as int]],
                |e: CheckInEvent| !spec_on_time(e),
            );
            assert(sub2 =~= sub + seq![events@[end as int]]);
            assert(seq![events@[end as int]].drop_last() =~= Seq::<CheckInEvent>::empty());
            if spec_morning_set(sub2) {
                let i = choose|i: int| 0 <= i < sub2.len() && spec_is_morning(sub2[i]);
                if i < sub.len() {
                    assert(spec_is_morning(sub[i]));
                }
            }
            if spec_evening_set(sub2) {
                let i = choose|i: int| 0 <= i < sub2.len() && spec_is_evening(sub2[i]);
                if i < sub.len() {
                    assert(spec_is_evening(sub[i]));
                }
            }
            if spec_alternate_set(sub2) {
                let i = choose|i: int| 0 <= i < sub2.len() && spec_is_alternate(sub2[i]);
                if i < sub.len() {
                    assert(spec_is_alternate(sub[i]));
                }
            }
            if spec_morning_proper(sub2) {
                let i = choose|i: int|
                    0 <= i < sub2.len() && spec_is_morning(sub2[i]) && sub2[i].proper;
                if i < sub.len() {
                    assert(spec_is_morning(sub[i]) && sub[i].proper);
                }
            }
            if spec_evening_proper(sub2) {
                let i = choose|i: int|
                    0 <= i < sub2.len() && spec_is_evening(sub2[i]) && sub2[i].proper;
                if i < sub.len() {
                    assert(spec_is_evening(sub[i]) && sub[i].proper);
                }
            }
            if spec_alternate_proper(sub2) {
                let i = choose|i: int|
                    0 <= i < sub2.len() && spec_is_alternate(sub2[i]) && sub2[i].proper;
                if i < sub.len() {
                    assert(spec_is_alternate(sub[i]) && sub[i].proper);
                }
            }
        }
        if e.local.minute != REQUIRED_MINUTE {
            infractions = infractions + 1;
        } else if e.local.hour == MORNING_HOUR {
            morning = true;
            if e.proper {
                morning_proper = true;
            }
        } else if e.local.hour == EVENING_HOUR {
            evening = true;
            if e.proper {
                evening_proper = true;
            }
        } else {
            alternate = true;
            if e.proper {
                alternate_proper = true;
            }
        }
        end = end + 1;
    }
    proof {
        if end < events@.len() {
            assert(spec_drain_end(events@, end as int, day_key as int) == end as int);
        }
        let day = events@.subrange(pos as int, end as int);
        lemma_missed_exclusive(old(rec)@, day);
    }
    if !morning && !evening && !alternate {
        rec.missed_days = rec.missed_days + 1;
        rec.infraction_count = rec.infraction_count + infractions;
    } else {
        if morning {
            rec.morning_count = rec.morning_count + 1;
        }
        if evening {
            rec.evening_count = rec.evening_count + 1;
        }
        if alternate {
            rec.alternate_count = rec.alternate_count + 1;
        }
        if morning_proper {
            rec.proper_count = rec.proper_count + 1;
        }
        if evening_proper {
            rec.proper_count = rec.proper_count + 1;
        }
        if alternate_proper {
            rec.proper_count = rec.proper_count + 1;
        }
        rec.infraction_count = rec.infraction_count + infractions;
    }
    proof {
        let day = events@.subrange(pos as int, end as int);
        if morning_proper {
            assert(spec_morning_set(day));
        }
        if evening_proper {
            assert(spec_evening_set(day));
        }
        if alternate_proper {
            assert(spec_alternate_set(day));
        }
    }
    end
}

/// The infraction count of a day is non-negative.
pub proof fn lemma_filter_nonneg(evts: Seq<CheckInEvent>)
    ensures
        0 <= spec_infractions(evts),
{
}

/// A filter whose matches are exactly a contiguous index range picks out
/// exactly that subrange.
proof fn lemma_filter_contiguous(
    s: Seq<CheckInEvent>,
    lo: int,
    hi: int,
    pred: spec_fn(CheckInEvent) -> bool,
)
    requires
        0 <= lo <= hi <= s.len(),
        forall|i: int| 0 <= i < s.len() ==> (pred(#[trigger] s[i]) <==> lo <= i < hi),
    ensures
        s.filter(pred) == s.subrange(lo, hi),
    decreases s.len(),
{
    reveal_with_fuel(Seq::filter, 2);
    if s.len() == 0 {
        assert(s.filter(pred) =~= s.subrange(lo, hi));
    } else {
        let s2 = s.drop_last();
        let last = s.last();
        if hi == s.len() && lo < hi {
            assert(pred(s[s.len() - 1]));
            lemma_filter_contiguous(s2, lo, hi - 1, pred);
            assert(s.filter(pred) == s2.filter(pred).push(last));
            assert(s2.subrange(lo, hi - 1).push(last) =~= s.subrange(lo, hi));
        } else {
            let lo2 = if lo >= s.len() {
                s.len() - 1
            } else {
                lo
            };
            let hi2 = if hi >= s.len() {
                s.len() - 1
            } else {
                hi
            };
            assert(!pred(s[s.len() - 1]));
            lemma_filter_contiguous(s2, lo2, hi2, pred);
            assert(s.filter(pred) == s2.filter(pred));
            assert(s2.subrange(lo2, hi2) =~= s.subrange(lo, hi));
        }
    }
}

/// The safety claim behind day extraction: when the queue is sorted by
/// date, every event before `pos` is dated before the target and every
/// event from `pos` on is dated at or after it (earlier dates already
/// consumed, dates processed in ascending order), the drained prefix
/// holds all and only the events of the target date.
pub proof fn lemma_drain_extracts_day(s: Seq<CheckInEvent>, pos: int, k: int)
    requires
        0 <= pos <= s.len(),
        forall|p: int, q: int|
            0 <= p < q < s.len() ==> spec_stamp_date_key(#[trigger] s[p].local)
                <= spec_stamp_date_key(#[trigger] s[q].local),
        forall|i: int| 0 <= i < pos ==> spec_stamp_date_key(#[trigger] s[i].local) < k,
        forall|i: int| pos <= i < s.len() ==> spec_stamp_date_key(#[trigger] s[i].local) >= k,
    ensures
        s.subrange(pos, spec_drain_end(s, pos, k)) == s.filter(
            |e: CheckInEvent| spec_stamp_date_key(e.local) == k,
        ),
{
    let e = spec_drain_end(s, pos, k);
    lemma_drain_end_range(s, pos, k);
    assert(e < s.len() ==> spec_stamp_date_key(s[e].local) != k);
    assert forall|i: int|
        0 <= i < s.len() implies (spec_stamp_date_key(#[trigger] s[i].local) == k <==> pos <= i
        < e) by {
        if i >= e && e < s.len() {
            assert(spec_stamp_date_key(s[e].local) > k);
            if i > e {
                assert(spec_stamp_date_key(s[i].local) >= spec_stamp_date_key(s[e].local));
            }
        }
    }
    lemma_filter_contiguous(s, pos, e, |x: CheckInEvent| spec_stamp_date_key(x.local) == k);
}

} // verus!
