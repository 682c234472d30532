//! The monthly aggregator: walks the calendar from the start year through
//! the current date, folds each author's events into per-month records,
//! and decides which months qualify for rendering.

use vstd::prelude::*;
use crate::classify::{
    process_day, spec_apply_day, spec_drain_end, spec_zero_record, MonthlyRecord, RecordModel,
};
use crate::events::{AuthorLine, CheckInEvent};
use crate::time::{
    civil_date_key, date_key, days_in_month, spec_date_key, spec_valid_date, CivilDate,
};
use crate::START_YEAR;

verus! {

/// One author's row in a month's table section.
pub struct MonthRow {
    pub author_id: u64,
    pub record: MonthlyRecord,
}

/// One qualifying month: its label data and one row per author.
pub struct MonthBlock {
    pub year: i32,
    pub month: u8,
    pub rows: Vec<MonthRow>,
}

/// The year of the walk's `n`-th month.
pub open spec fn spec_walk_year(n: int) -> int {
    START_YEAR + n / 12
}

/// The month-of-year of the walk's `n`-th month.
pub open spec fn spec_walk_month(n: int) -> int {
    1 + n % 12
}

/// How many months the walk covers for the given current year.
pub open spec fn spec_month_count(today_year: int) -> int {
    if today_year < START_YEAR {
        0
    } else {
        (today_year - START_YEAR + 1) * 12
    }
}

/// One author's (queue position, record) after folding the days of month
/// (y, m) from day `d` on: invalid calendar dates are skipped, the walk
/// stops at the first date after `tk` (the "today" cutoff), and each
/// remaining date drains its run of events and folds it into the record.
pub open spec fn spec_days_fold(
    s: Seq<CheckInEvent>,
    pos: int,
    rec: RecordModel,
    y: int,
    m: int,
    d: int,
    tk: int,
) -> (int, RecordModel)
    decreases 32 - d,
{
    if d < 1 || d > 31 {
        (pos, rec)
    } else if !spec_valid_date(y, m, d) {
        spec_days_fold(s, pos, rec, y, m, d + 1, tk)
    } else if spec_date_key(y, m, d) > tk {
        (pos, rec)
    } else {
        let e = spec_drain_end(s, pos, spec_date_key(y, m, d));
        spec_days_fold(s, e, spec_apply_day(rec, s.subrange(pos, e)), y, m, d + 1, tk)
    }
}

/// One author's queue position after the walk's first `n` months.
pub open spec fn spec_pos_after(s: Seq<CheckInEvent>, n: int, tk: int) -> int
    decreases n,
{
    if n <= 0 {
        0
    } else {
        spec_days_fold(
            s,
            spec_pos_after(s, n - 1, tk),
            spec_zero_record(),
            spec_walk_year(n - 1),
            spec_walk_month(n - 1),
            1,
            tk,
        ).0
    }
}

/// One author's record for the walk's `n`-th month.
pub open spec fn spec_month_record(s: Seq<CheckInEvent>, n: int, tk: int) -> RecordModel {
    spec_days_fold(
        s,
        spec_pos_after(s, n, tk),
        spec_zero_record(),
        spec_walk_year(n),
        spec_walk_month(n),
        1,
        tk,
    ).1
}

/// The bare event sequences of a timeline, author order kept.
pub open spec fn spec_timelines(lines: Seq<AuthorLine>) -> Seq<Seq<CheckInEvent>> {
    lines.map_values(|l: AuthorLine| l.events@)
}

/// Whether any author has had an event drained within the walk's first
/// `n` months: the quiet-period guard lifts once this holds.
pub open spec fn spec_any_seen(tls: Seq<Seq<CheckInEvent>>, n: int, tk: int) -> bool {
    exists|j: int| 0 <= j < tls.len() && spec_pos_after(tls[j], n, tk) > 0
}

/// A month is emitted when some check-in has been seen by its end and its
/// first day is not in the future.
pub open spec fn spec_month_emitted(tls: Seq<Seq<CheckInEvent>>, n: int, tk: int) -> bool {
    spec_any_seen(tls, n + 1, tk) && spec_date_key(spec_walk_year(n), spec_walk_month(n), 1)
        <= tk
}

/// The walk indices of the emitted months among the first `n_end`, in
/// chronological order.
pub open spec fn spec_emitted_months(tls: Seq<Seq<CheckInEvent>>, n_end: int, tk: int) -> Seq<
    int,
>
    decreases n_end,
{
    if n_end <= 0 {
        Seq::empty()
    } else {
        let rest = spec_emitted_months(tls, n_end - 1, tk);
        if spec_month_emitted(tls, n_end - 1, tk) {
            rest.push(n_end - 1)
        } else {
            rest
        }
    }
}

/// Every emitted index lies within the walked range.
pub proof fn lemma_emitted_months_range(tls: Seq<Seq<CheckInEvent>>, n_end: int, tk: int)
    ensures
        forall|i: int|
            0 <= i < spec_emitted_months(tls, n_end, tk).len() ==> 0 <= #[trigger] spec_emitted_months(
                tls,
                n_end,
                tk,
            )[i] < n_end,
    decreases n_end,
{
    if n_end <= 0 {
    } else {
        lemma_emitted_months_range(tls, n_end - 1, tk);
        let rest = spec_emitted_months(tls, n_end - 1, tk);
        let whole = spec_emitted_months(tls, n_end, tk);
        assert forall|i: int| 0 <= i < whole.len() implies 0 <= #[trigger] whole[i] < n_end by {
            if spec_month_emitted(tls, n_end - 1, tk) {
                assert(whole == rest.push(n_end - 1));
                if i < rest.len() {
                    assert(whole[i] == rest[i]);
                    assert(rest[i] == spec_emitted_months(tls, n_end - 1, tk)[i]);
                } else {
                    assert(whole[i] == n_end - 1);
                }
            } else {
                assert(whole[i] == spec_emitted_months(tls, n_end - 1, tk)[i]);
            }
        }
    }
}

/// The aggregator's full contract over one month block.
pub open spec fn spec_block_matches(
    b: MonthBlock,
    authors: Seq<u64>,
    tls: Seq<Seq<CheckInEvent>>,
    n: int,
    tk: int,
) -> bool {
    &&& b.year as int == spec_walk_year(n)
    &&& b.month as int == spec_walk_month(n)
    &&& b.rows@.len() == authors.len()
    &&& forall|j: int|
        0 <= j < authors.len() ==> {
            &&& (#[trigger] b.rows@[j]).author_id == authors[j]
            &&& b.rows@[j].record@ == spec_month_record(tls[j], n, tk)
        }
}

/// The author ids of a timeline, in order.
pub open spec fn spec_line_authors(lines: Seq<AuthorLine>) -> Seq<u64> {
    lines.map_values(|l: AuthorLine| l.author_id)
}

/// Positions stay within the queue as days are folded.
proof fn lemma_days_fold_pos(
    s: Seq<CheckInEvent>,
    pos: int,
    rec: RecordModel,
    y: int,
    m: int,
    d: int,
    tk: int,
)
    requires
        0 <= pos <= s.len(),
    ensures
        pos <= spec_days_fold(s, pos, rec, y, m, d, tk).0 <= s.len(),
    decreases 32 - d,
{
    if d < 1 || d > 31 {
    } else if !spec_valid_date(y, m, d) {
        lemma_days_fold_pos(s, pos, rec, y, m, d + 1, tk);
    } else if spec_date_key(y, m, d) > tk {
    } else {
        let k = spec_date_key(y, m, d);
        let e = spec_drain_end(s, pos, k);
        crate::classify::lemma_drain_end_range(s, pos, k);
        lemma_days_fold_pos(s, e, spec_apply_day(rec, s.subrange(pos, e)), y, m, d + 1, tk);
    }
}

pub proof fn lemma_pos_after_range(s: Seq<CheckInEvent>, n: int, tk: int)
    ensures
        0 <= spec_pos_after(s, n, tk) <= s.len(),
    decreases n,
{
    if n <= 0 {
    } else {
        lemma_pos_after_range(s, n - 1, tk);
        lemma_days_fold_pos(
            s,
            spec_pos_after(s, n - 1, tk),
            spec_zero_record(),
            spec_walk_year(n - 1),
            spec_walk_month(n - 1),
            1,
            tk,
        );
    }
}

/// Walks the calendar from the start year through `today`, classifying
/// every author's events day by day, and returns the qualifying months in
/// chronological order, each with one record per author (authors in
/// timeline order).
#[verifier::rlimit(60)]
pub fn aggregate(lines: &Vec<AuthorLine>, today: &CivilDate) -> (r: Vec<MonthBlock>)
    requires
        today.valid(),
    ensures
        ({
            let tk = spec_date_key(today.year as int, today.month as int, today.day as int);
            let tls = spec_timelines(lines@);
            let ems = spec_emitted_months(tls, spec_month_count(today.year as int), tk);
            &&& r@.len() == ems.len()
            &&& forall|i: int|
                0 <= i < r@.len() ==> spec_block_matches(
                    #[trigger] r@[i],
                    spec_line_authors(lines@),
                    tls,
                    ems[i],
                    tk,
                )
        }),
{
    let tk: i64 = civil_date_key(today);
    let mut blocks: Vec<MonthBlock> = Vec::new();
    let ghost gtk = spec_date_key(today.year as int, today.month as int, today.day as int);
    let ghost tls = spec_timelines(lines@);
    let ghost auths = spec_line_authors(lines@);
    proof {
        assert(tls.len() == lines@.len());
        assert(forall|j: int| 0 <= j < lines@.len() ==> tls[j] == (#[trigger] lines@[j]).events@);
        assert(forall|j: int|
            0 <= j < lines@.len() ==> auths[j] == (#[trigger] lines@[j]).author_id);
    }
    if today.year < START_YEAR {
        return blocks;
    }
    let month_count: usize = ((today.year - START_YEAR) as usize + 1) * 12;
    let mut positions: Vec<usize> = Vec::new();
    let mut t: usize = 0;
    while t < lines.len()
        invariant
            t <= lines.len(),
            positions@.len() == t,
            forall|j: int| 0 <= j < t ==> positions@[j] == 0,
        decreases lines.len() - t,
    {
        positions.push(0);
        t = t + 1;
    }
    let mut n: usize = 0;
    while n < month_count
        invariant
            n <= month_count,
            month_count as int == spec_month_count(today.year as int),
            START_YEAR <= today.year <= 300000,
            tk == gtk,
            gtk == spec_date_key(today.year as int, today.month as int, today.day as int),
            positions@.len() == lines@.len(),
            forall|j: int|
                0 <= j < lines@.len() ==> (#[trigger] positions@[j]) as int == spec_pos_after(
                    lines@[j].events@,
                    n as int,
                    gtk,
                ),
            forall|j: int|
                0 <= j < lines@.len() ==> (#[trigger] positions@[j]) <= lines@[j].events@.len(),
            tls == spec_timelines(lines@),
            auths == spec_line_authors(lines@),
            tls.len() == lines@.len(),
            auths.len() == lines@.len(),
            forall|j: int| 0 <= j < lines@.len() ==> tls[j] == (#[trigger] lines@[j]).events@,
            forall|j: int|
                0 <= j < lines@.len() ==> auths[j] == (#[trigger] lines@[j]).author_id,
            blocks@.len() == spec_emitted_months(tls, n as int, gtk).len(),
            forall|i: int|
                0 <= i < blocks@.len() ==> spec_block_matches(
                    #[trigger] blocks@[i],
                    auths,
                    tls,
                    spec_emitted_months(tls, n as int, gtk)[i],
                    gtk,
                ),
        decreases month_count - n,
    {
        let y: i32 = START_YEAR + (n / 12) as i32;
        let m: u8 = (n % 12) as u8 + 1;
        proof {
            assert(y as int == spec_walk_year(n as int));
            assert(m as int == spec_walk_month(n as int));
            assert(y <= today.year) by {
                assert((n as int) < (today.year - START_YEAR + 1) * 12);
                assert(n as int / 12 <= today.year - START_YEAR) by (nonlinear_arith)
                    requires
                        (n as int) < (today.year - START_YEAR + 1) * 12,
                        0 <= n as int,
                ;
            }
        }
        let dim: u8 = days_in_month(y, m);
        let mut rows: Vec<MonthRow> = Vec::new();
        let mut new_positions: Vec<usize> = Vec::new();
        let mut j: usize = 0;
        while j < lines.len()
            invariant
                j <= lines.len(),
                positions@.len() == lines@.len(),
                forall|t2: int|
                    0 <= t2 < lines@.len() ==> (#[trigger] positions@[t2]) as int
                        == spec_pos_after(lines@[t2].events@, n as int, gtk),
                forall|t2: int|
                    0 <= t2 < lines@.len() ==> (#[trigger] positions@[t2])
                        <= lines@[t2].events@.len(),
                rows@.len() == j,
                new_positions@.len() == j,
                n < month_count,
                month_count as int == spec_month_count(today.year as int),
                START_YEAR <= y <= today.year <= 300000,
                y as int == spec_walk_year(n as int),
                m as int == spec_walk_month(n as int),
                dim as int == crate::time::spec_days_in_month(y as int, m as int),
                tk == gtk,
                forall|t2: int|
                    0 <= t2 < j ==> (#[trigger] new_positions@[t2]) as int == spec_pos_after(
                        lines@[t2].events@,
                        n as int + 1,
                        gtk,
                    ),
                forall|t2: int|
                    0 <= t2 < j ==> (#[trigger] new_positions@[t2]) <= lines@[t2].events@.len(),
                forall|t2: int|
                    0 <= t2 < j ==> (#[trigger] rows@[t2]).author_id == lines@[t2].author_id,
                forall|t2: int|
                    0 <= t2 < j ==> (#[trigger] rows@[t2]).record@ == spec_month_record(
                        lines@[t2].events@,
                        n as int,
                        gtk,
                    ),
            decreases lines.len() - j,
        {
            let events = &lines[j].events;
            let ghost s = events@;
            let total: usize = lines[j].events.len();
            let mut pos: usize = positions[j];
            let ghost pos0 = pos as int;
            let mut rec = MonthlyRecord::new();
            let mut d: u8 = 1;
            let mut done = false;
            while d <= 31 && !done
                invariant
                    1 <= d <= 32,
                    pos0 <= pos as int <= s.len(),
                    s == lines@[j as int].events@,
                    events@ == s,
                    s.len() == total as int,
                    j < lines@.len(),
                    START_YEAR <= y <= 300000,
                    1 <= m <= 12,
                    dim as int == crate::time::spec_days_in_month(y as int, m as int),
                    tk == gtk,
                    spec_days_fold(s, pos0, spec_zero_record(), y as int, m as int, 1, gtk)
                        == spec_days_fold(
                        s,
                        pos as int,
                        rec@,
                        y as int,
                        m as int,
                        d as int,
                        gtk,
                    ),
                    done ==> spec_days_fold(
                        s,
                        pos as int,
                        rec@,
                        y as int,
                        m as int,
                        d as int,
                        gtk,
                    ) == (pos as int, rec@),
                    rec@.morning <= d - 1,
                    rec@.evening <= d - 1,
                    rec@.alternate <= d - 1,
                    rec@.missed <= d - 1,
                    rec@.proper <= 3 * (d - 1),
                    rec@.infractions <= pos as int,
                decreases 33 - d as int + (if done {
                    0int
                } else {
                    1int
                }),
            {
                if d > dim {
                    proof {
                        assert(!spec_valid_date(y as int, m as int, d as int));
                    }
                    d = d + 1;
                } else {
                    proof {
                        assert(spec_valid_date(y as int, m as int, d as int));
                    }
                    let dk: i64 = date_key(y, m, d);
                    if dk > tk {
                        done = true;
                    } else {
                        let ghost old_rec = rec@;
                        let ghost old_pos = pos as int;
                        pos = process_day(events, pos, dk, &mut rec);
                        proof {
                            assert(spec_days_fold(
                                s,
                                old_pos,
                                old_rec,
                                y as int,
                                m as int,
                                d as int,
                                gtk,
                            ) == spec_days_fold(
                                s,
                                pos as int,
                                rec@,
                                y as int,
                                m as int,
                                d as int + 1,
                                gtk,
                            ));
                        }
                        d = d + 1;
                    }
                }
            }
            proof {
                if !done {
                    assert(spec_days_fold(s, pos as int, rec@, y as int, m as int, 32, gtk) == (
                    pos as int,
                    rec@,
                ));
                }
                assert(spec_days_fold(s, pos0, spec_zero_record(), y as int, m as int, 1, gtk)
                    == (pos as int, rec@));
                assert(pos0 == spec_pos_after(s, n as int, gtk));
                assert(spec_pos_after(s, n as int + 1, gtk) == pos as int);
                assert(spec_month_record(s, n as int, gtk) == rec@);
            }
            new_positions.push(pos);
            rows.push(MonthRow { author_id: lines[j].author_id, record: rec });
            j = j + 1;
        }
        let mut seen = false;
        let mut t3: usize = 0;
        while t3 < new_positions.len()
            invariant
                t3 <= new_positions@.len(),
                new_positions@.len() == lines@.len(),
                forall|t2: int|
                    0 <= t2 < lines@.len() ==> (#[trigger] new_positions@[t2]) as int
                        == spec_pos_after(lines@[t2].events@, n as int + 1, gtk),
                seen == exists|t2: int| 0 <= t2 < t3 && new_positions@[t2] > 0,
            decreases new_positions.len() - t3,
        {
            if new_positions[t3] > 0 {
                seen = true;
            }
            t3 = t3 + 1;
        }
        proof {
            if seen {
                let t2 = choose|t2: int| 0 <= t2 < lines@.len() && new_positions@[t2] > 0;
                assert(spec_pos_after(tls[t2], n as int + 1, gtk) > 0);
            }
            if spec_any_seen(tls, n as int + 1, gtk) {
                let j2 = choose|j2: int|
                    0 <= j2 < tls.len() && spec_pos_after(tls[j2], n as int + 1, gtk) > 0;
                assert(new_positions@[j2] > 0);
            }
            assert(seen == spec_any_seen(tls, n as int + 1, gtk));
        }
        let first_key: i64 = date_key(y, m, 1);
        proof {
            assert(spec_emitted_months(tls, n as int + 1, gtk) == if spec_month_emitted(
                tls,
                n as int,
                gtk,
            ) {
                spec_emitted_months(tls, n as int, gtk).push(n as int)
            } else {
                spec_emitted_months(tls, n as int, gtk)
            });
        }
        if seen && first_key <= tk {
            blocks.push(MonthBlock { year: y, month: m, rows });
        }
        positions = new_positions;
        n = n + 1;
    }
    blocks
}

/// Folding days never decreases any counter, and the `proper` increase
/// is bounded by the combined increase of the three category counters.
proof fn lemma_days_fold_proper(
    s: Seq<CheckInEvent>,
    pos: int,
    rec: RecordModel,
    y: int,
    m: int,
    d: int,
    tk: int,
)
    ensures
        ({
            let r2 = spec_days_fold(s, pos, rec, y, m, d, tk).1;
            &&& rec.morning <= r2.morning
            &&& rec.evening <= r2.evening
            &&& rec.alternate <= r2.alternate
            &&& rec.missed <= r2.missed
            &&& rec.proper <= r2.proper
            &&& rec.infractions <= r2.infractions
            &&& r2.proper - rec.proper <= (r2.morning - rec.morning) + (r2.evening - rec.evening)
                + (r2.alternate - rec.alternate)
        }),
    decreases 32 - d,
{
    if d < 1 || d > 31 {
    } else if !spec_valid_date(y, m, d) {
        lemma_days_fold_proper(s, pos, rec, y, m, d + 1, tk);
    } else if spec_date_key(y, m, d) > tk {
    } else {
        let k = spec_date_key(y, m, d);
        let e = spec_drain_end(s, pos, k);
        let day = s.subrange(pos, e);
        let rec2 = spec_apply_day(rec, day);
        crate::classify::lemma_proper_bound_day(rec, day);
        crate::classify::lemma_filter_nonneg(day);
        lemma_days_fold_proper(s, e, rec2, y, m, d + 1, tk);
    }
}

/// Proper-count bound: in any month's record, `proper` never exceeds the
/// sum of the three category counters, hence never three times that sum;
/// per day it is bounded by the number of categories set that day.
pub proof fn lemma_month_proper_bound(s: Seq<CheckInEvent>, n: int, tk: int)
    ensures
        ({
            let r = spec_month_record(s, n, tk);
            &&& 0 <= r.morning
            &&& 0 <= r.evening
            &&& 0 <= r.alternate
            &&& r.proper <= r.morning + r.evening + r.alternate
            &&& r.proper <= 3 * (r.morning + r.evening + r.alternate)
        }),
{
    lemma_days_fold_proper(
        s,
        spec_pos_after(s, n, tk),
        spec_zero_record(),
        spec_walk_year(n),
        spec_walk_month(n),
        1,
        tk,
    );
}

/// The queue position never moves backwards as months are folded.
pub proof fn lemma_pos_after_monotone(s: Seq<CheckInEvent>, n1: int, n2: int, tk: int)
    requires
        n1 <= n2,
    ensures
        spec_pos_after(s, n1, tk) <= spec_pos_after(s, n2, tk),
    decreases n2 - n1,
{
    if n2 <= n1 {
    } else if n2 <= 0 {
    } else {
        lemma_pos_after_monotone(s, n1, n2 - 1, tk);
        lemma_pos_after_range(s, n2 - 1, tk);
        lemma_days_fold_pos(
            s,
            spec_pos_after(s, n2 - 1, tk),
            spec_zero_record(),
            spec_walk_year(n2 - 1),
            spec_walk_month(n2 - 1),
            1,
            tk,
        );
    }
}

/// Completeness: once any month is emitted, every later month whose
/// first day is not in the future is emitted as well — and an emitted
/// month's block carries one record for every author (see `aggregate`).
pub proof fn lemma_emission_upward(tls: Seq<Seq<CheckInEvent>>, n1: int, n2: int, tk: int)
    requires
        spec_month_emitted(tls, n1, tk),
        n1 <= n2,
        spec_date_key(spec_walk_year(n2), spec_walk_month(n2), 1) <= tk,
    ensures
        spec_month_emitted(tls, n2, tk),
{
    let j = choose|j: int| 0 <= j < tls.len() && spec_pos_after(tls[j], n1 + 1, tk) > 0;
    lemma_pos_after_monotone(tls[j], n1 + 1, n2 + 1, tk);
    assert(spec_pos_after(tls[j], n2 + 1, tk) > 0);
}

/// An emitted month within the walked range appears in the emitted list.
pub proof fn lemma_emitted_contains(tls: Seq<Seq<CheckInEvent>>, n: int, n_end: int, tk: int)
    requires
        0 <= n < n_end,
        spec_month_emitted(tls, n, tk),
    ensures
        spec_emitted_months(tls, n_end, tk).contains(n),
    decreases n_end,
{
    let rest = spec_emitted_months(tls, n_end - 1, tk);
    let whole = spec_emitted_months(tls, n_end, tk);
    if n == n_end - 1 {
        assert(whole == rest.push(n));
        assert(whole[whole.len() - 1] == n);
    } else {
        lemma_emitted_contains(tls, n, n_end - 1, tk);
        let i = choose|i: int| 0 <= i < rest.len() && rest[i] == n;
        assert(whole[i] == n);
    }
}

/// The direct per-month record: each day's events taken straight from
/// the whole queue by a date filter, no position threading.
pub open spec fn spec_days_direct(
    s: Seq<CheckInEvent>,
    rec: RecordModel,
    y: int,
    m: int,
    d: int,
    tk: int,
) -> RecordModel
    decreases 32 - d,
{
    if d < 1 || d > 31 {
        rec
    } else if !spec_valid_date(y, m, d) {
        spec_days_direct(s, rec, y, m, d + 1, tk)
    } else if spec_date_key(y, m, d) > tk {
        rec
    } else {
        let day = s.filter(
            |e: CheckInEvent| crate::time::spec_stamp_date_key(e.local) == spec_date_key(y, m, d),
        );
        spec_days_direct(s, spec_apply_day(rec, day), y, m, d + 1, tk)
    }
}

/// The direct record of the walk's `n`-th month.
pub open spec fn spec_month_record_direct(s: Seq<CheckInEvent>, n: int, tk: int) -> RecordModel {
    spec_days_direct(s, spec_zero_record(), spec_walk_year(n), spec_walk_month(n), 1, tk)
}

/// The traversal invariant at a queue position: everything before it is
/// dated before `k`, everything from it on is dated at or after `k`.
pub open spec fn spec_inv_at(s: Seq<CheckInEvent>, pos: int, k: int) -> bool {
    &&& forall|i: int|
        0 <= i < pos ==> crate::time::spec_stamp_date_key((#[trigger] s[i]).local) < k
    &&& forall|i: int|
        pos <= i < s.len() ==> crate::time::spec_stamp_date_key((#[trigger] s[i]).local) >= k
}

/// The queue is sorted by date and every stamp in it is a real calendar
/// date at or after the walk's first day.
pub open spec fn spec_walkable(s: Seq<CheckInEvent>) -> bool {
    &&& forall|p: int, q: int|
        0 <= p < q < s.len() ==> crate::time::spec_stamp_date_key((#[trigger] s[p]).local)
            <= crate::time::spec_stamp_date_key((#[trigger] s[q]).local)
    &&& forall|i: int| 0 <= i < s.len() ==> (#[trigger] s[i]).local.valid()
    &&& forall|i: int|
        0 <= i < s.len() ==> crate::time::spec_stamp_date_key((#[trigger] s[i]).local)
            >= spec_date_key(START_YEAR as int, 1, 1)
}

/// How one walk month's label relates to the next.
proof fn lemma_walk_step(n: int)
    requires
        n >= 0,
    ensures
        1 <= spec_walk_month(n) <= 12,
        spec_walk_year(n) >= START_YEAR,
        spec_walk_month(n) < 12 ==> spec_walk_year(n + 1) == spec_walk_year(n)
            && spec_walk_month(n + 1) == spec_walk_month(n) + 1,
        spec_walk_month(n) == 12 ==> spec_walk_year(n + 1) == spec_walk_year(n) + 1
            && spec_walk_month(n + 1) == 1,
{
    let q = n / 12;
    let r = n % 12;
    assert(n == 12 * q + r && 0 <= r < 12 && q >= 0) by (nonlinear_arith)
        requires
            n >= 0,
            q == n / 12,
            r == n % 12,
    ;
    if r < 11 {
        assert((n + 1) / 12 == q && (n + 1) % 12 == r + 1) by (nonlinear_arith)
            requires
                n + 1 == 12 * q + (r + 1),
                0 <= r + 1 < 12,
        ;
    } else {
        assert((n + 1) / 12 == q + 1 && (n + 1) % 12 == 0) by (nonlinear_arith)
            requires
                n + 1 == 12 * (q + 1),
        ;
    }
}

/// Within one month the drained walk computes the same record as the
/// date-filtered days, and hands the traversal invariant on to the end
/// of the month (unless the month runs past the current date).
proof fn lemma_days_fold_direct(
    s: Seq<CheckInEvent>,
    pos: int,
    rec: RecordModel,
    y: int,
    m: int,
    d: int,
    tk: int,
)
    requires
        spec_walkable(s),
        0 <= pos <= s.len(),
        -300000 <= y <= 300000,
        1 <= m <= 12,
        1 <= d <= 32,
        spec_inv_at(s, pos, spec_date_key(y, m, d)),
    ensures
        spec_days_fold(s, pos, rec, y, m, d, tk).1 == spec_days_direct(s, rec, y, m, d, tk),
        spec_date_key(y, m, 31) > tk || spec_inv_at(
            s,
            spec_days_fold(s, pos, rec, y, m, d, tk).0,
            spec_date_key(y, m, 32),
        ),
    decreases 32 - d,
{
    if d > 31 {
    } else if !spec_valid_date(y, m, d) {
        assert forall|i: int|
            pos <= i < s.len() implies crate::time::spec_stamp_date_key((#[trigger] s[i]).local)
            >= spec_date_key(y, m, d + 1) by {
            crate::time::lemma_key_not_invalid_day(s[i].local, y, m, d);
        }
        lemma_days_fold_direct(s, pos, rec, y, m, d + 1, tk);
        // a filter that matches nothing leaves the direct record alone
        // (the drained walk skips the day outright)
    } else if spec_date_key(y, m, d) > tk {
        assert(spec_date_key(y, m, 31) >= spec_date_key(y, m, d));
    } else {
        let k = spec_date_key(y, m, d);
        let e = spec_drain_end(s, pos, k);
        crate::classify::lemma_drain_end_range(s, pos, k);
        crate::classify::lemma_drain_extracts_day(s, pos, k);
        let day = s.filter(
            |ev: CheckInEvent| crate::time::spec_stamp_date_key(ev.local) == spec_date_key(
                y,
                m,
                d,
            ),
        );
        assert(s.subrange(pos, e) == day);
        assert forall|i: int|
            e <= i < s.len() implies crate::time::spec_stamp_date_key((#[trigger] s[i]).local)
            >= spec_date_key(y, m, d + 1) by {
            if i == e {
                assert(crate::time::spec_stamp_date_key(s[e].local) != k);
            } else {
                assert(crate::time::spec_stamp_date_key(s[e].local) != k);
                assert(crate::time::spec_stamp_date_key(s[i].local)
                    >= crate::time::spec_stamp_date_key(s[e].local));
            }
        }
        assert(spec_inv_at(s, e, spec_date_key(y, m, d + 1)));
        lemma_days_fold_direct(s, e, spec_apply_day(rec, day), y, m, d + 1, tk);
    }
}

/// The traversal invariant holds at the start of every walk month (or
/// the month lies wholly past the current date).
proof fn lemma_month_inv(s: Seq<CheckInEvent>, n: int, tk: int)
    requires
        spec_walkable(s),
        n >= 0,
        spec_walk_year(n) <= 300000,
    ensures
        spec_date_key(spec_walk_year(n), spec_walk_month(n), 1) > tk || spec_inv_at(
            s,
            spec_pos_after(s, n, tk),
            spec_date_key(spec_walk_year(n), spec_walk_month(n), 1),
        ),
    decreases n,
{
    lemma_walk_step(n);
    if n == 0 {
        assert(spec_walk_year(0) == START_YEAR as int);
        assert(spec_walk_month(0) == 1);
    } else {
        lemma_walk_step(n - 1);
        let y = spec_walk_year(n - 1);
        let m = spec_walk_month(n - 1);
        assert(spec_walk_year(n - 1) <= spec_walk_year(n));
        lemma_month_inv(s, n - 1, tk);
        let pos = spec_pos_after(s, n - 1, tk);
        lemma_pos_after_range(s, n - 1, tk);
        let key1 = spec_date_key(y, m, 1);
        let key1n = spec_date_key(spec_walk_year(n), spec_walk_month(n), 1);
        assert(key1n > spec_date_key(y, m, 31));
        if key1 > tk {
            assert(spec_days_fold(s, pos, spec_zero_record(), y, m, 1, tk) == (
                pos,
                spec_zero_record(),
            ));
            assert(key1n > key1);
        } else {
            lemma_days_fold_direct(s, pos, spec_zero_record(), y, m, 1, tk);
            let pos2 = spec_pos_after(s, n, tk);
            assert(pos2 == spec_days_fold(s, pos, spec_zero_record(), y, m, 1, tk).0);
            if spec_date_key(y, m, 31) > tk {
                assert(key1n > tk);
            } else {
                assert(spec_inv_at(s, pos2, spec_date_key(y, m, 32)));
                lemma_pos_after_range(s, n, tk);
                assert forall|i: int|
                    pos2 <= i < s.len() implies crate::time::spec_stamp_date_key(
                    (#[trigger] s[i]).local,
                ) >= key1n by {
                    assert(crate::time::spec_stamp_date_key(s[i].local) > spec_date_key(
                        y,
                        m,
                        31,
                    ));
                    crate::time::lemma_key_month_step(s[i].local, y, m);
                }
                assert(key1n >= spec_date_key(y, m, 32));
                assert(spec_inv_at(s, pos2, key1n));
            }
        }
    }
}

/// The safety theorem behind the prefix-draining walk: on a sorted queue
/// of real calendar dates none earlier than the walk's first day, every
/// month's drained record equals the record computed from the queue's
/// date-filtered days — each event counted exactly on its own date.
pub proof fn lemma_month_record_via_filter(s: Seq<CheckInEvent>, n: int, tk: int)
    requires
        spec_walkable(s),
        n >= 0,
        spec_walk_year(n) <= 300000,
    ensures
        spec_month_record(s, n, tk) == spec_month_record_direct(s, n, tk),
{
    lemma_walk_step(n);
    lemma_month_inv(s, n, tk);
    let y = spec_walk_year(n);
    let m = spec_walk_month(n);
    let pos = spec_pos_after(s, n, tk);
    lemma_pos_after_range(s, n, tk);
    if spec_date_key(y, m, 1) > tk {
        assert(spec_days_fold(s, pos, spec_zero_record(), y, m, 1, tk).1 == spec_zero_record());
        assert(spec_days_direct(s, spec_zero_record(), y, m, 1, tk) == spec_zero_record());
    } else {
        lemma_days_fold_direct(s, pos, spec_zero_record(), y, m, 1, tk);
    }
}

/// The pipeline's buckets meet the walk's hypotheses: a sorted bucket of
/// one author's events is walkable whenever every event carries a real
/// calendar date no earlier than the walk's first day.
pub proof fn lemma_timeline_walkable(evts: Seq<CheckInEvent>, a: u64)
    requires
        forall|i: int| 0 <= i < evts.len() ==> (#[trigger] evts[i]).local.valid(),
        forall|i: int|
            0 <= i < evts.len() ==> crate::time::spec_stamp_date_key((#[trigger] evts[i]).local)
                >= spec_date_key(START_YEAR as int, 1, 1),
    ensures
        spec_walkable(
            crate::events::spec_sort_events(crate::events::spec_author_events(evts, a)),
        ),
{
    let mine = crate::events::spec_author_events(evts, a);
    let pred = |e: CheckInEvent| e.author_id == a;
    assert forall|i: int| 0 <= i < mine.len() implies (#[trigger] mine[i]).local.valid()
        && crate::time::spec_stamp_date_key(mine[i].local) >= spec_date_key(
        START_YEAR as int,
        1,
        1,
    ) by {
        assert(mine.contains(mine[i]));
        evts.lemma_filter_contains_rev(pred, mine[i]);
        assert(evts.contains(mine[i]));
        let t = choose|t: int| 0 <= t < evts.len() && evts[t] == mine[i];
        assert(evts[t].local.valid());
    }
    let sorted = crate::events::spec_sort_events(mine);
    crate::events::lemma_sort_events_sorted(mine);
    crate::events::lemma_sort_events_membership(mine);
    crate::events::lemma_sort_events_dates_sorted(mine);
    assert forall|i: int| 0 <= i < sorted.len() implies (#[trigger] sorted[i]).local.valid()
        && crate::time::spec_stamp_date_key(sorted[i].local) >= spec_date_key(
        START_YEAR as int,
        1,
        1,
    ) by {
        assert(mine.contains(sorted[i]));
        let t = choose|t: int| 0 <= t < mine.len() && mine[t] == sorted[i];
        assert(mine[t].local.valid());
    }
}

} // verus!
