//! The report pipeline: normalize, group, sort, aggregate, render.

use vstd::prelude::*;
use crate::aggregate::{
    aggregate, lemma_emitted_months_range, spec_block_matches, spec_emitted_months,
    spec_line_authors, spec_month_count, spec_month_record, spec_timelines, spec_walk_month,
    spec_walk_year, MonthBlock,
};
use crate::events::{
    build_timeline, normalize_events, spec_author_events, spec_authors, spec_normalized,
    spec_sort_events, CheckInEvent, RawMessage,
};
use crate::render::{
    render_report, spec_block_lines, spec_header_line, spec_name_of, spec_rendered,
    spec_row_line, spec_table_lines,
};
use crate::time::{spec_date_key, CivilDate};
use crate::SUMMARY_CHAR_BUDGET;

verus! {

/// The sorted per-author event sequences of an event set, authors in
/// first-occurrence order.
pub open spec fn spec_timelines_of(evts: Seq<CheckInEvent>) -> Seq<Seq<CheckInEvent>> {
    spec_authors(evts).map_values(|a: u64| spec_sort_events(spec_author_events(evts, a)))
}

/// The lines of one month's table section: its header, then one data
/// line per author.
pub open spec fn spec_month_section(
    names: Seq<(u64, String)>,
    authors: Seq<u64>,
    tls: Seq<Seq<CheckInEvent>>,
    n: int,
    tk: int,
) -> Seq<Seq<char>> {
    seq![spec_header_line(spec_walk_year(n), spec_walk_month(n))] + Seq::new(
        authors.len(),
        |j: int| spec_row_line(spec_name_of(names, authors[j]), spec_month_record(tls[j], n, tk)),
    )
}

/// The table body lines of the emitted months, in order.
pub open spec fn spec_sections(
    names: Seq<(u64, String)>,
    authors: Seq<u64>,
    tls: Seq<Seq<CheckInEvent>>,
    ems: Seq<int>,
    tk: int,
) -> Seq<Seq<char>>
    decreases ems.len(),
{
    if ems.len() == 0 {
        Seq::empty()
    } else {
        spec_sections(names, authors, tls, ems.drop_last(), tk) + spec_month_section(
            names,
            authors,
            tls,
            ems.last(),
            tk,
        )
    }
}

/// The full report text as a function of the raw messages, the resolved
/// names, the mode and the current date.
pub open spec fn spec_report(
    msgs: Seq<RawMessage>,
    names: Seq<(u64, String)>,
    full: bool,
    today: CivilDate,
) -> Seq<char> {
    let evts = spec_normalized(msgs);
    let authors = spec_authors(evts);
    let tls = spec_timelines_of(evts);
    let tk = spec_date_key(today.year as int, today.month as int, today.day as int);
    let ems = spec_emitted_months(tls, spec_month_count(today.year as int), tk);
    spec_rendered(spec_sections(names, authors, tls, ems, tk), full)
}

/// Blocks that match the aggregator's contract render to exactly the
/// section lines of their months.
proof fn lemma_blocks_to_sections(
    blocks: Seq<MonthBlock>,
    names: Seq<(u64, String)>,
    authors: Seq<u64>,
    tls: Seq<Seq<CheckInEvent>>,
    ems: Seq<int>,
    tk: int,
)
    requires
        blocks.len() == ems.len(),
        forall|i: int|
            0 <= i < blocks.len() ==> spec_block_matches(#[trigger] blocks[i], authors, tls, ems[i], tk),
        authors.len() == tls.len(),
    ensures
        spec_table_lines(blocks, names) == spec_sections(names, authors, tls, ems, tk),
    decreases blocks.len(),
{
    if blocks.len() == 0 {
    } else {
        assert(blocks.drop_last().len() == ems.drop_last().len());
        assert(forall|i: int|
            0 <= i < blocks.drop_last().len() ==> #[trigger] blocks.drop_last()[i] == blocks[i]);
        assert(forall|i: int|
            0 <= i < ems.drop_last().len() ==> #[trigger] ems.drop_last()[i] == ems[i]);
        lemma_blocks_to_sections(blocks.drop_last(), names, authors, tls, ems.drop_last(), tk);
        let b = blocks.last();
        let n = ems.last();
        assert(spec_block_matches(b, authors, tls, n, tk));
        assert(spec_block_lines(b, names) =~= spec_month_section(names, authors, tls, n, tk))
            by {
            assert(b.rows@.map_values(
                |row: crate::aggregate::MonthRow| spec_row_line(
                    spec_name_of(names, row.author_id),
                    row.record@,
                ),
            ) =~= Seq::new(
                authors.len(),
                |j: int| spec_row_line(
                    spec_name_of(names, authors[j]),
                    spec_month_record(tls[j], n, tk),
                ),
            ));
        }
        assert(spec_table_lines(blocks, names) =~= spec_sections(names, authors, tls, ems, tk));
    }
}

/// Computes the report text from the raw message set, the resolved
/// display names, the mode (`full` keeps everything; otherwise the
/// summary budget applies) and the current UTC date. Deterministic: the
/// text is a function of these inputs alone.
pub fn compute_report(
    msgs: &Vec<RawMessage>,
    names: &Vec<(u64, String)>,
    full: bool,
    today: &CivilDate,
) -> (r: String)
    requires
        today.valid(),
    ensures
        r@ == spec_report(msgs@, names@, full, *today),
        !full ==> r@.len() <= SUMMARY_CHAR_BUDGET as int,
{
    let (evts, _dropped) = normalize_events(msgs);
    let lines = build_timeline(&evts);
    let blocks = aggregate(&lines, today);
    proof {
        let tk = spec_date_key(today.year as int, today.month as int, today.day as int);
        let authors = spec_authors(evts@);
        let tls = spec_timelines_of(evts@);
        assert(spec_line_authors(lines@) =~= authors);
        assert(spec_timelines(lines@) =~= tls);
        let count = spec_month_count(today.year as int);
        let ems = spec_emitted_months(tls, count, tk);
        lemma_emitted_months_range(tls, count, tk);
        assert forall|i: int| 0 <= i < blocks@.len() implies 0 <= (#[trigger] blocks@[i]).year by {
            assert(spec_block_matches(blocks@[i], authors, tls, ems[i], tk));
            assert(0 <= ems[i]);
            assert(spec_walk_year(ems[i]) >= crate::START_YEAR as int);
        }
        lemma_blocks_to_sections(blocks@, names@, authors, tls, ems, tk);
    }
    render_report(&blocks, names, full)
}

/// Idempotence: the report text is pinned by the inputs, so re-running
/// the computation on the same event set, name table, mode and date
/// yields the identical text.
pub proof fn lemma_report_idempotent(
    t1: Seq<char>,
    t2: Seq<char>,
    msgs: Seq<RawMessage>,
    names: Seq<(u64, String)>,
    full: bool,
    today: CivilDate,
)
    requires
        t1 == spec_report(msgs, names, full, today),
        t2 == spec_report(msgs, names, full, today),
    ensures
        t1 == t2,
{
}

} // verus!
