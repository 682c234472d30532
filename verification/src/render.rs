//! Rendering the aggregated records as a textual table: a fixed title
//! line, one header line per qualifying month, one data line per author,
//! and front-first truncation to the summary budget.

use vstd::prelude::*;
use crate::aggregate::{MonthBlock, MonthRow};
use crate::classify::RecordModel;
use crate::text::{chars_to_string, push_decimal_u64, push_str_chars, spec_decimal};
use crate::SUMMARY_CHAR_BUDGET;

verus! {

/// The fixed title line of every report.
pub open spec fn spec_title() -> Seq<char> {
    "Month | Morning | Evening | Proper | Missed | Infractions | Alternate Time Zones\n"@
}

/// The English name of a month of the year.
pub open spec fn spec_month_name(m: int) -> Seq<char> {
    if m == 1 {
        "January"@
    } else if m == 2 {
        "February"@
    } else if m == 3 {
        "March"@
    } else if m == 4 {
        "April"@
    } else if m == 5 {
        "May"@
    } else if m == 6 {
        "June"@
    } else if m == 7 {
        "July"@
    } else if m == 8 {
        "August"@
    } else if m == 9 {
        "September"@
    } else if m == 10 {
        "October"@
    } else if m == 11 {
        "November"@
    } else {
        "December"@
    }
}

pub fn month_name(m: u8) -> (r: &'static str)
    ensures
        r@ == spec_month_name(m as int),
{
    if m == 1 {
        "January"
    } else if m == 2 {
        "February"
    } else if m == 3 {
        "March"
    } else if m == 4 {
        "April"
    } else if m == 5 {
        "May"
    } else if m == 6 {
        "June"
    } else if m == 7 {
        "July"
    } else if m == 8 {
        "August"
    } else if m == 9 {
        "September"
    } else if m == 10 {
        "October"
    } else if m == 11 {
        "November"
    } else {
        "December"
    }
}

/// The display name for an author: the first name registered for the id,
/// or the id itself in decimal as the fallback identifier.
pub open spec fn spec_name_of(names: Seq<(u64, String)>, id: u64) -> Seq<char>
    decreases names.len(),
{
    if names.len() == 0 {
        spec_decimal(id as int)
    } else if names[0].0 == id {
        names[0].1@
    } else {
        spec_name_of(names.drop_first(), id)
    }
}

/// A month header line: month name, comma, year.
pub open spec fn spec_header_line(y: int, m: int) -> Seq<char> {
    spec_month_name(m) + ", "@ + spec_decimal(y) + "\n"@
}

/// One author's data line: name and the six counters.
pub open spec fn spec_row_line(name: Seq<char>, r: RecordModel) -> Seq<char> {
    name + " | "@ + spec_decimal(r.morning) + " | "@ + spec_decimal(r.evening) + " | "@
        + spec_decimal(r.proper) + " | "@ + spec_decimal(r.missed) + " | "@ + spec_decimal(
        r.infractions,
    ) + " | "@ + spec_decimal(r.alternate) + "\n"@
}

/// The lines of one month block: its header, then one line per row.
pub open spec fn spec_block_lines(b: MonthBlock, names: Seq<(u64, String)>) -> Seq<Seq<char>> {
    seq![spec_header_line(b.year as int, b.month as int)] + b.rows@.map_values(
        |row: MonthRow| spec_row_line(spec_name_of(names, row.author_id), row.record@),
    )
}

/// The table body: the lines of every block, in order.
pub open spec fn spec_table_lines(blocks: Seq<MonthBlock>, names: Seq<(u64, String)>) -> Seq<
    Seq<char>,
>
    decreases blocks.len(),
{
    if blocks.len() == 0 {
        Seq::empty()
    } else {
        spec_table_lines(blocks.drop_last(), names) + spec_block_lines(blocks.last(), names)
    }
}

/// All lines joined into one text.
pub open spec fn spec_concat(lines: Seq<Seq<char>>) -> Seq<char>
    decreases lines.len(),
{
    if lines.len() == 0 {
        Seq::empty()
    } else {
        spec_concat(lines.drop_last()) + lines.last()
    }
}

/// How many lines truncation removes from the front: the least count
/// that brings the text within the summary budget (or everything).
pub open spec fn spec_trunc_count(lines: Seq<Seq<char>>) -> int
    decreases lines.len(),
{
    if (spec_title() + spec_concat(lines)).len() <= SUMMARY_CHAR_BUDGET as int || lines.len()
        == 0 {
        0
    } else {
        1 + spec_trunc_count(lines.drop_first())
    }
}

/// The rendered report text: the title plus the table body, truncated
/// front-first to the budget in summary mode.
pub open spec fn spec_rendered(lines: Seq<Seq<char>>, full: bool) -> Seq<char> {
    if full {
        spec_title() + spec_concat(lines)
    } else {
        spec_title() + spec_concat(lines.skip(spec_trunc_count(lines)))
    }
}

/// The truncation count stays within the line count.
pub proof fn lemma_trunc_count_range(lines: Seq<Seq<char>>)
    ensures
        0 <= spec_trunc_count(lines) <= lines.len(),
    decreases lines.len(),
{
    if (spec_title() + spec_concat(lines)).len() <= SUMMARY_CHAR_BUDGET as int || lines.len()
        == 0 {
    } else {
        lemma_trunc_count_range(lines.drop_first());
    }
}

/// Truncation only removes whole lines from the front: the summary text
/// is the title plus a suffix of the body's lines, and it fits the
/// budget.
pub proof fn lemma_truncation_front_suffix(lines: Seq<Seq<char>>)
    ensures
        ({
            let k = spec_trunc_count(lines);
            &&& 0 <= k <= lines.len()
            &&& spec_rendered(lines, false) == spec_title() + spec_concat(lines.skip(k))
        }),
{
    lemma_trunc_count_range(lines);
}

/// In summary mode the rendered text never exceeds the budget.
pub proof fn lemma_truncation_budget(lines: Seq<Seq<char>>)
    ensures
        spec_rendered(lines, false).len() <= SUMMARY_CHAR_BUDGET as int,
    decreases lines.len(),
{
    let k = spec_trunc_count(lines);
    if (spec_title() + spec_concat(lines)).len() <= SUMMARY_CHAR_BUDGET as int {
        assert(lines.skip(0) =~= lines);
    } else if lines.len() == 0 {
        assert(lines.skip(0) =~= lines);
        assert(spec_concat(lines) =~= Seq::<char>::empty());
        proof_title_len();
    } else {
        lemma_truncation_budget(lines.drop_first());
        lemma_trunc_count_range(lines.drop_first());
        assert(k == 1 + spec_trunc_count(lines.drop_first()));
        assert(lines.drop_first().skip(k - 1) =~= lines.skip(k));
    }
}

/// The title line is 83 characters long, within the budget.
proof fn proof_title_len()
    ensures
        spec_title().len() <= SUMMARY_CHAR_BUDGET as int,
{
    reveal_strlit("Month | Morning | Evening | Proper | Missed | Infractions | Alternate Time Zones\n");
}

fn push_chars(out: &mut Vec<char>, piece: &Vec<char>)
    ensures
        final(out)@ == old(out)@ + piece@,
{
    let mut i: usize = 0;
    while i < piece.len()
        invariant
            i <= piece.len(),
            out@ == old(out)@ + piece@.take(i as int),
        decreases piece.len() - i,
    {
        out.push(piece[i]);
        proof {
            assert(out@ =~= old(out)@ + piece@.take(i as int + 1));
        }
        i = i + 1;
    }
    proof {
        assert(piece@.take(piece@.len() as int) =~= piece@);
    }
}

/// The display name for an author id, from the resolved-name table.
pub fn name_of(names: &Vec<(u64, String)>, id: u64) -> (r: Vec<char>)
    ensures
        r@ == spec_name_of(names@, id),
{
    let mut i: usize = 0;
    proof {
        assert(names@.skip(0) =~= names@);
    }
    while i < names.len()
        invariant
            i <= names.len(),
            spec_name_of(names@, id) == spec_name_of(names@.skip(i as int), id),
            forall|t: int| 0 <= t < i ==> (#[trigger] names@[t]).0 != id,
        decreases names.len() - i,
    {
        proof {
            assert(names@.skip(i as int)[0] == names@[i as int]);
            assert(names@.skip(i as int).drop_first() =~= names@.skip(i as int + 1));
        }
        if names[i].0 == id {
            let mut out: Vec<char> = Vec::new();
            push_str_chars(&mut out, names[i].1.as_str());
            proof {
                assert(Seq::<char>::empty() + names@[i as int].1@ =~= names@[i as int].1@);
            }
            return out;
        }
        i = i + 1;
    }
    proof {
        assert(names@.skip(names@.len() as int).len() == 0);
    }
    let mut out: Vec<char> = Vec::new();
    push_decimal_u64(&mut out, id);
    proof {
        assert(Seq::<char>::empty() + spec_decimal(id as int) =~= spec_decimal(id as int));
    }
    out
}

fn render_header_line(b: &MonthBlock) -> (r: Vec<char>)
    requires
        0 <= b.year,
    ensures
        r@ == spec_header_line(b.year as int, b.month as int),
{
    let mut out: Vec<char> = Vec::new();
    push_str_chars(&mut out, month_name(b.month));
    push_str_chars(&mut out, ", ");
    push_decimal_u64(&mut out, b.year as u64);
    push_str_chars(&mut out, "\n");
    proof {
        assert(Seq::<char>::empty() + spec_month_name(b.month as int) =~= spec_month_name(
            b.month as int,
        ));
    }
    out
}

fn render_row_line(row: &MonthRow, names: &Vec<(u64, String)>) -> (r: Vec<char>)
    ensures
        r@ == spec_row_line(spec_name_of(names@, row.author_id), row.record@),
{
    let name = name_of(names, row.author_id);
    let mut out: Vec<char> = Vec::new();
    push_chars(&mut out, &name);
    push_str_chars(&mut out, " | ");
    push_decimal_u64(&mut out, row.record.morning_count);
    push_str_chars(&mut out, " | ");
    push_decimal_u64(&mut out, row.record.evening_count);
    push_str_chars(&mut out, " | ");
    push_decimal_u64(&mut out, row.record.proper_count);
    push_str_chars(&mut out, " | ");
    push_decimal_u64(&mut out, row.record.missed_days);
    push_str_chars(&mut out, " | ");
    push_decimal_u64(&mut out, row.record.infraction_count);
    push_str_chars(&mut out, " | ");
    push_decimal_u64(&mut out, row.record.alternate_count);
    push_str_chars(&mut out, "\n");
    proof {
        assert(Seq::<char>::empty() + name@ =~= name@);
    }
    out
}

/// The table body, one rendered line per entry.
fn build_lines(blocks: &Vec<MonthBlock>, names: &Vec<(u64, String)>) -> (r: Vec<Vec<char>>)
    requires
        forall|i: int| 0 <= i < blocks@.len() ==> 0 <= (#[trigger] blocks@[i]).year,
    ensures
        r@.map_values(|v: Vec<char>| v@) == spec_table_lines(blocks@, names@),
{
    let mut out: Vec<Vec<char>> = Vec::new();
    let mut i: usize = 0;
    proof {
        assert(out@.map_values(|v: Vec<char>| v@) =~= spec_table_lines(
            blocks@.take(0),
            names@,
        ));
    }
    while i < blocks.len()
        invariant
            i <= blocks.len(),
            forall|t: int| 0 <= t < blocks@.len() ==> 0 <= (#[trigger] blocks@[t]).year,
            out@.map_values(|v: Vec<char>| v@) == spec_table_lines(blocks@.take(i as int), names@),
        decreases blocks.len() - i,
    {
        let b = &blocks[i];
        let ghost before = spec_table_lines(blocks@.take(i as int), names@);
        let header = render_header_line(b);
        out.push(header);
        proof {
            assert(out@.map_values(|v: Vec<char>| v@) =~= before + seq![
                spec_header_line(b.year as int, b.month as int),
            ] + b.rows@.take(0).map_values(
                |row: MonthRow| spec_row_line(spec_name_of(names@, row.author_id), row.record@),
            ));
        }
        let mut j: usize = 0;
        while j < b.rows.len()
            invariant
                j <= b.rows@.len(),
                i < blocks@.len(),
                b == &blocks@[i as int],
                0 <= b.year,
                before == spec_table_lines(blocks@.take(i as int), names@),
                out@.map_values(|v: Vec<char>| v@) == before + seq![
                    spec_header_line(b.year as int, b.month as int),
                ] + b.rows@.take(j as int).map_values(
                    |row: MonthRow| spec_row_line(spec_name_of(names@, row.author_id), row.record@),
                ),
            decreases b.rows@.len() - j,
        {
            let line = render_row_line(&b.rows[j], names);
            let ghost out_before = out@;
            out.push(line);
            proof {
                let f = |v: Vec<char>| v@;
                let g = |row: MonthRow| spec_row_line(
                    spec_name_of(names@, row.author_id),
                    row.record@,
                );
                assert(out@ =~= out_before.push(line));
                assert(out@.map_values(f) =~= out_before.map_values(f).push(line@));
                assert(b.rows@.take(j as int + 1) =~= b.rows@.take(j as int).push(
                    b.rows@[j as int],
                ));
                assert(b.rows@.take(j as int + 1).map_values(g) =~= b.rows@.take(
                    j as int,
                ).map_values(g).push(g(b.rows@[j as int])));
                assert(out@.map_values(f) =~= before + seq![
                    spec_header_line(b.year as int, b.month as int),
                ] + b.rows@.take(j as int + 1).map_values(g));
            }
            j = j + 1;
        }
        proof {
            assert(b.rows@.take(b.rows@.len() as int) =~= b.rows@);
            assert(blocks@.take(i as int + 1).drop_last() =~= blocks@.take(i as int));
            assert(blocks@.take(i as int + 1).last() == blocks@[i as int]);
            assert(out@.map_values(|v: Vec<char>| v@) =~= spec_table_lines(
                blocks@.take(i as int + 1),
                names@,
            ));
        }
        i = i + 1;
    }
    proof {
        assert(blocks@.take(blocks@.len() as int) =~= blocks@);
    }
    out
}

/// The report text for the given suffix of the body lines: title plus
/// every line from `start` on.
fn build_text(lines: &Vec<Vec<char>>, start: usize) -> (r: Vec<char>)
    requires
        start <= lines@.len(),
    ensures
        r@ == spec_title() + spec_concat(
            lines@.map_values(|v: Vec<char>| v@).skip(start as int),
        ),
{
    let ghost lviews = lines@.map_values(|v: Vec<char>| v@);
    let mut out: Vec<char> = Vec::new();
    push_str_chars(
        &mut out,
        "Month | Morning | Evening | Proper | Missed | Infractions | Alternate Time Zones\n",
    );
    proof {
        assert(Seq::<char>::empty() + spec_title() =~= spec_title());
        assert(lviews.subrange(start as int, start as int) =~= Seq::<Seq<char>>::empty());
    }
    let mut i: usize = start;
    while i < lines.len()
        invariant
            start <= i <= lines@.len(),
            lviews == lines@.map_values(|v: Vec<char>| v@),
            out@ == spec_title() + spec_concat(lviews.subrange(start as int, i as int)),
        decreases lines@.len() - i,
    {
        push_chars(&mut out, &lines[i]);
        proof {
            let sub2 = lviews.subrange(start as int, i as int + 1);
            assert(sub2.drop_last() =~= lviews.subrange(start as int, i as int));
            assert(sub2.last() == lviews[i as int]);
            assert(lviews[i as int] == lines@[i as int]@);
            assert(spec_concat(sub2) == spec_concat(sub2.drop_last()) + sub2.last());
            assert(out@ =~= spec_title() + spec_concat(sub2));
        }
        i = i + 1;
    }
    proof {
        assert(lviews.subrange(start as int, lviews.len() as int) =~= lviews.skip(start as int));
    }
    out
}

/// Renders the qualifying months as the report text. In full mode the
/// whole table is kept; in summary mode lines are dropped from the front,
/// oldest first, until the text fits the character budget.
pub fn render_report(blocks: &Vec<MonthBlock>, names: &Vec<(u64, String)>, full: bool) -> (r:
    String)
    requires
        forall|i: int| 0 <= i < blocks@.len() ==> 0 <= (#[trigger] blocks@[i]).year,
    ensures
        r@ == spec_rendered(spec_table_lines(blocks@, names@), full),
        !full ==> r@.len() <= SUMMARY_CHAR_BUDGET as int,
{
    let lines = build_lines(blocks, names);
    let ghost lviews = lines@.map_values(|v: Vec<char>| v@);
    let mut start: usize = 0;
    let mut text = build_text(&lines, 0);
    proof {
        assert(lviews.skip(0) =~= lviews);
    }
    if full {
        return chars_to_string(&text);
    }
    while text.len() > SUMMARY_CHAR_BUDGET && start < lines.len()
        invariant
            start <= lines@.len(),
            lviews == lines@.map_values(|v: Vec<char>| v@),
            lviews == spec_table_lines(blocks@, names@),
            text@ == spec_title() + spec_concat(lviews.skip(start as int)),
            spec_trunc_count(lviews) == start + spec_trunc_count(lviews.skip(start as int)),
        decreases lines@.len() - start,
    {
        proof {
            assert((spec_title() + spec_concat(lviews.skip(start as int))).len()
                > SUMMARY_CHAR_BUDGET as int);
            assert(lviews.skip(start as int).len() > 0);
            assert(lviews.skip(start as int).drop_first() =~= lviews.skip(start as int + 1));
            assert(spec_trunc_count(lviews.skip(start as int)) == 1 + spec_trunc_count(
                lviews.skip(start as int + 1),
            ));
        }
        start = start + 1;
        text = build_text(&lines, start);
    }
    proof {
        if text@.len() <= SUMMARY_CHAR_BUDGET as int {
            assert(spec_trunc_count(lviews.skip(start as int)) == 0);
        } else {
            assert(start == lines@.len());
            assert(lviews.skip(start as int).len() == 0);
            assert(spec_trunc_count(lviews.skip(start as int)) == 0);
        }
        assert(spec_trunc_count(lviews) == start as int);
        lemma_truncation_budget(lviews);
    }
    chars_to_string(&text)
}

} // verus!
