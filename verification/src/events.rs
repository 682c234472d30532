//! Check-in events: normalizing raw messages, grouping them by author,
//! and sorting each author's events ascending by local instant.

use vstd::prelude::*;
use crate::pattern::{pattern_match, spec_pattern_match};
use crate::time::{
    ny_local, ny_local_of, spec_stamp_key, stamp_key, LocalStamp, MAX_UTC_SECS, MIN_UTC_SECS,
};

verus! {

/// A raw message as handed in by the event source: author, UTC instant in
/// seconds, and body text.
pub struct RawMessage {
    pub author_id: u64,
    pub utc_secs: i64,
    pub body: String,
}

/// One check-in: its author, its instant in the reference timezone, and
/// whether the body matched the required format.
#[derive(Clone, Copy, Debug)]
pub struct CheckInEvent {
    pub author_id: u64,
    pub local: LocalStamp,
    pub proper: bool,
}

/// One author's sorted event sequence.
pub struct AuthorLine {
    pub author_id: u64,
    pub events: Vec<CheckInEvent>,
}

/// An instant the library can classify; anything outside is a malformed
/// timestamp.
pub open spec fn spec_instant_in_range(secs: int) -> bool {
    MIN_UTC_SECS <= secs <= MAX_UTC_SECS
}

/// The stamp whose fields are the named conversion result for this instant.
pub open spec fn spec_local_stamp_of(secs: int) -> LocalStamp {
    let t = ny_local_of(secs);
    LocalStamp {
        year: t.0 as i32,
        month: t.1 as u8,
        day: t.2 as u8,
        hour: t.3 as u8,
        minute: t.4 as u8,
    }
}

/// The event a raw message normalizes to.
pub open spec fn spec_event_of(m: RawMessage) -> CheckInEvent {
    CheckInEvent {
        author_id: m.author_id,
        local: spec_local_stamp_of(m.utc_secs as int),
        proper: spec_pattern_match(m.body@),
    }
}

/// The normalized event sequence: one event per in-range message, in
/// message order; out-of-range instants are dropped as malformed.
pub open spec fn spec_normalized(ms: Seq<RawMessage>) -> Seq<CheckInEvent>
    decreases ms.len(),
{
    if ms.len() == 0 {
        Seq::empty()
    } else {
        let rest = spec_normalized(ms.drop_last());
        if spec_instant_in_range(ms.last().utc_secs as int) {
            rest.push(spec_event_of(ms.last()))
        } else {
            rest
        }
    }
}

/// Converts raw messages to check-in events. Returns the events (one per
/// message with an in-range instant, in message order) and the count of
/// messages dropped for a malformed (out-of-range) timestamp.
pub fn normalize_events(msgs: &Vec<RawMessage>) -> (r: (Vec<CheckInEvent>, usize))
    ensures
        r.0@ == spec_normalized(msgs@),
        r.0@.len() + r.1 == msgs@.len(),
        forall|k: int| 0 <= k < r.0@.len() ==> (#[trigger] r.0@[k]).local.valid(),
{
    let mut out: Vec<CheckInEvent> = Vec::new();
    let mut dropped: usize = 0;
    let mut i: usize = 0;
    while i < msgs.len()
        invariant
            i <= msgs.len(),
            out@ == spec_normalized(msgs@.take(i as int)),
            out@.len() + dropped == i,
            forall|k: int| 0 <= k < out@.len() ==> (#[trigger] out@[k]).local.valid(),
        decreases msgs.len() - i,
    {
        let m = &msgs[i];
        proof {
            assert(msgs@.take(i as int + 1).drop_last() =~= msgs@.take(i as int));
            assert(msgs@.take(i as int + 1).last() == msgs@[i as int]);
        }
        if MIN_UTC_SECS <= m.utc_secs && m.utc_secs <= MAX_UTC_SECS {
            let local = ny_local(m.utc_secs);
            let proper = pattern_match(m.body.as_str());
            let ev = CheckInEvent { author_id: m.author_id, local, proper };
            proof {
                assert(ev.local == spec_local_stamp_of(m.utc_secs as int));
            }
            out.push(ev);
        } else {
            dropped = dropped + 1;
        }
        i = i + 1;
    }
    proof {
        assert(msgs@.take(msgs@.len() as int) =~= msgs@);
    }
    (out, dropped)
}

/// The distinct author ids of the events, in first-occurrence order,
/// appended to those already in `acc`.
pub open spec fn spec_authors_acc(evts: Seq<CheckInEvent>, acc: Seq<u64>) -> Seq<u64>
    decreases evts.len(),
{
    if evts.len() == 0 {
        acc
    } else {
        spec_authors_acc(
            evts.drop_first(),
            if acc.contains(evts[0].author_id) {
                acc
            } else {
                acc.push(evts[0].author_id)
            },
        )
    }
}

/// The distinct author ids of the events, in first-occurrence order.
pub open spec fn spec_authors(evts: Seq<CheckInEvent>) -> Seq<u64> {
    spec_authors_acc(evts, Seq::empty())
}

/// All events of one author, in their original relative order.
pub open spec fn spec_author_events(evts: Seq<CheckInEvent>, a: u64) -> Seq<CheckInEvent> {
    evts.filter(|e: CheckInEvent| e.author_id == a)
}

/// The accumulator only grows, keeps its prefix, and stays duplicate-free;
/// every author of the events ends up in the result.
proof fn lemma_authors_acc(evts: Seq<CheckInEvent>, acc: Seq<u64>)
    requires
        forall|p: int, q: int| 0 <= p < q < acc.len() ==> acc[p] != acc[q],
    ensures
        forall|p: int, q: int|
            0 <= p < q < spec_authors_acc(evts, acc).len() ==> spec_authors_acc(evts, acc)[p]
                != spec_authors_acc(evts, acc)[q],
        forall|a: u64|
            #[trigger] spec_authors_acc(evts, acc).contains(a) <==> (acc.contains(a) || exists|k: int|
                0 <= k < evts.len() && evts[k].author_id == a),
    decreases evts.len(),
{
    if evts.len() == 0 {
    } else {
        let a0 = evts[0].author_id;
        let acc2 = if acc.contains(a0) {
            acc
        } else {
            acc.push(a0)
        };
        assert forall|p: int, q: int| 0 <= p < q < acc2.len() implies acc2[p] != acc2[q] by {
            if !acc.contains(a0) && q == acc2.len() - 1 {
                assert(acc2[q] == a0);
                assert(acc2[p] == acc[p]);
                assert(acc.contains(acc[p]));
            }
        }
        lemma_authors_acc(evts.drop_first(), acc2);
        assert(spec_authors_acc(evts, acc) == spec_authors_acc(evts.drop_first(), acc2));
        assert forall|a: u64| #[trigger] spec_authors_acc(evts, acc).contains(a) implies (
        acc.contains(a) || exists|k: int| 0 <= k < evts.len() && evts[k].author_id == a) by {
            if !acc.contains(a) {
                if acc2.contains(a) {
                    assert(evts[0].author_id == a);
                } else {
                    assert(spec_authors_acc(evts, acc) == spec_authors_acc(
                        evts.drop_first(),
                        acc2,
                    ));
                    assert(spec_authors_acc(evts.drop_first(), acc2).contains(a));
                    let k = choose|k: int|
                        0 <= k < evts.drop_first().len() && evts.drop_first()[k].author_id == a;
                    assert(evts.drop_first()[k] == evts[k + 1]);
                    assert(evts[k + 1].author_id == a);
                }
            }
        }
        assert(acc2.len() > 0 && acc2[acc2.len() - 1] == a0 || acc.contains(a0));
        assert(acc2.contains(a0));
        assert forall|a: u64|
            acc.contains(a) || exists|k: int|
                0 <= k < evts.len() && evts[k].author_id == a implies #[trigger] spec_authors_acc(
            evts,
            acc,
        ).contains(a) by {
            assert(spec_authors_acc(evts, acc) == spec_authors_acc(evts.drop_first(), acc2));
            if acc2.contains(a) {
                assert(spec_authors_acc(evts.drop_first(), acc2).contains(a));
            } else {
                if acc.contains(a) {
                    let t = choose|t: int| 0 <= t < acc.len() && acc[t] == a;
                    assert(acc2[t] == a);
                    assert(acc2.contains(a));
                }
                let k = choose|k: int| 0 <= k < evts.len() && evts[k].author_id == a;
                assert(k > 0);
                assert(evts.drop_first()[k - 1] == evts[k]);
                assert(evts.drop_first()[k - 1].author_id == a);
                assert(spec_authors_acc(evts.drop_first(), acc2).contains(a));
            }
        }
    }
}

/// The distinct authors appearing among the events, each exactly once, in
/// first-occurrence order.
pub fn collect_authors(evts: &Vec<CheckInEvent>) -> (r: Vec<u64>)
    ensures
        r@ == spec_authors(evts@),
        forall|p: int, q: int| 0 <= p < q < r@.len() ==> r@[p] != r@[q],
        forall|a: u64|
            #[trigger] r@.contains(a) <==> exists|k: int|
                0 <= k < evts@.len() && evts@[k].author_id == a,
{
    let mut out: Vec<u64> = Vec::new();
    let mut i: usize = 0;
    proof {
        assert(evts@.skip(0) =~= evts@);
    }
    while i < evts.len()
        invariant
            i <= evts.len(),
            spec_authors(evts@) == spec_authors_acc(evts@.skip(i as int), out@),
            forall|p: int, q: int| 0 <= p < q < out@.len() ==> out@[p] != out@[q],
        decreases evts.len() - i,
    {
        let a = evts[i].author_id;
        let mut found = false;
        let mut k: usize = 0;
        while k < out.len()
            invariant
                k <= out.len(),
                found <==> exists|t: int| 0 <= t < k && out@[t] == a,
            decreases out.len() - k,
        {
            if out[k] == a {
                found = true;
            }
            k = k + 1;
        }
        proof {
            assert(evts@.skip(i as int)[0] == evts@[i as int]);
            assert(evts@.skip(i as int).drop_first() =~= evts@.skip(i as int + 1));
            assert(found == out@.contains(a));
        }
        if !found {
            out.push(a);
        }
        i = i + 1;
    }
    proof {
        assert(evts@.skip(evts@.len() as int) =~= Seq::<CheckInEvent>::empty());
        lemma_authors_acc(evts@, Seq::empty());
    }
    out
}

/// The events with `e` placed after every element whose key is at most
/// `e`'s key: stable insertion into a sorted sequence.
pub open spec fn spec_insert_sorted(s: Seq<CheckInEvent>, e: CheckInEvent) -> Seq<CheckInEvent>
    decreases s.len(),
{
    if s.len() == 0 {
        seq![e]
    } else if spec_stamp_key(s.last().local) <= spec_stamp_key(e.local) {
        s.push(e)
    } else {
        spec_insert_sorted(s.drop_last(), e).push(s.last())
    }
}

/// The events in ascending order of local instant, equal instants keeping
/// their original relative order: stable insertion sort.
pub open spec fn spec_sort_events(s: Seq<CheckInEvent>) -> Seq<CheckInEvent>
    decreases s.len(),
{
    if s.len() == 0 {
        Seq::empty()
    } else {
        spec_insert_sorted(spec_sort_events(s.drop_last()), s.last())
    }
}

fn insert_sorted(v: &mut Vec<CheckInEvent>, e: CheckInEvent)
    ensures
        final(v)@ == spec_insert_sorted(old(v)@, e),
{
    let ke = stamp_key(&e.local);
    let mut j: usize = v.len();
    proof {
        assert(v@.take(j as int) =~= v@);
        assert(v@.skip(j as int) =~= Seq::<CheckInEvent>::empty());
        assert(spec_insert_sorted(v@, e) =~= spec_insert_sorted(v@.take(j as int), e) + v@.skip(
            j as int,
        ));
    }
    while j > 0 && stamp_key(&v[j - 1].local) > ke
        invariant
            j <= v.len(),
            v@ == old(v)@,
            ke == spec_stamp_key(e.local),
            spec_insert_sorted(v@, e) == spec_insert_sorted(v@.take(j as int), e) + v@.skip(
                j as int,
            ),
        decreases j,
    {
        proof {
            let pre = v@.take(j as int);
            assert(pre.last() == v@[j as int - 1]);
            assert(pre.drop_last() =~= v@.take(j as int - 1));
            assert(spec_insert_sorted(pre, e) == spec_insert_sorted(v@.take(j as int - 1), e).push(
                v@[j as int - 1],
            ));
            assert(v@.skip(j as int - 1) =~= seq![v@[j as int - 1]] + v@.skip(j as int));
            assert(spec_insert_sorted(v@.take(j as int - 1), e).push(v@[j as int - 1]) + v@.skip(
                j as int,
            ) =~= spec_insert_sorted(v@.take(j as int - 1), e) + v@.skip(j as int - 1));
        }
        j = j - 1;
    }
    proof {
        let pre = v@.take(j as int);
        if j == 0 {
            assert(pre.len() == 0);
            assert(spec_insert_sorted(pre, e) =~= pre.push(e));
        } else {
            assert(pre.last() == v@[j as int - 1]);
            assert(spec_stamp_key(v@[j as int - 1].local) <= spec_stamp_key(e.local));
            assert(spec_insert_sorted(pre, e) == pre.push(e));
        }
    }
    v.insert(j, e);
    proof {
        assert(v@ =~= old(v)@.take(j as int).push(e) + old(v)@.skip(j as int));
    }
}

/// The events sorted ascending by local instant (stable).
pub fn sort_events(v: &Vec<CheckInEvent>) -> (r: Vec<CheckInEvent>)
    ensures
        r@ == spec_sort_events(v@),
{
    let mut out: Vec<CheckInEvent> = Vec::new();
    let mut i: usize = 0;
    while i < v.len()
        invariant
            i <= v.len(),
            out@ == spec_sort_events(v@.take(i as int)),
        decreases v.len() - i,
    {
        proof {
            assert(v@.take(i as int + 1).drop_last() =~= v@.take(i as int));
            assert(v@.take(i as int + 1).last() == v@[i as int]);
        }
        insert_sorted(&mut out, v[i]);
        i = i + 1;
    }
    proof {
        assert(v@.take(v@.len() as int) =~= v@);
    }
    out
}

/// Groups the events by author (authors in first-occurrence order) and
/// sorts each author's bucket ascending by instant.
pub fn build_timeline(evts: &Vec<CheckInEvent>) -> (r: Vec<AuthorLine>)
    ensures
        r@.len() == spec_authors(evts@).len(),
        forall|k: int|
            0 <= k < r@.len() ==> (#[trigger] r@[k].author_id) == spec_authors(evts@)[k],
        forall|k: int|
            0 <= k < r@.len() ==> (#[trigger] r@[k].events@) == spec_sort_events(
                spec_author_events(evts@, r@[k].author_id),
            ),
        forall|p: int, q: int| 0 <= p < q < r@.len() ==> r@[p].author_id != r@[q].author_id,
{
    let authors = collect_authors(evts);
    let mut lines: Vec<AuthorLine> = Vec::new();
    let mut k: usize = 0;
    while k < authors.len()
        invariant
            k <= authors.len(),
            authors@ == spec_authors(evts@),
            forall|p: int, q: int| 0 <= p < q < authors@.len() ==> authors@[p] != authors@[q],
            lines@.len() == k,
            forall|t: int|
                0 <= t < k ==> (#[trigger] lines@[t].author_id) == authors@[t],
            forall|t: int|
                0 <= t < k ==> (#[trigger] lines@[t].events@) == spec_sort_events(
                    spec_author_events(evts@, lines@[t].author_id),
                ),
        decreases authors.len() - k,
    {
        let a = authors[k];
        let mut bucket: Vec<CheckInEvent> = Vec::new();
        let mut i: usize = 0;
        while i < evts.len()
            invariant
                i <= evts.len(),
                bucket@ == spec_author_events(evts@.take(i as int), a),
            decreases evts.len() - i,
        {
            proof {
                let pred = |e: CheckInEvent| e.author_id == a;
                assert(evts@.take(i as int + 1) =~= evts@.take(i as int) + seq![evts@[i as int]]);
                Seq::<CheckInEvent>::filter_distributes_over_add(
                    evts@.take(i as int),
                    seq![evts@[i as int]],
                    pred,
                );
                reveal_with_fuel(Seq::filter, 2);
                assert(seq![evts@[i as int]].drop_last() =~= Seq::<CheckInEvent>::empty());
            }
            if evts[i].author_id == a {
                bucket.push(evts[i]);
            }
            i = i + 1;
        }
        proof {
            assert(evts@.take(evts@.len() as int) =~= evts@);
        }
        let sorted = sort_events(&bucket);
        lines.push(AuthorLine { author_id: a, events: sorted });
        k = k + 1;
    }
    lines
}

/// Events in ascending key order.
pub open spec fn spec_sorted_by_key(s: Seq<CheckInEvent>) -> bool {
    forall|p: int, q: int|
        0 <= p < q < s.len() ==> spec_stamp_key(#[trigger] s[p].local) <= spec_stamp_key(
            #[trigger] s[q].local,
        )
}

/// Insertion preserves the elements: everything in the result is the new
/// event or came from the input.
proof fn lemma_insert_sorted_membership(s: Seq<CheckInEvent>, e: CheckInEvent)
    ensures
        forall|i: int|
            0 <= i < spec_insert_sorted(s, e).len() ==> (#[trigger] spec_insert_sorted(s, e)[i]
                == e || s.contains(spec_insert_sorted(s, e)[i])),
    decreases s.len(),
{
    if s.len() == 0 {
    } else if spec_stamp_key(s.last().local) <= spec_stamp_key(e.local) {
    } else {
        lemma_insert_sorted_membership(s.drop_last(), e);
        assert forall|i: int|
            0 <= i < spec_insert_sorted(s, e).len() implies (#[trigger] spec_insert_sorted(s, e)[i]
            == e || s.contains(spec_insert_sorted(s, e)[i])) by {
            let res = spec_insert_sorted(s, e);
            let inner = spec_insert_sorted(s.drop_last(), e);
            if i < inner.len() {
                assert(res[i] == inner[i]);
                if inner[i] != e {
                    let t = choose|t: int|
                        0 <= t < s.drop_last().len() && s.drop_last()[t] == inner[i];
                    assert(s[t] == inner[i]);
                }
            } else {
                assert(res[i] == s.last());
                assert(s[s.len() - 1] == s.last());
            }
        }
    }
}

/// Stable insertion into a sorted sequence stays sorted.
proof fn lemma_insert_sorted_sorted(s: Seq<CheckInEvent>, e: CheckInEvent)
    requires
        spec_sorted_by_key(s),
    ensures
        spec_sorted_by_key(spec_insert_sorted(s, e)),
    decreases s.len(),
{
    if s.len() == 0 {
    } else if spec_stamp_key(s.last().local) <= spec_stamp_key(e.local) {
        assert forall|p: int, q: int|
            0 <= p < q < s.push(e).len() implies spec_stamp_key(
            #[trigger] s.push(e)[p].local,
        ) <= spec_stamp_key(#[trigger] s.push(e)[q].local) by {
            if q == s.len() {
                if p < s.len() - 1 {
                    assert(spec_stamp_key(s[p].local) <= spec_stamp_key(s[s.len() - 1].local));
                }
            }
        }
    } else {
        assert(spec_sorted_by_key(s.drop_last()));
        lemma_insert_sorted_sorted(s.drop_last(), e);
        lemma_insert_sorted_membership(s.drop_last(), e);
        let inner = spec_insert_sorted(s.drop_last(), e);
        let b = spec_stamp_key(s.last().local);
        assert forall|i: int|
            0 <= i < inner.len() implies spec_stamp_key(#[trigger] inner[i].local) <= b by {
            if inner[i] != e {
                let t = choose|t: int|
                    0 <= t < s.drop_last().len() && s.drop_last()[t] == inner[i];
                assert(s[t] == inner[i]);
                assert(spec_stamp_key(s[t].local) <= spec_stamp_key(s[s.len() - 1].local));
            }
        }
        let res = inner.push(s.last());
        assert forall|p: int, q: int|
            0 <= p < q < res.len() implies spec_stamp_key(#[trigger] res[p].local)
            <= spec_stamp_key(#[trigger] res[q].local) by {
            if q == res.len() - 1 {
                assert(res[p] == inner[p]);
            } else {
                assert(res[p] == inner[p]);
                assert(res[q] == inner[q]);
            }
        }
    }
}

/// The sort's elements all come from the input.
pub proof fn lemma_sort_events_membership(s: Seq<CheckInEvent>)
    ensures
        forall|i: int|
            0 <= i < spec_sort_events(s).len() ==> s.contains(
                #[trigger] spec_sort_events(s)[i],
            ),
    decreases s.len(),
{
    if s.len() == 0 {
    } else {
        lemma_sort_events_membership(s.drop_last());
        lemma_insert_sorted_membership(spec_sort_events(s.drop_last()), s.last());
        assert forall|i: int|
            0 <= i < spec_sort_events(s).len() implies s.contains(
            #[trigger] spec_sort_events(s)[i],
        ) by {
            let res = spec_sort_events(s);
            if res[i] == s.last() {
                assert(s[s.len() - 1] == s.last());
            } else {
                let inner = spec_sort_events(s.drop_last());
                assert(inner.contains(res[i]));
                let t = choose|t: int| 0 <= t < inner.len() && inner[t] == res[i];
                let u = choose|u: int|
                    0 <= u < s.drop_last().len() && s.drop_last()[u] == res[i];
                assert(s[u] == res[i]);
            }
        }
    }
}

/// The sort yields a key-sorted sequence.
pub proof fn lemma_sort_events_sorted(s: Seq<CheckInEvent>)
    ensures
        spec_sorted_by_key(spec_sort_events(s)),
    decreases s.len(),
{
    if s.len() == 0 {
    } else {
        lemma_sort_events_sorted(s.drop_last());
        lemma_insert_sorted_sorted(spec_sort_events(s.drop_last()), s.last());
    }
}

/// On valid stamps the key order refines the date order: a sorted bucket
/// has non-decreasing calendar dates, the invariant day extraction needs.
pub proof fn lemma_sort_events_dates_sorted(s: Seq<CheckInEvent>)
    requires
        forall|i: int| 0 <= i < s.len() ==> (#[trigger] s[i]).local.valid(),
    ensures
        forall|p: int, q: int|
            0 <= p < q < spec_sort_events(s).len() ==> crate::time::spec_stamp_date_key(
                #[trigger] spec_sort_events(s)[p].local,
            ) <= crate::time::spec_stamp_date_key(#[trigger] spec_sort_events(s)[q].local),
{
    lemma_sort_events_sorted(s);
    lemma_sort_events_membership(s);
    let res = spec_sort_events(s);
    assert forall|p: int, q: int|
        0 <= p < q < res.len() implies crate::time::spec_stamp_date_key(
        #[trigger] res[p].local,
    ) <= crate::time::spec_stamp_date_key(#[trigger] res[q].local) by {
        let a = res[p].local;
        let c = res[q].local;
        let t = choose|t: int| 0 <= t < s.len() && s[t] == res[p];
        let u = choose|u: int| 0 <= u < s.len() && s[u] == res[q];
        assert(a.valid());
        assert(c.valid());
        assert(spec_stamp_key(a) <= spec_stamp_key(c));
        let da = crate::time::spec_stamp_date_key(a);
        let dc = crate::time::spec_stamp_date_key(c);
        let ta = (a.hour as int) * 64 + a.minute as int;
        let tc = (c.hour as int) * 64 + c.minute as int;
        assert(0 <= ta < 2048);
        assert(0 <= tc < 2048);
        assert(da <= dc) by (nonlinear_arith)
            requires
                da * 2048 + ta <= dc * 2048 + tc,
                0 <= ta < 2048,
                0 <= tc < 2048,
        ;
    }
}

} // verus!
