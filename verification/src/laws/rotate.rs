//! Done tasks that leave for the history, and sections that leave for the archive: nothing
//! is lost on the way.
use crate::app::{entry_line, entry_under, lemma_item_under, State};
use crate::blocks::{lemma_clear_of_block, lemma_heading_index, lemma_next_section, lemma_next_stop};
use crate::clock::{sooner, stamps, whole_minute, Moment};
use crate::laws::moves::{ends_top, lemma_solid_all, lemma_solid_first};
use crate::laws::prompt::lemma_one_cut;
use crate::laws::stamps::{law_stamp_read_back, opens_stamp};
use crate::laws::tidy::{
    law_tidy_keeps_lines, lemma_solid_concat, lemma_solid_drop_end, lemma_solid_from,
    lemma_solid_push, solid,
};
use crate::lines::{spliced, without};
use crate::outline::{
    has_heading, heading_index, item_at, items_of, items_upto, lemma_block_end,
    lemma_heading_not_blank, lemma_top_not_blank, next_section, next_stop, tidied, ItemModel,
};
use crate::rotate::{
    any_due, archive_after, archive_with, archived, block_of, done_end, done_items, done_moment,
    due_at, due_months, filed, filed_under, heads_month, history_filed, lemma_done_items,
    lemma_remaining, month_line, month_place, remaining, rotated, section_block,
};
use crate::search::lemma_first_from;
use crate::task::{behind_box, completed, ends_todo, heading_named, is_task, is_top};
use crate::text::{before, is_blank};
use vstd::multiset::Multiset;
use vstd::prelude::*;

verus! {

// ---------------------------------------------------------------------------------
// Nothing is lost

/// The lines that are not blank, however often each occurs.
pub open spec fn bag(lines: Seq<Seq<char>>) -> Multiset<Seq<char>> {
    solid(lines).to_multiset()
}

pub proof fn lemma_bag_concat(a: Seq<Seq<char>>, b: Seq<Seq<char>>)
    ensures
        bag(a + b) == bag(a).add(bag(b)),
{
    lemma_solid_concat(a, b);
    vstd::seq_lib::lemma_multiset_commutative(solid(a), solid(b));
}

/// The lines of the blocks that leave among those from the `k`th on.
spec fn leaving(
    lines: Seq<Seq<char>>,
    its: Seq<ItemModel>,
    due: Seq<Option<Seq<char>>>,
    k: int,
) -> Multiset<Seq<char>>
    decreases its.len() - k,
{
    if k >= its.len() {
        Multiset::empty()
    } else {
        let rest = leaving(lines, its, due, k + 1);
        if due[k] is Some {
            bag(block_of(lines, its[k])).add(rest)
        } else {
            rest
        }
    }
}

/// The lines of the blocks that leave among the first `n`.
spec fn left(
    lines: Seq<Seq<char>>,
    its: Seq<ItemModel>,
    due: Seq<Option<Seq<char>>>,
    n: int,
) -> Multiset<Seq<char>>
    decreases n,
{
    if n <= 0 {
        Multiset::empty()
    } else {
        let so_far = left(lines, its, due, n - 1);
        if due[n - 1] is Some {
            so_far.add(bag(block_of(lines, its[n - 1])))
        } else {
            so_far
        }
    }
}

proof fn lemma_left_is_leaving(
    lines: Seq<Seq<char>>,
    its: Seq<ItemModel>,
    due: Seq<Option<Seq<char>>>,
    n: int,
)
    requires
        0 <= n <= its.len(),
    ensures
        left(lines, its, due, n).add(leaving(lines, its, due, n)) == leaving(lines, its, due, 0),
    decreases n,
{
    let a = left(lines, its, due, n);
    let b = leaving(lines, its, due, n);
    if n > 0 {
        lemma_left_is_leaving(lines, its, due, n - 1);
        let c = left(lines, its, due, n - 1);
        let d = bag(block_of(lines, its[n - 1]));
        if due[n - 1] is Some {
            assert(c.add(d).add(b) =~= c.add(d.add(b)));
        }
    } else {
        assert(a.add(b) =~= b);
    }
}

/// Whether items are blocks of the lines, one after the other.
spec fn in_row(lines: Seq<Seq<char>>, its: Seq<ItemModel>) -> bool {
    &&& forall|i: int|
        0 <= i < its.len() ==> 0 <= (#[trigger] its[i]).start && 0 < its[i].len && its[i].start
            + its[i].len <= lines.len()
    &&& forall|i: int, j: int|
        0 <= i < j < its.len() ==> (#[trigger] its[i]).start + its[i].len <= (
        #[trigger] its[j]).start
}

proof fn lemma_remaining_bag(
    lines: Seq<Seq<char>>,
    its: Seq<ItemModel>,
    due: Seq<Option<Seq<char>>>,
    k: int,
)
    requires
        in_row(lines, its),
        0 <= k <= its.len(),
    ensures
        bag(remaining(lines, its, due, k)).add(leaving(lines, its, due, k)) == bag(lines),
    decreases its.len() - k,
{
    if k < its.len() {
        lemma_remaining_bag(lines, its, due, k + 1);
        let st = its[k].start;
        let en = its[k].start + its[k].len;
        assert forall|i: int| k + 1 <= i < its.len() implies en <= (#[trigger] its[i]).start by {
            assert(its[k].start + its[k].len <= its[i].start);
        }
        lemma_remaining(lines, its, due, k + 1, en);
        let rest = remaining(lines, its, due, k + 1);
        let a = rest.take(st);
        let b = rest.subrange(st, en);
        let c = rest.skip(en);
        assert(b =~= block_of(lines, its[k]));
        assert(rest =~= a + b + c);
        lemma_bag_concat(a + b, c);
        lemma_bag_concat(a, b);
        lemma_bag_concat(a, c);
        let gone = leaving(lines, its, due, k + 1);
        if due[k] is Some {
            assert(bag(a).add(bag(c)).add(bag(b).add(gone)) =~= bag(a).add(bag(b)).add(bag(c)).add(
                gone,
            ));
        }
    } else {
        assert(bag(lines).add(Multiset::empty()) =~= bag(lines));
    }
}

proof fn lemma_spliced_bag(hist: Seq<Seq<char>>, at: int, block: Seq<Seq<char>>)
    requires
        0 <= at <= hist.len(),
    ensures
        bag(spliced(hist, at, block)) == bag(hist).add(bag(block)),
{
    let a = hist.take(at);
    let c = hist.skip(at);
    assert(hist =~= a + c);
    lemma_bag_concat(a + block, c);
    lemma_bag_concat(a, block);
    lemma_bag_concat(a, c);
    assert(bag(a).add(bag(block)).add(bag(c)) =~= bag(a).add(bag(c)).add(bag(block)));
}

pub proof fn lemma_inserted_bag(hist: Seq<Seq<char>>, at: int, l: Seq<char>)
    requires
        0 <= at <= hist.len(),
    ensures
        bag(hist.insert(at, l)) == (if is_blank(l) {
            bag(hist)
        } else {
            bag(hist).insert(l)
        }),
{
    let one = seq![l];
    let none = Seq::<Seq<char>>::empty();
    assert(hist.insert(at, l) =~= spliced(hist, at, one));
    lemma_spliced_bag(hist, at, one);
    assert(one =~= none.push(l));
    lemma_solid_push(none, l);
    broadcast use vstd::seq_lib::group_to_multiset_ensures;

    if is_blank(l) {
        assert(bag(one) =~= Multiset::empty());
        assert(bag(hist.insert(at, l)) =~= bag(hist));
    } else {
        assert(solid(one) =~= none.push(l));
        assert(bag(one) =~= Multiset::empty().insert(l));
        assert(bag(hist.insert(at, l)) =~= bag(hist).insert(l));
    }
}

/// A block added to the history adds its lines, and at most a heading.
proof fn lemma_filed_under_bag(
    hist: Seq<Seq<char>>,
    month: Seq<char>,
    block: Seq<Seq<char>>,
    l: Seq<char>,
)
    ensures
        bag(hist).add(bag(block)).count(l) <= bag(filed_under(hist, month, block)).count(l),
        l != month ==> bag(hist).add(bag(block)).count(l) == bag(
            filed_under(hist, month, block),
        ).count(l),
{
    lemma_first_from(hist, 0, |l: Seq<char>| heads_month(l, month));
    let ml = month_line(hist, month);
    if ml < hist.len() {
        lemma_next_section(hist, ml + 1);
        lemma_spliced_bag(hist, next_section(hist, ml + 1), block);
    } else {
        let p = |l: Seq<char>| "## "@.is_prefix_of(l) && before(month, l);
        lemma_first_from(hist, 0, p);
        let at = month_place(hist, month);
        let a = hist.insert(at, month);
        let b = a.insert(at + 1, Seq::empty());
        lemma_inserted_bag(hist, at, month);
        lemma_inserted_bag(a, at + 1, Seq::empty());
        lemma_spliced_bag(b, at + 2, block);
    }
}

proof fn lemma_filed_bag(
    hist: Seq<Seq<char>>,
    lines: Seq<Seq<char>>,
    its: Seq<ItemModel>,
    due: Seq<Option<Seq<char>>>,
    n: int,
    l: Seq<char>,
)
    requires
        0 <= n <= its.len(),
        due.len() == its.len(),
    ensures
        bag(hist).add(left(lines, its, due, n)).count(l) <= bag(
            filed(hist, lines, its, due, n),
        ).count(l),
        !due.contains(Some(l)) ==> bag(hist).add(left(lines, its, due, n)).count(l) == bag(
            filed(hist, lines, its, due, n),
        ).count(l),
    decreases n,
{
    if n > 0 {
        lemma_filed_bag(hist, lines, its, due, n - 1, l);
        if let Some(month) = due[n - 1] {
            let so_far = filed(hist, lines, its, due, n - 1);
            let block = block_of(lines, its[n - 1]);
            lemma_filed_under_bag(so_far, month, block, l);
            if l == month {
                assert(due[n - 1] == Some(l));
                assert(due.contains(Some(l)));
            }
        }
    }
}

/// No line is lost when done tasks roll over: each line that is not blank occurs in the
/// todo file and the history together as often as before. Only a month's heading may occur
/// more often.
pub proof fn law_rotation_loses_nothing(
    s: State,
    due: Seq<Option<Seq<char>>>,
    hist: Seq<Seq<char>>,
    l: Seq<char>,
)
    requires
        due.len() == done_items(s.lines).len(),
        has_heading(s.lines, "done"@),
        any_due(due),
    ensures
        ({
            let then = bag(s.lines).count(l) + bag(hist).count(l);
            let now = bag(rotated(s, due).lines).count(l) + bag(
                history_filed(s.lines, due, hist),
            ).count(l);
            &&& then <= now
            &&& !due.contains(Some(l)) ==> then == now
        }),
{
    let its = done_items(s.lines);
    let n = its.len() as int;
    lemma_done_items(s.lines);
    assert(in_row(s.lines, its));
    lemma_remaining_bag(s.lines, its, due, 0);
    lemma_left_is_leaving(s.lines, its, due, n);
    lemma_filed_bag(hist, s.lines, its, due, n, l);
    law_tidy_keeps_lines(remaining(s.lines, its, due, 0));
    law_tidy_keeps_lines(filed(hist, s.lines, its, due, n));
    assert(left(s.lines, its, due, n).add(Multiset::empty()) =~= left(s.lines, its, due, n));
}

// ---------------------------------------------------------------------------------
// The archive

/// No line is lost when a section is archived: the todo file loses the section's lines
/// and nothing else, and the archive ends in them, behind all that it held.
pub proof fn law_archive_loses_nothing(s: State, text: Seq<char>)
    requires
        archive_after(s, text) is Some,
    ensures
        ({
            let h = entry_line(entry_under(s)->0);
            let block = section_block(s.lines, h);
            &&& bag(archived(s).lines).add(bag(block)) == bag(s.lines)
            &&& archive_after(s, text) == Some(archive_with(text, block))
            &&& text.is_prefix_of(archive_with(text, block))
        }),
{
    lemma_item_under(s);
    let h = entry_line(entry_under(s)->0);
    lemma_next_stop(s.lines, h + 1);
    let end = next_stop(s.lines, h + 1);
    let a = s.lines.take(h);
    let b = s.lines.subrange(h, end);
    let c = s.lines.skip(end);
    law_tidy_keeps_lines(without(s.lines, h, end));
    lemma_solid_drop_end(b);
    assert(s.lines =~= a + b + c);
    lemma_bag_concat(a + b, c);
    lemma_bag_concat(a, b);
    lemma_bag_concat(a, c);
    assert(bag(a).add(bag(c)).add(bag(b)) =~= bag(a).add(bag(b)).add(bag(c)));
    let block = section_block(s.lines, h);
    assert(text =~= archive_with(text, block).subrange(0, text.len() as int));
}

// ---------------------------------------------------------------------------------
// When a task rolls over

/// A completed task rolls over at a cutoff exactly if the minute of its completion lies
/// before the cutoff.
pub proof fn law_rolls_over_after_cutoff(
    l: Seq<char>,
    stamp: Seq<char>,
    at: Moment,
    cutoff: Moment,
)
    requires
        is_task(l),
        !opens_stamp(behind_box(l)),
        stamps(stamp, at),
    ensures
        due_at(done_moment(completed(l, stamp)), cutoff) is Some == sooner(
            whole_minute(at),
            cutoff,
        ),
{
    law_stamp_read_back(l, stamp, at);
}

/// Whether a line is a task that rolls over at this cutoff.
pub open spec fn rolls_over(l: Seq<char>, cutoff: Moment) -> bool {
    is_top(l) && due_at(done_moment(l), cutoff) is Some
}

/// Every task in the Done section is one of its items.
pub proof fn lemma_done_items_complete(lines: Seq<Seq<char>>, i: int)
    requires
        heading_index(lines, "done"@) < i < done_end(lines),
        0 <= i < lines.len(),
        is_top(lines[i]),
    ensures
        exists|k: int|
            0 <= k < done_items(lines).len() && (#[trigger] done_items(lines)[k]).start == i,
{
    let all = items_of(lines);
    let p = |it: ItemModel| heading_index(lines, "done"@) < it.start < done_end(lines);
    lemma_items_complete(lines, i, lines.len() as int);
    let j = choose|j: int| 0 <= j < all.len() && all[j] == item_at(lines, i);
    assert(p(all[j]));
    all.lemma_filter_contains(p, j);
    let its = done_items(lines);
    let k = choose|k: int| 0 <= k < its.len() && its[k] == all[j];
    assert(its[k].start == i);
}

pub proof fn lemma_items_complete(lines: Seq<Seq<char>>, i: int, n: int)
    requires
        0 <= i < n <= lines.len(),
        is_top(lines[i]),
    ensures
        items_upto(lines, n).contains(item_at(lines, i)),
    decreases n,
{
    let all = items_upto(lines, n);
    if i < n - 1 {
        lemma_items_complete(lines, i, n - 1);
        let rest = items_upto(lines, n - 1);
        let k = choose|k: int| 0 <= k < rest.len() && rest[k] == item_at(lines, i);
        assert(all[k] == item_at(lines, i));
    } else {
        assert(all[all.len() - 1] == item_at(lines, i));
    }
}

/// The line that the `k`th item of the Done section starts at; the section's end if there
/// are no more.
spec fn start_or_end(lines: Seq<Seq<char>>, k: int) -> int {
    if k < done_items(lines).len() {
        done_items(lines)[k].start
    } else {
        done_end(lines)
    }
}

/// The lines of the Done section after those items are taken out that roll over, from the
/// `k`th on.
proof fn lemma_rest_of_done(lines: Seq<Seq<char>>, cutoff: Moment, k: int)
    requires
        has_heading(lines, "done"@),
        0 <= k <= done_items(lines).len(),
    ensures
        ({
            let its = done_items(lines);
            let rest = remaining(lines, its, due_months(lines, cutoff), k);
            let gone = lines.len() - rest.len();
            let e = done_end(lines) - gone;
            let b = start_or_end(lines, k);
            &&& heading_index(lines, "done"@) < b <= e <= rest.len()
            &&& rest.skip(e) == lines.skip(done_end(lines))
            &&& forall|i: int| 0 <= i < b ==> #[trigger] rest[i] == lines[i]
            &&& forall|i: int|
                b <= i < e ==> !rolls_over(#[trigger] rest[i], cutoff) && !ends_todo(rest[i])
        }),
    decreases done_items(lines).len() - k,
{
    let its = done_items(lines);
    let due = due_months(lines, cutoff);
    let h = heading_index(lines, "done"@);
    let end = done_end(lines);
    let sec = |l: Seq<char>| ends_todo(l);
    lemma_done_items(lines);
    lemma_heading_index(lines, "done"@);
    lemma_next_stop(lines, h + 1);
    lemma_first_from(lines, h + 1, sec);
    if k < its.len() {
        lemma_rest_of_done(lines, cutoff, k + 1);
        let st = its[k].start;
        let en = its[k].start + its[k].len;
        let b1 = start_or_end(lines, k + 1);
        let r1 = remaining(lines, its, due, k + 1);
        let e1 = end - (lines.len() - r1.len());
        lemma_block_end(lines, st);
        lemma_clear_of_block(lines, st, en, end);
        if k + 1 < its.len() {
            assert(its[k].start + its[k].len <= its[k + 1].start);
        }
        assert(en <= b1);
        assert forall|i: int| st < i < b1 implies !rolls_over(#[trigger] r1[i], cutoff)
            && !ends_todo(r1[i]) by {
            assert(r1[i] == lines[i]);
            assert(!sec(lines[i]));
            if is_top(lines[i]) {
                lemma_done_items_complete(lines, i);
                let m = choose|m: int| 0 <= m < its.len() && (#[trigger] its[m]).start == i;
                if m < k {
                    assert(its[m].start + its[m].len <= its[k].start);
                } else if m > k + 1 {
                    assert(its[k + 1].start + its[k + 1].len <= its[m].start);
                }
                assert(false);
            }
        }
        let r = remaining(lines, its, due, k);
        let e = end - (lines.len() - r.len());
        if due[k] is Some {
            assert(r == without(r1, st, en));
            assert(e == e1 - its[k].len);
            assert(r.skip(e) =~= r1.skip(e1));
            assert forall|i: int| st <= i < e implies !rolls_over(#[trigger] r[i], cutoff)
                && !ends_todo(r[i]) by {
                assert(r[i] == r1[i + its[k].len]);
            }
        } else {
            assert(r == r1);
            assert(r1[st] == lines[st]);
            assert(!sec(lines[st]));
            assert forall|i: int| st <= i < e implies !rolls_over(#[trigger] r[i], cutoff)
                && !ends_todo(r[i]) by {
                assert(r[i] == r1[i]);
            }
        }
    }
}

/// Two ways of taking a list apart at its first heading with a name are one.
proof fn lemma_one_heading(
    a: Seq<Seq<char>>,
    x: Seq<char>,
    b: Seq<Seq<char>>,
    c: Seq<Seq<char>>,
    y: Seq<char>,
    d: Seq<Seq<char>>,
    name: Seq<char>,
)
    requires
        a + seq![x] + b == c + seq![y] + d,
        heading_named(x, name),
        heading_named(y, name),
        forall|i: int| 0 <= i < a.len() ==> !heading_named(#[trigger] a[i], name),
        forall|i: int| 0 <= i < c.len() ==> !heading_named(#[trigger] c[i], name),
    ensures
        b == d,
{
    let all = a + seq![x] + b;
    assert(all[a.len() as int] == x);
    assert(all[c.len() as int] == y);
    if a.len() < c.len() {
        assert(all[a.len() as int] == c[a.len() as int]);
    } else if c.len() < a.len() {
        assert(all[c.len() as int] == a[c.len() as int]);
    }
    assert(b =~= all.skip(a.len() as int + 1));
    assert(d =~= all.skip(a.len() as int + 1));
}

/// The lines that are not blank, from the first heading with a name on: what stands in its
/// section, and what follows.
proof fn lemma_solid_section(lines: Seq<Seq<char>>, h: int, e: int, name: Seq<char>)
    requires
        0 <= h < e <= lines.len(),
        heading_named(lines[h], name),
        forall|i: int| 0 <= i < h ==> !heading_named(#[trigger] lines[i], name),
        forall|i: int| h < i < e ==> !ends_todo(#[trigger] lines[i]),
        e < lines.len() ==> ends_todo(lines[e]),
    ensures
        ({
            let a = solid(lines.take(h));
            let b = solid(lines.subrange(h + 1, e));
            let c = solid(lines.skip(e));
            &&& solid(lines) == a + seq![lines[h]] + (b + c)
            &&& forall|i: int| 0 <= i < a.len() ==> !heading_named(#[trigger] a[i], name)
            &&& ends_top(b, c)
        }),
{
    let x = lines.take(h);
    let y = lines.subrange(h + 1, e);
    let z = lines.skip(e);
    let other = |l: Seq<char>| !heading_named(l, name);
    let none = |l: Seq<char>| !ends_todo(l);
    lemma_heading_not_blank(lines[h]);
    assert(lines =~= x.push(lines[h]) + (y + z));
    lemma_solid_concat(x.push(lines[h]), y + z);
    lemma_solid_concat(y, z);
    lemma_solid_push(x, lines[h]);
    assert(solid(x).push(lines[h]) =~= solid(x) + seq![lines[h]]);
    assert forall|i: int| 0 <= i < x.len() implies other(#[trigger] x[i]) by {
        assert(x[i] == lines[i]);
    }
    lemma_solid_all(x, other);
    assert forall|i: int| 0 <= i < solid(x).len() implies !heading_named(
        #[trigger] solid(x)[i],
        name,
    ) by {
        assert(other(solid(x)[i]));
    }
    assert forall|i: int| 0 <= i < y.len() implies none(#[trigger] y[i]) by {
        assert(y[i] == lines[h + 1 + i]);
    }
    lemma_solid_all(y, none);
    assert forall|i: int| 0 <= i < solid(y).len() implies !ends_todo(#[trigger] solid(y)[i]) by {
        assert(none(solid(y)[i]));
    }
    if e < lines.len() {
        lemma_heading_not_blank(lines[e]);
    }
    lemma_solid_first(z, 0);
}

/// A line that is not blank is among those that are not.
proof fn lemma_in_solid(lines: Seq<Seq<char>>, i: int)
    requires
        0 <= i < lines.len(),
        !is_blank(lines[i]),
    ensures
        solid(lines).contains(lines[i]),
{
    let a = lines.take(i);
    let c = lines.skip(i + 1);
    assert(lines =~= a.push(lines[i]) + c);
    lemma_solid_concat(a.push(lines[i]), c);
    lemma_solid_push(a, lines[i]);
    assert(solid(lines)[solid(a).len() as int] == lines[i]);
}

/// Done tasks that stay once stay again: after those that were due at a cutoff have rolled
/// over, none is due at it any more.
pub proof fn law_rotation_once(s: State, cutoff: Moment)
    ensures
        ({
            let lines = rotated(s, due_months(s.lines, cutoff)).lines;
            !any_due(due_months(lines, cutoff))
        }),
{
    let lines = s.lines;
    let name = "done"@;
    let its = done_items(lines);
    let due = due_months(lines, cutoff);
    let now = rotated(s, due).lines;
    lemma_done_items(lines);
    lemma_done_items(now);
    if !has_heading(lines, name) {
        assert(heading_index(lines, name) >= lines.len());
        if its.len() > 0 {
            assert(heading_index(lines, name) < its[0].start);
        }
    } else if any_due(due) {
        let h = heading_index(lines, name);
        let end = done_end(lines);
        let sec = |l: Seq<char>| ends_todo(l);
        let named = |l: Seq<char>| heading_named(l, name);
        lemma_first_from(lines, 0, named);
        lemma_first_from(lines, h + 1, sec);
        lemma_rest_of_done(lines, cutoff, 0);
        let rest = remaining(lines, its, due, 0);
        let e = end - (lines.len() - rest.len());
        let b = start_or_end(lines, 0);
        assert(rest[h] == lines[h]);
        assert forall|i: int| 0 <= i < h implies !heading_named(#[trigger] rest[i], name) by {
            assert(rest[i] == lines[i]);
            assert(!named(lines[i]));
        }
        assert forall|i: int| h < i < e implies !ends_todo(#[trigger] rest[i]) && !rolls_over(
            rest[i],
            cutoff,
        ) by {
            if i < b {
                assert(rest[i] == lines[i]);
                assert(!sec(lines[i]));
                if is_top(lines[i]) {
                    lemma_done_items_complete(lines, i);
                    let m = choose|m: int| 0 <= m < its.len() && (#[trigger] its[m]).start == i;
                    if m > 0 {
                        assert(its[0].start + its[0].len <= its[m].start);
                    }
                }
            }
        }
        if e < rest.len() {
            assert(rest.skip(e)[0] == rest[e]);
            assert(lines.skip(end)[0] == lines[end]);
            assert(sec(lines[end]));
        }
        lemma_solid_section(rest, h, e, name);
        law_tidy_keeps_lines(rest);
        assert(now == tidied(rest));
        // The heading is still there.
        lemma_heading_not_blank(rest[h]);
        lemma_in_solid(rest, h);
        let g = choose|g: int| 0 <= g < solid(now).len() && solid(now)[g] == rest[h];
        lemma_solid_from(now, g);
        let f = choose|f: int| 0 <= f < now.len() && now[f] == rest[h];
        lemma_first_from(now, 0, named);
        assert(has_heading(now, name)) by {
            if !has_heading(now, name) {
                assert(!named(now[f]));
            }
        }
        let h2 = heading_index(now, name);
        let e2 = done_end(now);
        lemma_first_from(now, h2 + 1, sec);
        assert(named(now[h2]));
        assert forall|i: int| 0 <= i < h2 implies !heading_named(#[trigger] now[i], name) by {
            assert(!named(now[i]));
        }
        assert forall|i: int| h2 < i < e2 implies !ends_todo(#[trigger] now[i]) by {
            assert(!sec(now[i]));
        }
        if e2 < now.len() {
            assert(sec(now[e2]));
        }
        lemma_solid_section(now, h2, e2, name);
        let mid = rest.subrange(h + 1, e);
        let mid2 = now.subrange(h2 + 1, e2);
        lemma_one_heading(
            solid(rest.take(h)),
            rest[h],
            solid(mid) + solid(rest.skip(e)),
            solid(now.take(h2)),
            now[h2],
            solid(mid2) + solid(now.skip(e2)),
            name,
        );
        lemma_one_cut(
            solid(mid),
            solid(rest.skip(e)),
            solid(mid2),
            solid(now.skip(e2)),
        );
        let due2 = due_months(now, cutoff);
        let its2 = done_items(now);
        if any_due(due2) {
            let k = choose|k: int| 0 <= k < due2.len() && (#[trigger] due2[k]) is Some;
            let i = its2[k].start;
            assert(h2 < i < e2);
            lemma_top_not_blank(now[i]);
            assert(mid2[i - h2 - 1] == now[i]);
            lemma_in_solid(mid2, i - h2 - 1);
            let j = choose|j: int| 0 <= j < solid(mid2).len() && solid(mid2)[j] == now[i];
            lemma_solid_from(mid, j);
            let m = choose|m: int| 0 <= m < mid.len() && mid[m] == now[i];
            assert(rest[h + 1 + m] == now[i]);
            assert(!rolls_over(rest[h + 1 + m], cutoff));
            assert(rolls_over(now[i], cutoff));
        }
    }
}

} // verus!
