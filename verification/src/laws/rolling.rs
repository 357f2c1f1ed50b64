//! What rolls over into the history, what is archived and what is collapsed, told from the
//! lines alone.
use crate::app::{entries_of, lemma_item_under, EntryModel, State};
use crate::clock::{formatted, kept_days_before, parsed, sooner, Moment};
use crate::laws::markdown::{law_block_is_whole, whole_block};
use crate::laws::months::{law_months_hold_their_tasks, rolled_into, under_month};
use crate::laws::rotate::lemma_done_items_complete;
use crate::laws::tidy::solid;
use crate::lines::{joined, split_lines, without};
use crate::outline::{drop_blank_end, has_heading, heading_index, next_stop, tidied, ItemModel};
use crate::prompt::lemma_entries_same;
use crate::rotate::{
    any_due, archive_after, archived, collapse_toggled, done_end, done_items, due_months, filed,
    filed_under, heads_month, history_after, history_filed, lemma_done_items, remaining, rotated,
};
use crate::search::{lemma_back_from_is, lemma_first_from, lemma_first_from_is};
use crate::task::{behind_box, ends_todo, heading_name, heading_named, is_top, section, stamp_of};
use crate::text::{before, is_blank};
use vstd::prelude::*;

verus! {

// ---------------------------------------------------------------------------------
// Which tasks roll over

/// Whether the first heading of Done is line `h` and what it heads ends before line `e`.
pub open spec fn spans_done(lines: Seq<Seq<char>>, h: int, e: int) -> bool {
    &&& heading_named(lines[h], "done"@)
    &&& forall|i: int| 0 <= i < h ==> !heading_named(#[trigger] lines[i], "done"@)
    &&& spans(lines, h, e)
}

/// Whether the section that line `h` heads ends before line `e`.
pub open spec fn spans(lines: Seq<Seq<char>>, h: int, e: int) -> bool {
    &&& 0 <= h < e <= lines.len()
    &&& forall|i: int| h < i < e ==> !ends_todo(#[trigger] lines[i])
    &&& e < lines.len() ==> ends_todo(lines[e])
}

proof fn lemma_spans(lines: Seq<Seq<char>>, h: int, e: int)
    requires
        spans(lines, h, e),
    ensures
        next_stop(lines, h + 1) == e,
{
    let p = |l: Seq<char>| ends_todo(l);
    assert forall|j: int| h + 1 <= j < e implies !p(#[trigger] lines[j]) by {
        assert(!ends_todo(lines[j]));
    }
    lemma_first_from_is(lines, h + 1, p, e);
}

proof fn lemma_spans_done(lines: Seq<Seq<char>>, h: int, e: int)
    requires
        spans_done(lines, h, e),
    ensures
        heading_index(lines, "done"@) == h,
        done_end(lines) == e,
        has_heading(lines, "done"@),
{
    let p = |l: Seq<char>| heading_named(l, "done"@);
    assert forall|j: int| 0 <= j < h implies !p(#[trigger] lines[j]) by {
        assert(!heading_named(lines[j], "done"@));
    }
    lemma_first_from_is(lines, 0, p, h);
    lemma_spans(lines, h, e);
}

/// The tasks that may roll over are the top-level tasks of the Done section, done or not:
/// all of them, no others, each with its whole block, in the order of the file.
pub proof fn law_tasks_of_done(lines: Seq<Seq<char>>, h: int, e: int)
    requires
        spans_done(lines, h, e),
    ensures
        forall|k: int|
            0 <= k < done_items(lines).len() ==> {
                let it = #[trigger] done_items(lines)[k];
                &&& h < it.start < e
                &&& is_top(lines[it.start])
                &&& whole_block(lines, it.start, it.start + it.len)
            },
        forall|j: int, k: int|
            0 <= j < k < done_items(lines).len() ==> (#[trigger] done_items(lines)[j]).start < (
            #[trigger] done_items(lines)[k]).start,
        forall|i: int|
            h < i < e && is_top(#[trigger] lines[i]) ==> exists|k: int|
                0 <= k < done_items(lines).len() && (#[trigger] done_items(lines)[k]).start == i,
{
    lemma_spans_done(lines, h, e);
    lemma_done_items(lines);
    let its = done_items(lines);
    assert forall|k: int| 0 <= k < its.len() implies {
        let it = #[trigger] its[k];
        &&& h < it.start < e
        &&& is_top(lines[it.start])
        &&& whole_block(lines, it.start, it.start + it.len)
    } by {
        law_block_is_whole(lines, its[k].start);
    }
    assert forall|i: int| h < i < e && is_top(#[trigger] lines[i]) implies exists|k: int|
        0 <= k < its.len() && (#[trigger] its[k]).start == i by {
        lemma_done_items_complete(lines, i);
    }
}

/// Without a heading of Done nothing rolls over.
pub proof fn law_nothing_without_done(s: State, due: Seq<Option<Seq<char>>>, history: Seq<char>)
    requires
        forall|i: int| 0 <= i < s.lines.len() ==> !heading_named(#[trigger] s.lines[i], "done"@),
    ensures
        rotated(s, due) == s,
        history_after(s, due, history) is None,
{
    let p = |l: Seq<char>| heading_named(l, "done"@);
    lemma_first_from(s.lines, 0, p);
}

/// A moment as the nanoseconds since some moment.
pub open spec fn nanos_of(at: Moment) -> int {
    at.secs * 1_000_000_000 + at.nanos
}

/// Whether the line of a done task names a moment before the cutoff, and which: what stands
/// in its stamp is such a moment.
pub open spec fn named_before(l: Seq<char>, cutoff: Moment, at: Moment) -> bool {
    &&& stamp_of(behind_box(l)) is Some
    &&& parsed(stamp_of(behind_box(l))->0, "%Y-%m-%d %H:%M"@) == Some(at)
    &&& nanos_of(at) < nanos_of(cutoff)
}

/// A task of the Done section rolls over if its stamp names a moment before the cutoff, and
/// only then, and it rolls over into the month of that moment.
pub proof fn law_what_rolls_over(lines: Seq<Seq<char>>, cutoff: Moment, k: int, at: Moment)
    requires
        0 <= k < done_items(lines).len(),
        cutoff.nanos < 1_000_000_000,
        at.nanos < 1_000_000_000,
    ensures
        due_months(lines, cutoff).len() == done_items(lines).len(),
        ({
            let l = lines[done_items(lines)[k].start];
            let month = due_months(lines, cutoff)[k];
            &&& named_before(l, cutoff, at) ==> month == Some(formatted(at, "## %Y-%m"@))
            &&& month is Some && parsed(stamp_of(behind_box(l))->0, "%Y-%m-%d %H:%M"@) == Some(at)
                ==> named_before(l, cutoff, at)
            &&& month is Some ==> stamp_of(behind_box(l)) is Some && parsed(
                stamp_of(behind_box(l))->0,
                "%Y-%m-%d %H:%M"@,
            ) is Some
        }),
{
}

/// Of two moments one is before the other as their nanoseconds are.
pub proof fn law_sooner(a: Moment, b: Moment)
    requires
        a.nanos < 1_000_000_000,
        b.nanos < 1_000_000_000,
    ensures
        sooner(a, b) == (nanos_of(a) < nanos_of(b)),
{
}

/// Done tasks stay for seven days.
pub proof fn law_a_week_is_kept(cutoff: Moment, now: Moment)
    ensures
        kept_days_before(cutoff, now) == (nanos_of(cutoff) + 7 * 24 * 60 * 60 * 1_000_000_000
            == nanos_of(now) && cutoff.nanos == now.nanos),
{
}

// ---------------------------------------------------------------------------------
// What stays

/// Whether line `i` belongs to a task that rolls over.
pub open spec fn leaves(lines: Seq<Seq<char>>, due: Seq<Option<Seq<char>>>, i: int) -> bool {
    exists|k: int|
        0 <= k < done_items(lines).len() && (#[trigger] due[k]) is Some && done_items(
            lines,
        )[k].start <= i < done_items(lines)[k].start + done_items(lines)[k].len
}

/// Whether `keep` lists the lines that belong to no task that rolls over, in order.
pub open spec fn lists_the_rest(
    lines: Seq<Seq<char>>,
    due: Seq<Option<Seq<char>>>,
    keep: Seq<int>,
) -> bool {
    &&& forall|j: int|
        0 <= j < keep.len() ==> 0 <= #[trigger] keep[j] < lines.len() && !leaves(
            lines,
            due,
            keep[j],
        )
    &&& forall|i: int, j: int| 0 <= i < j < keep.len() ==> #[trigger] keep[i] < #[trigger] keep[j]
    &&& forall|i: int|
        0 <= i < lines.len() && !#[trigger] leaves(lines, due, i) ==> keep.contains(i)
}

/// The lines at these places.
pub open spec fn lines_at(lines: Seq<Seq<char>>, keep: Seq<int>) -> Seq<Seq<char>> {
    Seq::new(keep.len(), |j: int| lines[keep[j]])
}

spec fn leaves_from(
    lines: Seq<Seq<char>>,
    due: Seq<Option<Seq<char>>>,
    n: int,
    i: int,
) -> bool {
    exists|k: int|
        n <= k < done_items(lines).len() && (#[trigger] due[k]) is Some && done_items(
            lines,
        )[k].start <= i < done_items(lines)[k].start + done_items(lines)[k].len
}

spec fn lists_from(
    lines: Seq<Seq<char>>,
    due: Seq<Option<Seq<char>>>,
    n: int,
    keep: Seq<int>,
) -> bool {
    &&& forall|j: int|
        0 <= j < keep.len() ==> 0 <= #[trigger] keep[j] < lines.len() && !leaves_from(
            lines,
            due,
            n,
            keep[j],
        )
    &&& forall|i: int, j: int| 0 <= i < j < keep.len() ==> #[trigger] keep[i] < #[trigger] keep[j]
    &&& forall|i: int|
        0 <= i < lines.len() && !#[trigger] leaves_from(lines, due, n, i) ==> keep.contains(i)
}

/// The line that the `n`th task of the Done section starts at; the number of lines if there are
/// not as many.
spec fn upto(lines: Seq<Seq<char>>, n: int) -> int {
    if n < done_items(lines).len() {
        done_items(lines)[n].start
    } else {
        lines.len() as int
    }
}

proof fn lemma_leaves_next(lines: Seq<Seq<char>>, due: Seq<Option<Seq<char>>>, n: int, i: int)
    requires
        0 <= n < done_items(lines).len(),
    ensures
        leaves_from(lines, due, n, i) == (leaves_from(lines, due, n + 1, i) || (due[n] is Some
            && done_items(lines)[n].start <= i < done_items(lines)[n].start + done_items(
            lines,
        )[n].len)),
{
    let its = done_items(lines);
    if leaves_from(lines, due, n, i) {
        let k = choose|k: int|
            n <= k < its.len() && (#[trigger] due[k]) is Some && its[k].start <= i < its[k].start
                + its[k].len;
        if k != n {
            assert(n + 1 <= k && due[k] is Some);
        }
    }
    if leaves_from(lines, due, n + 1, i) {
        let k = choose|k: int|
            n + 1 <= k < its.len() && (#[trigger] due[k]) is Some && its[k].start <= i
                < its[k].start + its[k].len;
        assert(n <= k && due[k] is Some);
    }
}

proof fn lemma_cut_kept(
    lines: Seq<Seq<char>>,
    due: Seq<Option<Seq<char>>>,
    n: int,
    rest: Seq<int>,
)
    requires
        0 <= n < done_items(lines).len(),
        due[n] is Some,
        lists_from(lines, due, n + 1, rest),
        ({
            let it = done_items(lines)[n];
            &&& 0 <= it.start < it.start + it.len <= rest.len()
            &&& forall|i: int| 0 <= i < it.start + it.len ==> #[trigger] rest[i] == i
        }),
    ensures
        ({
            let it = done_items(lines)[n];
            lists_from(lines, due, n, rest.take(it.start) + rest.skip(it.start + it.len))
        }),
{
    let st = done_items(lines)[n].start;
    let en = st + done_items(lines)[n].len;
    let keep = rest.take(st) + rest.skip(en);
    assert forall|j: int| 0 <= j < keep.len() implies 0 <= #[trigger] keep[j] < lines.len()
        && !leaves_from(lines, due, n, keep[j]) by {
        let from = if j < st {
            j
        } else {
            j + (en - st)
        };
        assert(keep[j] == rest[from]);
        assert(!leaves_from(lines, due, n + 1, rest[from]));
        if j >= st {
            assert(rest[en - 1] == en - 1);
            assert(rest[en - 1] < rest[from]);
        } else {
            assert(rest[j] == j);
        }
        lemma_leaves_next(lines, due, n, keep[j]);
    }
    assert forall|i: int, j: int| 0 <= i < j < keep.len() implies #[trigger] keep[i]
        < #[trigger] keep[j] by {
        let fi = if i < st {
            i
        } else {
            i + (en - st)
        };
        let fj = if j < st {
            j
        } else {
            j + (en - st)
        };
        assert(keep[i] == rest[fi] && keep[j] == rest[fj]);
    }
    assert forall|i: int|
        0 <= i < lines.len() && !#[trigger] leaves_from(lines, due, n, i) implies keep.contains(
        i,
    ) by {
        lemma_leaves_next(lines, due, n, i);
        assert(!leaves_from(lines, due, n + 1, i));
        let j = choose|j: int| 0 <= j < rest.len() && rest[j] == i;
        if j < en {
            assert(rest[j] == j);
            assert(keep[j] == i);
        } else {
            assert(keep[j - (en - st)] == rest[j]);
        }
    }
}

proof fn lemma_kept(lines: Seq<Seq<char>>, due: Seq<Option<Seq<char>>>, n: int) -> (keep: Seq<int>)
    requires
        due.len() == done_items(lines).len(),
        0 <= n <= done_items(lines).len(),
    ensures
        lists_from(lines, due, n, keep),
        remaining(lines, done_items(lines), due, n) == lines_at(lines, keep),
        upto(lines, n) <= keep.len(),
        forall|i: int| 0 <= i < upto(lines, n) ==> #[trigger] keep[i] == i,
    decreases done_items(lines).len() - n,
{
    let its = done_items(lines);
    lemma_done_items(lines);
    if n >= its.len() {
        let keep = Seq::new(lines.len(), |i: int| i);
        assert(lines_at(lines, keep) =~= lines);
        assert forall|i: int|
            0 <= i < lines.len() && !#[trigger] leaves_from(lines, due, n, i) implies keep.contains(
            i,
        ) by {
            assert(keep[i] == i);
        }
        keep
    } else {
        let rest = lemma_kept(lines, due, n + 1);
        let st = its[n].start;
        let en = its[n].start + its[n].len;
        assert(en <= upto(lines, n + 1)) by {
            if n + 1 < its.len() {
                assert(its[n].start + its[n].len <= its[n + 1].start);
            }
        }
        if due[n] is Some {
            let keep = rest.take(st) + rest.skip(en);
            lemma_cut_kept(lines, due, n, rest);
            assert(without(lines_at(lines, rest), st, en) =~= lines_at(lines, keep));
            keep
        } else {
            assert forall|i: int| #[trigger]
                leaves_from(lines, due, n, i) == leaves_from(lines, due, n + 1, i) by {
                lemma_leaves_next(lines, due, n, i);
            }
            assert(lists_from(lines, due, n, rest));
            rest
        }
    }
}

/// When tasks roll over, the lines that belong to none of them stay, in their order, and no
/// others do; then blank lines are put in order. Nothing else changes but a selection out of
/// range.
pub proof fn law_the_rest_stays(s: State, due: Seq<Option<Seq<char>>>)
    requires
        due.len() == done_items(s.lines).len(),
        has_heading(s.lines, "done"@),
    ensures
        exists|keep: Seq<int>| #[trigger]
            lists_the_rest(s.lines, due, keep) && (any_due(due) ==> rotated(s, due).lines == tidied(
                lines_at(s.lines, keep),
            )),
        rotated(s, due) == (State {
            lines: rotated(s, due).lines,
            cursor: rotated(s, due).cursor,
            sub: rotated(s, due).sub,
            ..s
        }),
        !any_due(due) ==> rotated(s, due) == s,
{
    let keep = lemma_kept(s.lines, due, 0);
    assert forall|i: int| leaves(s.lines, due, i) == leaves_from(s.lines, due, 0, i) by {}
    assert(lists_the_rest(s.lines, due, keep)) by {
        assert forall|i: int|
            0 <= i < s.lines.len() && !#[trigger] leaves(s.lines, due, i) implies keep.contains(
            i,
        ) by {
            assert(!leaves_from(s.lines, due, 0, i));
        }
    }
}

// ---------------------------------------------------------------------------------
// What the history holds

/// What stands under a month is the lines behind its first heading up to the next heading of
/// a section, but for blank ones.
pub proof fn law_what_stands_under_a_month(
    hist: Seq<Seq<char>>,
    month: Seq<char>,
    h: int,
    e: int,
)
    requires
        0 <= h < e <= hist.len(),
        hist[h] == month,
        forall|i: int| 0 <= i < h ==> #[trigger] hist[i] != month,
        forall|i: int| h < i < e ==> !"##"@.is_prefix_of(#[trigger] hist[i]),
        e < hist.len() ==> "##"@.is_prefix_of(hist[e]),
    ensures
        under_month(hist, month) == solid(hist.subrange(h + 1, e)),
{
    reveal_strlit("##");
    let p = |l: Seq<char>| heads_month(l, month);
    lemma_first_from_is(hist, 0, p, h);
    let q = |l: Seq<char>| section(l);
    assert forall|i: int| h + 1 <= i < e implies !q(#[trigger] hist[i]) by {
        if section(hist[i]) {
            assert("##"@.is_prefix_of(hist[i]));
        }
    }
    if e < hist.len() {
        assert(hist[e][0] == "##"@[0] && hist[e][1] == "##"@[1]);
    }
    lemma_first_from_is(hist, h + 1, q, e);
}

/// Under a month that the history does not have nothing stands.
pub proof fn law_nothing_under_no_month(hist: Seq<Seq<char>>, month: Seq<char>)
    requires
        !hist.contains(month),
    ensures
        under_month(hist, month) == Seq::<Seq<char>>::empty(),
{
    let p = |l: Seq<char>| heads_month(l, month);
    assert forall|i: int| 0 <= i < hist.len() implies !p(#[trigger] hist[i]) by {
        assert(hist.contains(hist[i]));
    }
    lemma_first_from_is(hist, 0, p, hist.len() as int);
}

/// Whether `at` lists those of the first `n` tasks that roll over into this month, in order.
pub open spec fn lists_month(
    due: Seq<Option<Seq<char>>>,
    month: Seq<char>,
    n: int,
    at: Seq<int>,
) -> bool {
    &&& forall|j: int|
        0 <= j < at.len() ==> 0 <= #[trigger] at[j] < n && due[at[j]] == Some(month)
    &&& forall|i: int, j: int| 0 <= i < j < at.len() ==> #[trigger] at[i] < #[trigger] at[j]
    &&& forall|k: int| 0 <= k < n && #[trigger] due[k] == Some(month) ==> at.contains(k)
}

/// The lines that are not blank of each of these tasks.
pub open spec fn blocks_at(lines: Seq<Seq<char>>, at: Seq<int>) -> Seq<Seq<Seq<char>>> {
    Seq::new(
        at.len(),
        |j: int|
            {
                let it = done_items(lines)[at[j]];
                solid(lines.subrange(it.start, it.start + it.len))
            },
    )
}

proof fn lemma_rolled_into(
    lines: Seq<Seq<char>>,
    due: Seq<Option<Seq<char>>>,
    month: Seq<char>,
    n: int,
    at: Seq<int>,
)
    requires
        0 <= n <= due.len(),
        lists_month(due, month, n, at),
    ensures
        rolled_into(lines, due, month, n) == blocks_at(lines, at).flatten(),
    decreases n,
{
    let all = blocks_at(lines, at);
    if n == 0 {
        if at.len() > 0 {
            assert(0 <= at[0] < n);
        }
        assert(all.len() == 0);
    } else if due[n - 1] == Some(month) {
        let j = choose|j: int| 0 <= j < at.len() && at[j] == n - 1;
        if j < at.len() - 1 {
            assert(at[j] < at[at.len() - 1]);
        }
        let rest = at.drop_last();
        assert forall|k: int| 0 <= k < n - 1 && #[trigger] due[k] == Some(
            month,
        ) implies rest.contains(k) by {
            let i = choose|i: int| 0 <= i < at.len() && at[i] == k;
            assert(rest[i] == k);
        }
        assert forall|i: int| 0 <= i < rest.len() implies 0 <= #[trigger] rest[i] < n - 1
            && due[rest[i]] == Some(month) by {
            assert(at[i] < at[at.len() - 1]);
        }
        lemma_rolled_into(lines, due, month, n - 1, rest);
        assert(all.drop_last() =~= blocks_at(lines, rest));
        all.lemma_flatten_and_flatten_alt_are_equivalent();
        all.drop_last().lemma_flatten_and_flatten_alt_are_equivalent();
    } else {
        assert forall|i: int| 0 <= i < at.len() implies 0 <= #[trigger] at[i] < n - 1 && due[at[i]]
            == Some(month) by {}
        lemma_rolled_into(lines, due, month, n - 1, at);
    }
}

/// Under each month stands what stood there, and behind that the tasks that roll over into
/// it, one after the other in the order of the file, each with all its lines that are not
/// blank.
pub proof fn law_a_month_holds_its_tasks(
    lines: Seq<Seq<char>>,
    due: Seq<Option<Seq<char>>>,
    hist: Seq<Seq<char>>,
    month: Seq<char>,
    at: Seq<int>,
)
    requires
        due.len() == done_items(lines).len(),
        forall|i: int|
            0 <= i < due.len() && (#[trigger] due[i]) is Some ==> "## "@.is_prefix_of(due[i]->0),
        "## "@.is_prefix_of(month),
        lists_month(due, month, due.len() as int, at),
    ensures
        under_month(history_filed(lines, due, hist), month) == under_month(hist, month) + blocks_at(
            lines,
            at,
        ).flatten(),
{
    law_months_hold_their_tasks(lines, due, hist, month);
    lemma_rolled_into(lines, due, month, due.len() as int, at);
}

/// A block is filed at the end of its month: before the next heading of a section, or at the
/// end of the history.
pub proof fn law_block_is_filed(
    hist: Seq<Seq<char>>,
    month: Seq<char>,
    block: Seq<Seq<char>>,
    h: int,
    e: int,
)
    requires
        0 <= h < e <= hist.len(),
        hist[h] == month,
        forall|i: int| 0 <= i < h ==> #[trigger] hist[i] != month,
        forall|i: int| h < i < e ==> !"##"@.is_prefix_of(#[trigger] hist[i]),
        e < hist.len() ==> "##"@.is_prefix_of(hist[e]),
    ensures
        filed_under(hist, month, block) == hist.take(e) + block + hist.skip(e),
{
    reveal_strlit("##");
    let p = |l: Seq<char>| heads_month(l, month);
    lemma_first_from_is(hist, 0, p, h);
    let q = |l: Seq<char>| section(l);
    assert forall|i: int| h + 1 <= i < e implies !q(#[trigger] hist[i]) by {
        if section(hist[i]) {
            assert("##"@.is_prefix_of(hist[i]));
        }
    }
    if e < hist.len() {
        assert(hist[e][0] == "##"@[0] && hist[e][1] == "##"@[1]);
    }
    lemma_first_from_is(hist, h + 1, q, e);
    assert(filed_under(hist, month, block) =~= hist.take(e) + block + hist.skip(e));
}

/// A month that the history does not have gets its heading, an empty line and the block right
/// before the first heading that comes after it, or at the end of the history.
pub proof fn law_month_is_opened(
    hist: Seq<Seq<char>>,
    month: Seq<char>,
    block: Seq<Seq<char>>,
    at: int,
)
    requires
        !hist.contains(month),
        0 <= at <= hist.len(),
        forall|i: int|
            0 <= i < at ==> !("## "@.is_prefix_of(#[trigger] hist[i]) && before(month, hist[i])),
        at < hist.len() ==> "## "@.is_prefix_of(hist[at]) && before(month, hist[at]),
    ensures
        filed_under(hist, month, block) == hist.take(at) + seq![month, Seq::empty()] + block
            + hist.skip(at),
{
    let p = |l: Seq<char>| heads_month(l, month);
    assert forall|i: int| 0 <= i < hist.len() implies !p(#[trigger] hist[i]) by {
        assert(hist.contains(hist[i]));
    }
    lemma_first_from_is(hist, 0, p, hist.len() as int);
    let q = |l: Seq<char>| "## "@.is_prefix_of(l) && before(month, l);
    assert forall|i: int| 0 <= i < at implies !q(#[trigger] hist[i]) by {
        assert(!("## "@.is_prefix_of(hist[i]) && before(month, hist[i])));
    }
    lemma_first_from_is(hist, 0, q, at);
    assert(filed_under(hist, month, block) =~= hist.take(at) + seq![month, Seq::empty()] + block
        + hist.skip(at));
}

/// Whether `at` lists those of the first `n` tasks that roll over, in order.
pub open spec fn lists_rolling(due: Seq<Option<Seq<char>>>, n: int, at: Seq<int>) -> bool {
    &&& forall|j: int| 0 <= j < at.len() ==> 0 <= #[trigger] at[j] < n && due[at[j]] is Some
    &&& forall|i: int, j: int| 0 <= i < j < at.len() ==> #[trigger] at[i] < #[trigger] at[j]
    &&& forall|k: int| 0 <= k < n && (#[trigger] due[k]) is Some ==> at.contains(k)
}

/// Whether the histories follow each other: each is the one before with the next of these
/// tasks filed under its month.
pub open spec fn files_each(
    lines: Seq<Seq<char>>,
    due: Seq<Option<Seq<char>>>,
    at: Seq<int>,
    steps: Seq<Seq<Seq<char>>>,
) -> bool {
    &&& steps.len() == at.len() + 1
    &&& forall|j: int|
        0 <= j < at.len() ==> {
            let it = done_items(lines)[at[j]];
            #[trigger] steps[j + 1] == filed_under(
                steps[j],
                due[at[j]]->0,
                lines.subrange(it.start, it.start + it.len),
            )
        }
}

proof fn lemma_files_each(
    lines: Seq<Seq<char>>,
    due: Seq<Option<Seq<char>>>,
    n: int,
    at: Seq<int>,
    steps: Seq<Seq<Seq<char>>>,
)
    requires
        0 <= n <= due.len(),
        due.len() == done_items(lines).len(),
        lists_rolling(due, n, at),
        files_each(lines, due, at, steps),
    ensures
        filed(steps[0], lines, done_items(lines), due, n) == steps.last(),
    decreases n,
{
    if n == 0 {
        if at.len() > 0 {
            assert(0 <= at[0] < n);
        }
    } else if due[n - 1] is Some {
        let j = choose|j: int| 0 <= j < at.len() && at[j] == n - 1;
        if j < at.len() - 1 {
            assert(at[j] < at[at.len() - 1]);
        }
        let rest = at.drop_last();
        let fewer = steps.drop_last();
        assert forall|k: int| 0 <= k < n - 1 && (#[trigger] due[k]) is Some implies rest.contains(
            k,
        ) by {
            let i = choose|i: int| 0 <= i < at.len() && at[i] == k;
            assert(rest[i] == k);
        }
        assert forall|i: int| 0 <= i < rest.len() implies 0 <= #[trigger] rest[i] < n - 1
            && due[rest[i]] is Some by {
            assert(at[i] < at[at.len() - 1]);
        }
        assert forall|j: int| 0 <= j < rest.len() implies {
            let it = done_items(lines)[rest[j]];
            #[trigger] fewer[j + 1] == filed_under(
                fewer[j],
                due[rest[j]]->0,
                lines.subrange(it.start, it.start + it.len),
            )
        } by {
            assert(steps[j + 1] == fewer[j + 1]);
        }
        lemma_files_each(lines, due, n - 1, rest, fewer);
        assert(steps[at.len() - 1 + 1] == steps.last());
        assert(fewer.last() == steps[at.len() - 1]);
        assert(fewer[0] == steps[0]);
    } else {
        assert forall|i: int| 0 <= i < at.len() implies 0 <= #[trigger] at[i] < n - 1 && due[at[i]]
            is Some by {}
        lemma_files_each(lines, due, n - 1, at, steps);
    }
}

/// The tasks that roll over are filed one after the other, in the order of the file, each
/// under its month with its whole block; then blank lines are put in order.
pub proof fn law_each_task_is_filed(
    lines: Seq<Seq<char>>,
    due: Seq<Option<Seq<char>>>,
    at: Seq<int>,
    steps: Seq<Seq<Seq<char>>>,
)
    requires
        due.len() == done_items(lines).len(),
        lists_rolling(due, due.len() as int, at),
        files_each(lines, due, at, steps),
    ensures
        history_filed(lines, due, steps[0]) == tidied(steps.last()),
{
    lemma_files_each(lines, due, due.len() as int, at, steps);
}

/// The history is written if a task rolls over, and only then: its lines, each followed by a
/// newline.
pub proof fn law_history_is_written(
    s: State,
    due: Seq<Option<Seq<char>>>,
    history: Seq<char>,
    h: int,
    e: int,
)
    requires
        spans_done(s.lines, h, e),
    ensures
        history_after(s, due, history) == (if exists|k: int|
            0 <= k < due.len() && (#[trigger] due[k]) is Some {
            Some(
                joined(history_filed(s.lines, due, split_lines(history, 1)), seq!['\n']) + seq![
                    '\n',
                ],
            )
        } else {
            None
        }),
{
    reveal_strlit("\n");
    assert("\n"@ =~= seq!['\n']);
    lemma_spans_done(s.lines, h, e);
}

// ---------------------------------------------------------------------------------
// The archive

/// Whether the lines from `h` up to `f` are those of a section that ends before `e`, without
/// the blank ones at its end.
pub open spec fn body_of(lines: Seq<Seq<char>>, h: int, f: int, e: int) -> bool {
    &&& spans(lines, h, e)
    &&& h < f <= e
    &&& !is_blank(lines[f - 1])
    &&& forall|i: int| f <= i < e ==> is_blank(#[trigger] lines[i])
}

/// Archiving takes the selected collapsed section out of the todo file, from its heading up
/// to where it ends, and no other line; then blank lines are put in order. Its name is no
/// longer one of a collapsed section.
pub proof fn law_archive_takes_the_section(s: State, h: int, e: int)
    requires
        0 <= s.cursor < entries_of(s).len(),
        entries_of(s)[s.cursor] == EntryModel::Section(h),
        spans(s.lines, h, e),
    ensures
        archived(s).lines == tidied(s.lines.take(h) + s.lines.skip(e)),
        archived(s).collapsed == s.collapsed.remove(heading_name(s.lines[h])),
{
    lemma_spans(s.lines, h, e);
}

/// The archive gets the section's lines, each followed by a newline, behind what it held;
/// between the two stands an empty line, unless the archive was empty or ended in one.
pub proof fn law_archive_gets_the_section(
    s: State,
    text: Seq<char>,
    h: int,
    f: int,
    e: int,
)
    requires
        0 <= s.cursor < entries_of(s).len(),
        entries_of(s)[s.cursor] == EntryModel::Section(h),
        body_of(s.lines, h, f, e),
    ensures
        ({
            let n = text.len();
            let gap = n == 0 || (n >= 2 && text[n - 1] == '\n' && text[n - 2] == '\n');
            let body = joined(s.lines.subrange(h, f), seq!['\n']) + seq!['\n'];
            archive_after(s, text) == Some(
                if gap {
                    text + body
                } else {
                    text + seq!['\n'] + body
                },
            )
        }),
{
    reveal_strlit("\n");
    assert("\n"@ =~= seq!['\n']);
    lemma_spans(s.lines, h, e);
    let b = s.lines.subrange(h, e);
    let p = |l: Seq<char>| !is_blank(l);
    assert(b[f - h - 1] == s.lines[f - 1]);
    assert forall|j: int| f - h <= j < b.len() implies !p(#[trigger] b[j]) by {
        assert(b[j] == s.lines[h + j]);
    }
    lemma_back_from_is(b, b.len() as int, p, f - h);
    assert(drop_blank_end(b) =~= s.lines.subrange(h, f));
    let body = joined(s.lines.subrange(h, f), seq!['\n']);
    assert(text + body + seq!['\n'] =~= text + (body + seq!['\n']));
    assert(text + seq!['\n'] + body + seq!['\n'] =~= text + seq!['\n'] + (body + seq!['\n']));
}

/// Nothing but a collapsed section is archived.
pub proof fn law_only_collapsed_sections_are_archived(s: State, text: Seq<char>)
    requires
        !(0 <= s.cursor < entries_of(s).len() && entries_of(s)[s.cursor] is Section),
    ensures
        archive_after(s, text) is None,
        archived(s) == (State { status: archived(s).status, ..s }),
{
}

/// Joined lines are the lines with the separator between each two.
pub proof fn law_joined(lines: Seq<Seq<char>>, l: Seq<char>, sep: Seq<char>)
    ensures
        joined(seq![l], sep) == l,
        lines.len() > 0 ==> joined(lines.push(l), sep) == joined(lines, sep) + sep + l,
{
    if lines.len() > 0 {
        assert(lines.push(l).drop_last() =~= lines);
    }
}

// ---------------------------------------------------------------------------------
// Collapsed sections

/// Collapsing folds the section that the selected task stands in, the one whose heading is
/// the last above it that ends what is before, and no other; without a heading of a section
/// there nothing is folded.
pub proof fn law_collapse_folds_the_section(s: State, it: ItemModel, h: int)
    requires
        0 <= s.cursor < entries_of(s).len(),
        entries_of(s)[s.cursor] == EntryModel::Task(it),
        0 <= h < it.start,
        ends_todo(s.lines[h]),
        forall|i: int| h < i < it.start ==> !ends_todo(#[trigger] s.lines[i]),
    ensures
        ({
            let t = collapse_toggled(s);
            &&& t == (State {
                collapsed: t.collapsed,
                cursor: t.cursor,
                sub: t.sub,
                status: t.status,
                ..s
            })
            &&& section(s.lines[h]) ==> t.sub is None && t.collapsed == s.collapsed.insert(
                heading_name(s.lines[h]),
            )
            &&& !section(s.lines[h]) ==> t == (State { status: t.status, ..s })
        }),
{
    lemma_item_under(s);
    let p = |l: Seq<char>| ends_todo(l);
    assert forall|i: int| h + 1 <= i < it.start implies !p(#[trigger] s.lines[i]) by {
        assert(!ends_todo(s.lines[i]));
    }
    lemma_back_from_is(s.lines, it.start, p, h + 1);
}

/// A task above all headings stands in no section, and nothing is folded there.
pub proof fn law_top_area_is_not_folded(s: State, it: ItemModel)
    requires
        0 <= s.cursor < entries_of(s).len(),
        entries_of(s)[s.cursor] == EntryModel::Task(it),
        forall|i: int| 0 <= i < it.start ==> !ends_todo(#[trigger] s.lines[i]),
    ensures
        collapse_toggled(s) == (State { status: collapse_toggled(s).status, ..s }),
{
    lemma_item_under(s);
    let p = |l: Seq<char>| ends_todo(l);
    assert forall|i: int| 0 <= i < it.start implies !p(#[trigger] s.lines[i]) by {
        assert(!ends_todo(s.lines[i]));
    }
    lemma_back_from_is(s.lines, it.start, p, 0);
}

/// Expanding unfolds the selected section and no other, and the selection stays where it is
/// if there is an entry.
pub proof fn law_expand_unfolds_the_section(s: State, h: int)
    requires
        0 <= s.cursor < entries_of(s).len(),
        entries_of(s)[s.cursor] == EntryModel::Section(h),
    ensures
        ({
            let t = collapse_toggled(s);
            &&& t == (State { collapsed: t.collapsed, cursor: t.cursor, sub: t.sub, ..s })
            &&& t.collapsed == s.collapsed.remove(heading_name(s.lines[h]))
            &&& s.cursor < entries_of(t).len() ==> t.cursor == s.cursor
        }),
{
    let u = State { collapsed: s.collapsed.remove(heading_name(s.lines[h])), ..s };
    lemma_entries_same(u, collapse_toggled(s), s.lines.len() as int);
}

} // verus!
