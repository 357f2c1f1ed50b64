//! Adding, retitling, checking and deleting tasks and subtasks, and moving a task past its
//! neighbour: which lines change, told from the lines alone.
use crate::app::{
    clamped, entries_of, item_under, lemma_item_under, lemma_tasks_in, line_under, remembered,
    subs_of, State,
};
use crate::blocks::lemma_with_mark;
use crate::laws::entries::{
    holds_task, law_selected_line, law_subtasks, law_task_lines_are_unique, law_what_can_be_moved,
    selects, task_lines,
};
use crate::laws::moves::{ends_top, own_block};
use crate::laws::prompt::{
    law_new_sub_before_done_ones, law_new_task_is_selected, law_sub_sinks_in_its_block,
    lemma_filter_halves, lemma_new_task, lemma_put_at, lemma_put_at_top_end, lemma_sub_added_item,
    lemma_tasks_complete,
};
use crate::laws::reorder::{entry_lines, law_move_down, law_move_up, lemma_neighbours};
use crate::laws::tidy::solid;
use crate::moves::{reorder_pair, reordered};
use crate::outline::{lemma_heading_not_blank, moved, next_stop, tidied, top_end, ItemModel};
use crate::prompt::{added, deleted, edited, lemma_entries_same, sub_added, sub_place};
use crate::search::{back_from, lemma_back_from, lemma_first_from};
use crate::task::{ends_todo, is_done, is_task, retitled, with_mark};
use crate::text::is_blank;
use crate::toggle::{at_lines, sub_toggled};
use vstd::prelude::*;

verus! {

// ---------------------------------------------------------------------------------
// Deletion

/// Deleting a subtask takes its line out and no other: the lines before it and behind it stay
/// as they are, in their order.
pub proof fn law_delete_takes_one_sub(s: State, it: ItemModel, i: int)
    requires
        s.sub is Some,
        selects(s, it, i),
    ensures
        ({
            let t = deleted(s);
            &&& t.lines.len() == s.lines.len() - 1
            &&& forall|j: int| 0 <= j < i ==> #[trigger] t.lines[j] == s.lines[j]
            &&& forall|j: int| i <= j < t.lines.len() ==> #[trigger] t.lines[j] == s.lines[j + 1]
            &&& it.start < i < it.start + it.len
            &&& is_task(s.lines[i])
        }),
{
    law_selected_line(s, it, i);
    lemma_item_under(s);
    lemma_tasks_in(s.lines, it.start + 1, it.start + it.len);
}

/// Deleting a task takes its block out, and nothing else: the other lines stay, in their
/// order, with the blank lines between them put in order.
pub proof fn law_delete_takes_the_block(s: State, it: ItemModel)
    requires
        s.sub is None,
        holds_task(s, s.cursor, it),
    ensures
        deleted(s).lines == tidied(s.lines.take(it.start) + s.lines.skip(it.start + it.len)),
{
    law_selected_line(s, it, it.start);
}

/// Where nothing is selected nothing is deleted.
pub proof fn law_delete_needs_a_selection(s: State)
    requires
        forall|it: ItemModel, i: int| !#[trigger] selects(s, it, i),
    ensures
        deleted(s).lines == s.lines,
        (forall|it: ItemModel| !#[trigger] holds_task(s, s.cursor, it)) ==> deleted(s) == s,
{
    if let Some(it) = item_under(s) {
        law_selected_line(s, it, it.start);
        if let Some(i) = line_under(s) {
            law_selected_line(s, it, i);
            assert(selects(s, it, i));
        }
    }
}

/// A deletion leaves everything but the lines, what undo remembers, the status and a selection
/// out of range as it is.
pub proof fn law_delete_keeps_the_rest(s: State)
    requires
        s.cursor >= 0,
    ensures
        ({
            let t = deleted(s);
            &&& t == (State { lines: t.lines, undo: t.undo, status: t.status, cursor: t.cursor, sub:
                t.sub, ..s })
            &&& s.cursor < entries_of(t).len() ==> t.cursor == s.cursor
        }),
{
    let t = deleted(s);
    let bare = State { lines: t.lines, ..remembered(s) };
    lemma_entries_same(bare, t, t.lines.len() as int);
    assert(t.cursor == s.cursor || t == (State { status: t.status, ..clamped(bare) }));
}

// ---------------------------------------------------------------------------------
// Titles

/// Another title changes the selected line and no other, and nothing else but what undo
/// remembers.
pub proof fn law_edit_changes_one_line(s: State, it: ItemModel, i: int, text: Seq<char>)
    requires
        selects(s, it, i),
    ensures
        ({
            let t = edited(s, text);
            &&& 0 <= i < s.lines.len()
            &&& t.lines.len() == s.lines.len()
            &&& t.lines[i] == retitled(s.lines[i], text)
            &&& forall|j: int| 0 <= j < s.lines.len() && j != i ==> #[trigger] t.lines[j]
                == s.lines[j]
            &&& t == (State { lines: t.lines, undo: t.undo, ..s })
        }),
{
    law_selected_line(s, it, i);
    lemma_item_under(s);
    lemma_tasks_in(s.lines, it.start + 1, it.start + it.len);
}

/// Where nothing is selected no title changes.
pub proof fn law_edit_needs_a_selection(s: State, text: Seq<char>)
    requires
        forall|it: ItemModel, i: int| !#[trigger] selects(s, it, i),
    ensures
        edited(s, text) == s,
{
    if let Some(it) = item_under(s) {
        if let Some(i) = line_under(s) {
            law_selected_line(s, it, i);
            assert(selects(s, it, i));
        }
    }
}

// ---------------------------------------------------------------------------------
// New tasks and subtasks

/// Whether line `i` is the last of Todo that is not blank.
pub open spec fn closes_todo(lines: Seq<Seq<char>>, i: int) -> bool {
    &&& forall|j: int| 0 <= j <= i ==> !ends_todo(#[trigger] lines[j])
    &&& forall|j: int|
        i < j < lines.len() && !is_blank(#[trigger] lines[j]) && (forall|k: int|
            i < k < j ==> is_blank(#[trigger] lines[k])) ==> ends_todo(lines[j])
}

proof fn lemma_closes_todo(lines: Seq<Seq<char>>, i: int)
    requires
        0 <= i < lines.len(),
        i + 1 == top_end(lines),
    ensures
        closes_todo(lines, i),
{
    let p = |l: Seq<char>| ends_todo(l);
    let q = |l: Seq<char>| !is_blank(l);
    lemma_first_from(lines, 0, p);
    let n = next_stop(lines, 0);
    lemma_back_from(lines, n, q);
    assert forall|j: int| 0 <= j <= i implies !ends_todo(#[trigger] lines[j]) by {
        assert(!p(lines[j]));
    }
    assert forall|j: int|
        i < j < lines.len() && !is_blank(#[trigger] lines[j]) && (forall|k: int|
            i < k < j ==> is_blank(#[trigger] lines[k])) implies ends_todo(lines[j]) by {
        if j < n {
            assert(!q(lines[j]));
        } else {
            assert(p(lines[n]));
            lemma_heading_not_blank(lines[n]);
        }
    }
}

/// A new task is an open box with the text that was typed, put in as one line at the end of
/// Todo, and it is the one that is selected. Nothing else changes but blank lines.
pub proof fn law_new_task(s: State, text: Seq<char>)
    ensures
        ({
            let t = added(s, text);
            let l = "- [ ] "@ + text;
            &&& exists|a: Seq<Seq<char>>, c: Seq<Seq<char>>|
                {
                    &&& t.lines == #[trigger] tidied(a.push(l) + c)
                    &&& a + c == s.lines
                    &&& ends_top(solid(a), solid(c))
                }
            &&& exists|it: ItemModel|
                #[trigger] holds_task(t, t.cursor, it) && t.lines[it.start] == l && closes_todo(
                    t.lines,
                    it.start,
                )
            &&& t.sub is None
            &&& t == (State { lines: t.lines, undo: t.undo, status: "added"@, cursor: t.cursor, sub:
                None, ..s })
        }),
{
    let t = added(s, text);
    let l = "- [ ] "@ + text;
    law_new_task_is_selected(s, text);
    let it = item_under(t)->0;
    assert(holds_task(t, t.cursor, it));
    lemma_item_under(t);
    lemma_closes_todo(t.lines, it.start);
    let d = top_end(s.lines);
    lemma_new_task(text);
    lemma_put_at_top_end(s.lines, l);
    let a = s.lines.take(d);
    let c = s.lines.skip(d);
    assert(a.push(l) + c =~= s.lines.insert(d, l));
    assert(a + c =~= s.lines);
    assert(t.lines == tidied(a.push(l) + c));
}

/// Whether `place` is where a new subtask goes in a task's block: right behind the last open
/// subtask, or else before the first subtask, or else right beneath the task.
pub open spec fn sub_goes_to(lines: Seq<Seq<char>>, it: ItemModel, place: int) -> bool {
    &&& it.start < place <= it.start + it.len
    &&& forall|i: int|
        place <= i < it.start + it.len && is_task(#[trigger] lines[i]) ==> is_done(lines[i])
    &&& {
        ||| it.start < place - 1 && is_task(lines[place - 1]) && !is_done(lines[place - 1])
        ||| {
            &&& forall|i: int| it.start < i < place ==> !is_task(#[trigger] lines[i])
            &&& place < it.start + it.len && is_task(lines[place])
        }
        ||| {
            &&& place == it.start + 1
            &&& forall|i: int|
                it.start < i < it.start + it.len ==> !is_task(#[trigger] lines[i])
        }
    }
}

/// A new subtask is an indented open box with the text that was typed, put into the block of
/// the task under the cursor as one line behind the open subtasks and above the done ones, and
/// it is the one that is selected. No other line changes.
pub proof fn law_new_sub(s: State, it: ItemModel, text: Seq<char>)
    requires
        holds_task(s, s.cursor, it),
    ensures
        ({
            let t = sub_added(s, text);
            exists|place: int, grown: ItemModel|
                {
                    &&& sub_goes_to(s.lines, it, place)
                    &&& t.lines == s.lines.insert(place, "  - [ ] "@ + text)
                    &&& #[trigger] selects(t, grown, place)
                    &&& grown.start == it.start
                    &&& t == (State {
                        lines: t.lines,
                        undo: t.undo,
                        status: "sub added"@,
                        sub: t.sub,
                        ..s
                    })
                }
        }),
{
    law_selected_line(s, it, it.start);
    law_new_sub_before_done_ones(s, text);
    lemma_item_under(s);
    let t = sub_added(s, text);
    let place = sub_place(s.lines, it);
    let from = it.start + 1;
    let to = it.start + it.len;
    let subs = subs_of(s.lines, it);
    let open = |i: int| !is_done(s.lines[i]);
    lemma_tasks_in(s.lines, from, to);
    lemma_back_from(subs, subs.len() as int, open);
    let p = back_from(subs, subs.len() as int, open);
    if p > 0 {
        assert(open(subs[p - 1]));
        assert(is_task(s.lines[subs[p - 1]]));
    } else if subs.len() > 0 {
        assert forall|i: int| it.start < i < place implies !is_task(#[trigger] s.lines[i]) by {
            if is_task(s.lines[i]) {
                lemma_tasks_complete(s.lines, from, to, i);
                let k = choose|k: int| 0 <= k < subs.len() && subs[k] == i;
                if k > 0 {
                    assert(subs[0] < subs[k]);
                }
            }
        }
        assert(is_task(s.lines[subs[0]]));
    } else {
        assert forall|i: int| it.start < i < to implies !is_task(#[trigger] s.lines[i]) by {
            if is_task(s.lines[i]) {
                lemma_tasks_complete(s.lines, from, to, i);
            }
        }
    }
    assert(sub_goes_to(s.lines, it, place));
    // The task is still the one under the cursor.
    let grown = item_under(t)->0;
    law_selected_line(t, grown, place);
    lemma_sub_added_item(s, text);
    assert(selects(t, grown, place));
}

/// Without a task under the cursor no subtask is added.
pub proof fn law_new_sub_needs_a_task(s: State, text: Seq<char>)
    requires
        forall|it: ItemModel| !#[trigger] holds_task(s, s.cursor, it),
    ensures
        sub_added(s, text) == s,
{
    if let Some(it) = item_under(s) {
        assert(holds_task(s, s.cursor, it));
    }
}

// ---------------------------------------------------------------------------------
// Checked subtasks

proof fn lemma_filter_twice<A>(s: Seq<A>, p: spec_fn(A) -> bool, q: spec_fn(A) -> bool)
    requires
        forall|x: A| #[trigger] p(x) == !q(x),
    ensures
        s.filter(p).filter(p) == s.filter(p),
        s.filter(q).filter(p) == Seq::<A>::empty(),
    decreases s.len(),
{
    reveal(Seq::filter);
    if s.len() > 0 {
        let rest = s.drop_last();
        let x = s.last();
        lemma_filter_twice(rest, p, q);
        if p(x) {
            assert(rest.filter(p).push(x).drop_last() =~= rest.filter(p));
        } else {
            assert(rest.filter(q).push(x).drop_last() =~= rest.filter(q));
        }
    }
}

/// Checking or opening a subtask changes its box. The subtasks then stand in the same places
/// of the block as before, the open ones above the done ones, and those open, and those done,
/// in the order in which they stood. No other line changes, and the subtask stays selected.
pub proof fn law_sub_is_toggled(s: State, it: ItemModel, i: int, at: Seq<int>)
    requires
        s.sub is Some,
        selects(s, it, i),
        task_lines(s.lines, it.start + 1, it.start + it.len, at),
    ensures
        ({
            let t = sub_toggled(s);
            let l = with_mark(s.lines[i], !is_done(s.lines[i]));
            let then = at_lines(s.lines.update(i, l), at);
            let now = at_lines(t.lines, at);
            &&& t.lines.len() == s.lines.len()
            &&& forall|j: int|
                0 <= j < s.lines.len() && !at.contains(j) ==> #[trigger] t.lines[j] == s.lines[j]
            &&& now.filter(|x: Seq<char>| is_done(x)) == then.filter(|x: Seq<char>| is_done(x))
            &&& now.filter(|x: Seq<char>| !is_done(x)) == then.filter(|x: Seq<char>| !is_done(x))
            &&& now.len() == then.len()
            &&& forall|a: int, b: int|
                0 <= a < b < at.len() && is_done(t.lines[#[trigger] at[a]]) ==> is_done(
                    t.lines[#[trigger] at[b]],
                )
            &&& t.sub matches Some(m) && 0 <= m < at.len() && t.lines[at[m]] == l
            &&& is_done(l) ==> t.sub->0 == now.filter(|x: Seq<char>| !is_done(x)).len() + then.take(
                s.sub->0,
            ).filter(|x: Seq<char>| is_done(x)).len()
            &&& !is_done(l) ==> t.sub->0 == then.take(s.sub->0).filter(
                |x: Seq<char>| !is_done(x),
            ).len()
            &&& t == (State { lines: t.lines, undo: t.undo, status: t.status, sub: t.sub, ..s })
        }),
{
    law_selected_line(s, it, i);
    law_subtasks(s.lines, it);
    let subs = subs_of(s.lines, it);
    law_task_lines_are_unique(s.lines, it.start + 1, it.start + it.len, at, subs);
    law_sub_sinks_in_its_block(s);
    lemma_item_under(s);
    let t = sub_toggled(s);
    let l = with_mark(s.lines[i], !is_done(s.lines[i]));
    let lines = s.lines.update(i, l);
    let held = at_lines(lines, subs);
    let p = |x: Seq<char>| !is_done(x);
    let q = |x: Seq<char>| is_done(x);
    let f = held.filter(p);
    let g = held.filter(q);
    lemma_filter_halves(held, p, q);
    lemma_put_at(lines, subs, f + g, subs.len() as int);
    let now = at_lines(t.lines, at);
    assert(now =~= f + g) by {
        assert forall|j: int| 0 <= j < subs.len() implies now[j] == (f + g)[j] by {
            assert(t.lines[subs[j]] == (f + g)[j]);
        }
    }
    Seq::filter_distributes_over_add(f, g, p);
    Seq::filter_distributes_over_add(f, g, q);
    lemma_filter_twice(held, p, q);
    lemma_filter_twice(held, q, p);
    lemma_with_mark(s.lines[i], !is_done(s.lines[i]));
    assert(f + Seq::<Seq<char>>::empty() =~= f);
    assert(Seq::<Seq<char>>::empty() + g =~= g);
}

/// Where no subtask is selected none is checked.
pub proof fn law_sub_toggle_needs_a_sub(s: State)
    requires
        s.sub is None || forall|it: ItemModel, i: int| !#[trigger] selects(s, it, i),
    ensures
        sub_toggled(s) == s,
{
    if let Some(it) = item_under(s) {
        if let Some(i) = line_under(s) {
            law_selected_line(s, it, i);
            assert(selects(s, it, i));
        }
    }
}

// ---------------------------------------------------------------------------------
// Reordering

/// Moving a task up sets its block before that of the task above it, whatever the two hold,
/// and the cursor stays on it. Nothing else changes but blank lines.
pub proof fn law_task_moves_up(s: State, cur: ItemModel, tgt: ItemModel)
    requires
        s.sub is None,
        holds_task(s, s.cursor, cur),
        holds_task(s, s.cursor - 1, tgt),
    ensures
        ({
            let t = reordered(s, -1);
            &&& tgt.start + tgt.len <= cur.start
            &&& t.lines == tidied(
                s.lines.take(tgt.start) + own_block(s.lines, cur) + own_block(s.lines, tgt)
                    + s.lines.subrange(tgt.start + tgt.len, cur.start) + s.lines.skip(
                    cur.start + cur.len,
                ),
            )
            &&& t.cursor == s.cursor - 1
            &&& t.cursor < entry_lines(t).len() && entry_lines(t)[t.cursor] == s.lines[cur.start]
            &&& t == (State { lines: t.lines, undo: t.undo, cursor: t.cursor, ..s })
        }),
{
    law_what_can_be_moved(s, cur, -1, tgt);
    law_move_up(s);
    lemma_neighbours(s, s.cursor - 1);
    assert(moved(s.lines, cur.start, cur.len, tgt.start) =~= s.lines.take(
        tgt.start,
    ) + own_block(s.lines, cur) + own_block(s.lines, tgt) + s.lines.subrange(
        tgt.start + tgt.len,
        cur.start,
    ) + s.lines.skip(cur.start + cur.len));
}

/// Moving a task down sets its block behind that of the task below it, whatever the two hold,
/// and the cursor stays on it. Nothing else changes but blank lines.
pub proof fn law_task_moves_down(s: State, cur: ItemModel, tgt: ItemModel)
    requires
        s.sub is None,
        holds_task(s, s.cursor, cur),
        holds_task(s, s.cursor + 1, tgt),
    ensures
        ({
            let t = reordered(s, 1);
            &&& cur.start + cur.len <= tgt.start
            &&& t.lines == tidied(
                s.lines.take(cur.start) + s.lines.subrange(cur.start + cur.len, tgt.start)
                    + own_block(s.lines, tgt) + own_block(s.lines, cur) + s.lines.skip(
                    tgt.start + tgt.len,
                ),
            )
            &&& t.cursor == s.cursor + 1
            &&& t.cursor < entry_lines(t).len() && entry_lines(t)[t.cursor] == s.lines[cur.start]
            &&& t == (State { lines: t.lines, undo: t.undo, cursor: t.cursor, ..s })
        }),
{
    law_what_can_be_moved(s, cur, 1, tgt);
    law_move_down(s);
    lemma_neighbours(s, s.cursor);
    assert(moved(s.lines, cur.start, cur.len, tgt.start + tgt.len)
        =~= s.lines.take(cur.start) + s.lines.subrange(cur.start + cur.len, tgt.start) + own_block(
        s.lines,
        tgt,
    ) + own_block(s.lines, cur) + s.lines.skip(tgt.start + tgt.len));
}

/// A task stays where it is only if a subtask is selected, or there is no task to move past:
/// at an end of the list, and beside a collapsed section.
pub proof fn law_task_stays(s: State, delta: int)
    requires
        s.sub is Some || forall|cur: ItemModel, tgt: ItemModel|
            !(#[trigger] holds_task(s, s.cursor, cur) && #[trigger] holds_task(
                s,
                s.cursor + delta,
                tgt,
            )),
    ensures
        reordered(s, delta) == s,
{
    if let Some((cur, tgt)) = reorder_pair(s, delta) {
        law_what_can_be_moved(s, cur, delta, tgt);
    }
}

} // verus!
