//! What can be selected and what is selected, told from the lines alone, and when an
//! operation on the selection does something.
use crate::app::{
    clamped, downward, entries_of, entry_at, entry_line, in_collapsed, item_under, lemma_item_under,
    lemma_tasks_in, line_under, sub_count, subs_of, upward, EntryModel, State,
};
use crate::laws::markdown::{law_block_is_whole, whole_block};
use crate::laws::prompt::lemma_tasks_complete;
use crate::laws::selection::law_entries_in_file_order;
use crate::moves::{movable, reorder_pair};
use crate::outline::{lemma_heading_not_blank, lemma_top_not_blank, ItemModel};
use crate::prompt::lemma_entries_same;
use crate::search::{back_from, lemma_back_from};
use crate::task::{heading, heading_name, is_done, is_task, is_top, kind_of, section, SectionKind};
use crate::toggle::sub_selected;
use vstd::prelude::*;

verus! {

// ---------------------------------------------------------------------------------
// Entries

/// Whether line `h` is the last heading before line `i`.
pub open spec fn stands_under(lines: Seq<Seq<char>>, i: int, h: int) -> bool {
    &&& 0 <= h < i
    &&& heading(lines[h])
    &&& forall|j: int| h < j < i ==> !heading(#[trigger] lines[j])
}

/// Whether the section that line `i` stands in is collapsed.
pub open spec fn folded(s: State, i: int) -> bool {
    exists|h: int|
        #[trigger] stands_under(s.lines, i, h) && section(s.lines[h]) && s.collapsed.contains(
            heading_name(s.lines[h]),
        )
}

/// Whether line `i` is shown as a task: a top-level task, in no collapsed section, and not
/// done while done tasks are hidden.
pub open spec fn shown_task(s: State, i: int) -> bool {
    &&& is_top(s.lines[i])
    &&& !folded(s, i)
    &&& !(s.hide_done && is_done(s.lines[i]))
}

/// Whether line `i` is shown as a collapsed section: its heading, unless it is that of the
/// done tasks while those are hidden.
pub open spec fn shown_folded(s: State, i: int) -> bool {
    &&& section(s.lines[i])
    &&& s.collapsed.contains(heading_name(s.lines[i]))
    &&& !(s.hide_done && kind_of(heading_name(s.lines[i])) == SectionKind::Done)
}

pub proof fn lemma_folded(s: State, i: int)
    requires
        0 <= i <= s.lines.len(),
    ensures
        folded(s, i) == in_collapsed(s, i),
{
    let q = |l: Seq<char>| heading(l);
    lemma_back_from(s.lines, i, q);
    let p = back_from(s.lines, i, q);
    if p > 0 {
        assert forall|j: int| p - 1 < j < i implies !heading(#[trigger] s.lines[j]) by {
            assert(!q(s.lines[j]));
        }
        assert(q(s.lines[p - 1]));
        assert(stands_under(s.lines, i, p - 1));
    }
    if folded(s, i) {
        let h = choose|h: int|
            #[trigger] stands_under(s.lines, i, h) && section(s.lines[h]) && s.collapsed.contains(
                heading_name(s.lines[h]),
            );
        if p - 1 > h {
            assert(!heading(s.lines[p - 1]));
        } else if p - 1 < h {
            assert(!q(s.lines[h]));
        }
    }
}

proof fn lemma_entry_is(s: State, i: int)
    requires
        0 <= i < s.lines.len(),
    ensures
        entry_at(s, i) matches Some(EntryModel::Section(h)) ==> h == i && shown_folded(s, i),
        entry_at(s, i) matches Some(EntryModel::Task(it)) ==> it.start == i && shown_task(s, i)
            && it.done == is_done(s.lines[i]) && whole_block(s.lines, i, i + it.len),
        shown_folded(s, i) ==> entry_at(s, i) is Some,
        shown_task(s, i) ==> entry_at(s, i) is Some,
        !(shown_folded(s, i) && shown_task(s, i)),
{
    lemma_folded(s, i);
    let l = s.lines[i];
    if heading(l) {
        lemma_heading_not_blank(l);
    }
    if is_top(l) {
        lemma_top_not_blank(l);
        law_block_is_whole(s.lines, i);
    }
}

/// The entries are the shown tasks, each with its whole block, and the headings of collapsed
/// sections: all of them, no others, each once, in the order of the file.
pub proof fn law_entries_are_what_is_shown(s: State)
    ensures
        forall|k: int|
            0 <= k < entries_of(s).len() ==> match #[trigger] entries_of(s)[k] {
                EntryModel::Task(it) => {
                    &&& 0 <= it.start < s.lines.len()
                    &&& shown_task(s, it.start)
                    &&& it.done == is_done(s.lines[it.start])
                    &&& whole_block(s.lines, it.start, it.start + it.len)
                },
                EntryModel::Section(h) => 0 <= h < s.lines.len() && shown_folded(s, h),
            },
        forall|j: int, k: int|
            0 <= j < k < entries_of(s).len() ==> entry_line(#[trigger] entries_of(s)[j])
                < entry_line(#[trigger] entries_of(s)[k]),
        forall|i: int|
            0 <= i < s.lines.len() && #[trigger] shown_task(s, i) ==> exists|k: int|
                0 <= k < entries_of(s).len() && (#[trigger] entries_of(s)[k]) is Task
                    && entries_of(s)[k]->Task_0.start == i,
        forall|i: int|
            0 <= i < s.lines.len() && #[trigger] shown_folded(s, i) ==> exists|k: int|
                0 <= k < entries_of(s).len() && #[trigger] entries_of(s)[k] == EntryModel::Section(
                    i,
                ),
{
    law_entries_in_file_order(s);
    let all = entries_of(s);
    assert forall|k: int| 0 <= k < all.len() implies match #[trigger] all[k] {
        EntryModel::Task(it) => {
            &&& 0 <= it.start < s.lines.len()
            &&& shown_task(s, it.start)
            &&& it.done == is_done(s.lines[it.start])
            &&& whole_block(s.lines, it.start, it.start + it.len)
        },
        EntryModel::Section(h) => 0 <= h < s.lines.len() && shown_folded(s, h),
    } by {
        lemma_entry_is(s, entry_line(all[k]));
    }
    assert forall|i: int| 0 <= i < s.lines.len() && #[trigger] shown_task(s, i) implies exists|
        k: int,
    |
        0 <= k < all.len() && (#[trigger] all[k]) is Task && all[k]->Task_0.start == i by {
        lemma_entry_is(s, i);
        assert(all.contains(entry_at(s, i)->0));
        let k = choose|k: int| 0 <= k < all.len() && all[k] == entry_at(s, i)->0;
        assert(all[k] is Task && all[k]->Task_0.start == i);
    }
    assert forall|i: int| 0 <= i < s.lines.len() && #[trigger] shown_folded(s, i) implies exists|
        k: int,
    |
        0 <= k < all.len() && #[trigger] all[k] == EntryModel::Section(i) by {
        lemma_entry_is(s, i);
        assert(all.contains(entry_at(s, i)->0));
        let k = choose|k: int| 0 <= k < all.len() && all[k] == entry_at(s, i)->0;
        assert(all[k] == EntryModel::Section(i));
    }
}

// ---------------------------------------------------------------------------------
// The selection

/// Whether the entry at `k` is the task `it`.
pub open spec fn holds_task(s: State, k: int, it: ItemModel) -> bool {
    0 <= k < entries_of(s).len() && entries_of(s)[k] == EntryModel::Task(it)
}

/// Whether `at` are the lines from `from` up to `to` that hold tasks, in their order.
pub open spec fn task_lines(lines: Seq<Seq<char>>, from: int, to: int, at: Seq<int>) -> bool {
    &&& forall|k: int| 0 <= k < at.len() ==> from <= #[trigger] at[k] < to && is_task(lines[at[k]])
    &&& forall|j: int, k: int| 0 <= j < k < at.len() ==> #[trigger] at[j] < #[trigger] at[k]
    &&& forall|i: int|
        from <= i < to && is_task(#[trigger] lines[i]) ==> at.contains(i)
}

/// The subtasks of a task are all the tasks in its block, in their order.
pub proof fn law_subtasks(lines: Seq<Seq<char>>, it: ItemModel)
    requires
        0 < it.len,
    ensures
        task_lines(lines, it.start + 1, it.start + it.len, subs_of(lines, it)),
{
    let from = it.start + 1;
    let to = it.start + it.len;
    lemma_tasks_in(lines, from, to);
    assert forall|i: int| from <= i < to && is_task(#[trigger] lines[i]) implies subs_of(
        lines,
        it,
    ).contains(i) by {
        lemma_tasks_complete(lines, from, to, i);
    }
}

/// There is only one list of all the tasks among some lines.
pub proof fn law_task_lines_are_unique(
    lines: Seq<Seq<char>>,
    from: int,
    to: int,
    a: Seq<int>,
    b: Seq<int>,
)
    requires
        task_lines(lines, from, to, a),
        task_lines(lines, from, to, b),
    ensures
        a == b,
{
    lemma_task_lines_prefix(lines, from, to, a, b, a.len() as int);
    lemma_task_lines_prefix(lines, from, to, b, a, b.len() as int);
    assert(a =~= b);
}

proof fn lemma_task_lines_prefix(
    lines: Seq<Seq<char>>,
    from: int,
    to: int,
    a: Seq<int>,
    b: Seq<int>,
    n: int,
)
    requires
        task_lines(lines, from, to, a),
        task_lines(lines, from, to, b),
        0 <= n <= a.len(),
    ensures
        n <= b.len(),
        forall|k: int| 0 <= k < n ==> a[k] == b[k],
    decreases n,
{
    if n > 0 {
        lemma_task_lines_prefix(lines, from, to, a, b, n - 1);
        let x = a[n - 1];
        assert(is_task(lines[x]));
        assert(b.contains(x));
        let m = choose|m: int| 0 <= m < b.len() && b[m] == x;
        if m < n - 1 {
            assert(a[m] < a[n - 1]);
        }
        if m > n - 1 {
            let y = b[n - 1];
            assert(b[n - 1] < b[m]);
            assert(is_task(lines[y]));
            assert(a.contains(y));
            let k = choose|k: int| 0 <= k < a.len() && a[k] == y;
            if k < n - 1 {
                assert(b[k] < b[n - 1]);
            } else if k > n - 1 {
                assert(a[n - 1] < a[k]);
            }
        }
    }
}

/// Whether line `i` is the selected one: the task under the cursor where no subtask is
/// selected, and otherwise the subtask that is, counted among the tasks in the block.
pub open spec fn selects(s: State, it: ItemModel, i: int) -> bool {
    &&& holds_task(s, s.cursor, it)
    &&& match s.sub {
        None => i == it.start,
        Some(k) => exists|at: Seq<int>|
            #[trigger] task_lines(s.lines, it.start + 1, it.start + it.len, at) && 0 <= k < at.len()
                && at[k] == i,
    }
}

/// The task under the cursor is the entry there; the selected line is that task's, or that of
/// the selected one of its subtasks.
pub proof fn law_selected_line(s: State, it: ItemModel, i: int)
    ensures
        item_under(s) == Some(it) <==> holds_task(s, s.cursor, it),
        line_under(s) == Some(i) && holds_task(s, s.cursor, it) <==> selects(s, it, i),
        holds_task(s, s.cursor, it) && s.sub is Some ==> sub_selected(s) == (line_under(s) is Some),
        holds_task(s, s.cursor, it) ==> sub_count(s) == subs_of(s.lines, it).len(),
{
    lemma_item_under(s);
    if holds_task(s, s.cursor, it) {
        assert(item_under(s) == Some(it));
        law_subtasks(s.lines, it);
        let subs = subs_of(s.lines, it);
        let (from, to) = (it.start + 1, it.start + it.len);
        if let Some(k) = s.sub {
            if selects(s, it, i) {
                let at = choose|at: Seq<int>|
                    #[trigger] task_lines(s.lines, from, to, at) && 0 <= k < at.len() && at[k] == i;
                law_task_lines_are_unique(s.lines, from, to, at, subs);
            }
        }
    }
}

/// Where no task is under the cursor, none is selected.
pub proof fn law_nothing_selected(s: State)
    requires
        !(0 <= s.cursor < entries_of(s).len() && entries_of(s)[s.cursor] is Task),
    ensures
        item_under(s) is None,
        line_under(s) is None,
        sub_count(s) == 0,
{
}

/// A task can be moved to another section if no subtask is selected and it is open, whatever
/// it holds; past its neighbour if no subtask is selected and the neighbour is a task.
pub proof fn law_what_can_be_moved(s: State, it: ItemModel, delta: int, other: ItemModel)
    ensures
        holds_task(s, s.cursor, it) ==> movable(s) == (s.sub is None && !is_done(
            s.lines[it.start],
        )),
        (reorder_pair(s, delta) == Some((it, other))) == (s.sub is None && holds_task(
            s,
            s.cursor,
            it,
        ) && holds_task(s, s.cursor + delta, other)),
{
    lemma_item_under(s);
}

// ---------------------------------------------------------------------------------
// Moving the selection

/// Whether the selection can stand on the entry at `c`, or on subtask `k` of the task there.
pub open spec fn stop_at(s: State, c: int, k: Option<int>) -> bool {
    &&& 0 <= c < entries_of(s).len()
    &&& k matches Some(j) ==> (0 <= j && exists|it: ItemModel, at: Seq<int>|
        holds_task(s, c, it) && #[trigger] task_lines(
            s.lines,
            it.start + 1,
            it.start + it.len,
            at,
        ) && j < at.len())
}

/// The place of a selection under its entry: the entry comes before its subtasks.
pub open spec fn depth(k: Option<int>) -> int {
    match k {
        None => 0,
        Some(j) => j + 1,
    }
}

/// Whether one place of the selection comes before another in the list.
pub open spec fn above(c: int, k: Option<int>, d: int, j: Option<int>) -> bool {
    c < d || (c == d && depth(k) < depth(j))
}

pub proof fn lemma_stop(s: State, c: int, k: Option<int>)
    requires
        0 <= c < entries_of(s).len(),
    ensures
        stop_at(s, c, k) == (k matches Some(j) ==> 0 <= j < sub_count(State { cursor: c, ..s })),
{
    let t = State { cursor: c, ..s };
    lemma_entries_same(s, t, s.lines.len() as int);
    lemma_item_under(t);
    if let Some(j) = k {
        if let EntryModel::Task(it) = entries_of(s)[c] {
            let (from, to) = (it.start + 1, it.start + it.len);
            law_subtasks(s.lines, it);
            assert(task_lines(s.lines, from, to, subs_of(s.lines, it)));
            if stop_at(s, c, k) {
                let (it2, at) = choose|it2: ItemModel, at: Seq<int>|
                    holds_task(s, c, it2) && #[trigger] task_lines(
                        s.lines,
                        it2.start + 1,
                        it2.start + it2.len,
                        at,
                    ) && j < at.len();
                law_task_lines_are_unique(s.lines, from, to, at, subs_of(s.lines, it));
            } else if 0 <= j < sub_count(t) {
                assert(holds_task(s, c, it));
            }
        }
    }
}

/// Going down selects what comes next in the list, tasks with their subtasks one by one: no
/// place is left out, and at the end nothing changes.
pub proof fn law_down_selects_the_next(s: State, d: int, j: Option<int>)
    requires
        stop_at(s, s.cursor, s.sub),
        stop_at(s, d, j),
        above(s.cursor, s.sub, d, j),
    ensures
        ({
            let t = downward(s);
            &&& stop_at(s, t.cursor, t.sub)
            &&& above(s.cursor, s.sub, t.cursor, t.sub)
            &&& !above(d, j, t.cursor, t.sub)
            &&& t == (State { cursor: t.cursor, sub: t.sub, ..s })
        }),
{
    lemma_stop(s, s.cursor, s.sub);
    lemma_stop(s, d, j);
    let t = downward(s);
    assert(State { cursor: s.cursor, ..s } == s);
    lemma_stop(s, t.cursor, t.sub);
}

/// Going down from the last place in the list changes nothing.
pub proof fn law_down_at_the_end(s: State)
    requires
        stop_at(s, s.cursor, s.sub),
        forall|d: int, j: Option<int>|
            #[trigger] stop_at(s, d, j) ==> !above(s.cursor, s.sub, d, j),
    ensures
        downward(s) == s,
{
    let t = downward(s);
    lemma_stop(s, s.cursor, s.sub);
    assert(State { cursor: s.cursor, ..s } == s);
    if t != s {
        lemma_stop(s, t.cursor, t.sub);
        assert(stop_at(s, t.cursor, t.sub));
    }
}

/// Going up selects what comes before: through the subtasks to their task, and from a task to
/// the entry above, or to its last subtask while all subtasks are shown.
pub proof fn law_up_selects_the_one_before(s: State, d: int, j: Option<int>)
    requires
        stop_at(s, s.cursor, s.sub),
        stop_at(s, d, j),
        above(d, j, s.cursor, s.sub),
    ensures
        ({
            let t = upward(s);
            &&& stop_at(s, t.cursor, t.sub)
            &&& above(t.cursor, t.sub, s.cursor, s.sub)
            &&& t == (State { cursor: t.cursor, sub: t.sub, ..s })
            &&& s.expand_all || s.sub is Some ==> !above(t.cursor, t.sub, d, j)
            &&& !s.expand_all && s.sub is None ==> t.sub is None && t.cursor == s.cursor - 1
        }),
{
    lemma_stop(s, s.cursor, s.sub);
    lemma_stop(s, d, j);
    let t = upward(s);
    assert(State { cursor: s.cursor, ..s } == s);
    lemma_stop(s, t.cursor, t.sub);
}

/// Going up from the first entry changes nothing.
pub proof fn law_up_at_the_start(s: State)
    requires
        s.cursor == 0,
        s.sub is None,
    ensures
        upward(s) == s,
{
}

/// A selection that is out of range is brought to the last entry, and a subtask to the last
/// one; a position in range is kept.
pub proof fn law_clamped_to_the_last(s: State)
    requires
        s.cursor >= 0,
    ensures
        ({
            let t = clamped(s);
            let n = entries_of(s).len();
            &&& t == (State { cursor: t.cursor, sub: t.sub, ..s })
            &&& s.cursor < n ==> t.cursor == s.cursor
            &&& s.cursor >= n && n > 0 ==> t.cursor == n - 1
            &&& n == 0 ==> t.cursor == 0
            &&& s.sub is None ==> t.sub is None
            &&& s.sub matches Some(k) ==> {
                &&& n > 0 && stop_at(s, t.cursor, Some(k)) ==> t.sub == Some(k)
                &&& n > 0 && k >= 0 && !stop_at(s, t.cursor, Some(k)) && stop_at(
                    s,
                    t.cursor,
                    Some(0),
                ) ==> {
                    &&& t.sub is Some
                    &&& stop_at(s, t.cursor, t.sub)
                    &&& !stop_at(s, t.cursor, Some(t.sub->0 + 1))
                }
                &&& n == 0 || !stop_at(s, t.cursor, Some(0)) ==> t.sub is None
            }
        }),
{
    let t = clamped(s);
    let n = entries_of(s).len();
    let at = State { cursor: t.cursor, ..s };
    lemma_entries_same(s, at, s.lines.len() as int);
    lemma_item_under(at);
    if n > 0 {
        lemma_stop(s, t.cursor, Some(0));
        if let Some(k) = s.sub {
            lemma_stop(s, t.cursor, Some(k));
            lemma_stop(s, t.cursor, t.sub);
            if t.sub is Some {
                lemma_stop(s, t.cursor, Some(t.sub->0 + 1));
            }
        }
    }
}

} // verus!
