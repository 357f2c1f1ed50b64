//! The selection: what can be selected, in what order, and how it is shown.
use crate::app::{
    clamped, downward, entries_of, entries_upto, entry_at, entry_line, entry_under, hidden_heading,
    item_under, lemma_entries, lemma_item_under, shows_task, sub_count, subs_of, tasks_in, upward,
    EntryModel, State,
};
use crate::outline::{block_end, lemma_block_end, lemma_top_not_blank};
use crate::prompt::lemma_entries_same;
use crate::rotate::{collapse_toggled, section_entry};
use crate::rows::{
    collapsed_row, expanded, rows_at, rows_of, rows_upto, sub_rows, task_row, RowModel,
};
use crate::screen::{is_stop, row_selected, selected_of, selected_upto, stops_upto, subs_since};
use crate::search::{back_from, lemma_back_from};
use crate::task::{behind_box, ends_todo, heading, heading_name, is_done, section};
use crate::text::trim;
use vstd::prelude::*;

verus! {

/// Whether the positions in a state are counted from zero.
pub open spec fn counted(s: State) -> bool {
    s.cursor >= 0 && (s.sub matches Some(k) ==> k >= 0)
}

/// Whether the cursor stands on an entry, if there is one, and a selected subtask is one of
/// the task under it.
pub open spec fn in_range(s: State) -> bool {
    &&& 0 <= s.cursor
    &&& s.cursor < entries_of(s).len() || s.cursor == 0
    &&& s.sub matches Some(k) ==> 0 <= k < sub_count(s)
}

/// Bringing the selection into range does that, and no more: a selection in range stays.
pub proof fn law_clamped_in_range(s: State)
    requires
        counted(s),
    ensures
        in_range(clamped(s)),
        in_range(s) ==> clamped(s) == s,
{
    let at = State { cursor: clamped(s).cursor, ..s };
    lemma_entries_same(s, clamped(s), s.lines.len() as int);
    lemma_entries_same(s, at, s.lines.len() as int);
    assert(clamped(s).lines == s.lines);
}

/// The entries come in the order of the file, and each line that can be selected is one:
/// file order is display order.
pub proof fn law_entries_in_file_order(s: State)
    ensures
        forall|j: int, k: int|
            0 <= j < k < entries_of(s).len() ==> entry_line(#[trigger] entries_of(s)[j])
                < entry_line(#[trigger] entries_of(s)[k]),
        forall|i: int|
            0 <= i < s.lines.len() && (#[trigger] entry_at(s, i)) is Some ==> entries_of(
                s,
            ).contains(entry_at(s, i)->0),
        forall|k: int|
            0 <= k < entries_of(s).len() ==> {
                let e = #[trigger] entries_of(s)[k];
                0 <= entry_line(e) < s.lines.len() && entry_at(s, entry_line(e)) == Some(e)
            },
{
    let n = s.lines.len() as int;
    lemma_entries(s, n);
    assert forall|i: int| 0 <= i < n && (#[trigger] entry_at(s, i)) is Some implies entries_of(
        s,
    ).contains(entry_at(s, i)->0) by {
        lemma_entry_place(s, i, n);
        assert(entries_of(s)[entries_upto(s, i).len() as int] == entry_at(s, i)->0);
    }
}

/// The entry of a line has as many entries before it as the lines before it have.
pub proof fn lemma_entry_place(s: State, i: int, n: int)
    requires
        0 <= i < n <= s.lines.len(),
        entry_at(s, i) is Some,
    ensures
        entries_upto(s, i).len() < entries_upto(s, n).len(),
        entries_upto(s, n)[entries_upto(s, i).len() as int] == entry_at(s, i)->0,
    decreases n,
{
    if i < n - 1 {
        lemma_entry_place(s, i, n - 1);
    }
}

/// Going down and up again comes back to where it started: always while all subtasks are
/// shown, and otherwise unless the step down left the subtasks of a task.
pub proof fn law_down_and_up(s: State)
    requires
        in_range(s),
        downward(s) != s,
        s.expand_all || s.sub is None || downward(s).cursor == s.cursor,
    ensures
        upward(downward(s)) == s,
{
    let d = downward(s);
    if d.cursor != s.cursor {
        let up = State { cursor: d.cursor - 1, ..d };
        lemma_entries_same(s, up, s.lines.len() as int);
    }
}

// ---------------------------------------------------------------------------------
// Rows

proof fn lemma_stops_concat(a: Seq<RowModel>, b: Seq<RowModel>, n: int)
    requires
        0 <= n <= b.len(),
    ensures
        stops_upto(a + b, a.len() + n) == stops_upto(a, a.len() as int) + stops_upto(b, n),
    decreases n,
{
    if n > 0 {
        lemma_stops_concat(a, b, n - 1);
        assert((a + b)[a.len() + n - 1] == b[n - 1]);
    } else {
        lemma_stops_prefix(a, a + b, a.len() as int);
    }
}

proof fn lemma_stops_prefix(a: Seq<RowModel>, b: Seq<RowModel>, n: int)
    requires
        n <= a.len(),
        n <= b.len(),
        forall|i: int| 0 <= i < n ==> a[i] == b[i],
    ensures
        stops_upto(a, n) == stops_upto(b, n),
        subs_since(a, n) == subs_since(b, n),
    decreases n,
{
    if n > 0 {
        lemma_stops_prefix(a, b, n - 1);
    }
}

pub proof fn lemma_sub_rows(lines: Seq<Seq<char>>, from: int, to: int)
    requires
        from <= to,
    ensures
        sub_rows(lines, from, to).len() == tasks_in(lines, from, to).len(),
        forall|k: int|
            0 <= k < sub_rows(lines, from, to).len() ==> {
                let i = tasks_in(lines, from, to)[k];
                #[trigger] sub_rows(lines, from, to)[k] == (RowModel::Sub {
                    text: trim(behind_box(lines[i])),
                    done: is_done(lines[i]),
                })
            },
    decreases to - from,
{
    if from < to {
        lemma_sub_rows(lines, from, to - 1);
    }
}

/// The rows of a line have a stop, the first, where the line has an entry.
proof fn lemma_rows_at(s: State, i: int)
    requires
        0 <= i < s.lines.len(),
    ensures
        ({
            let rows = rows_at(s, i);
            &&& entry_at(s, i) is Some ==> rows.len() > 0 && is_stop(rows[0])
            &&& entry_at(s, i) is None ==> forall|k: int|
                0 <= k < rows.len() ==> !is_stop(#[trigger] rows[k])
            &&& forall|k: int| 0 < k < rows.len() ==> (#[trigger] rows[k]) is Sub
        }),
{
    if !heading(s.lines[i]) && shows_task(s, i) {
        lemma_block_end(s.lines, i);
        lemma_sub_rows(s.lines, i + 1, block_end(s.lines, i));
    }
}

proof fn lemma_one_stop(rows: Seq<RowModel>, n: int)
    requires
        0 < n <= rows.len(),
        forall|k: int| 0 < k < rows.len() ==> (#[trigger] rows[k]) is Sub,
    ensures
        stops_upto(rows, n) == (if is_stop(rows[0]) {
            1int
        } else {
            0int
        }),
    decreases n,
{
    if n > 1 {
        lemma_one_stop(rows, n - 1);
        assert(rows[n - 1] is Sub);
    } else {
        assert(stops_upto(rows, 0) == 0);
    }
}

proof fn lemma_stops_are_entries(s: State, n: int)
    requires
        0 <= n <= s.lines.len(),
    ensures
        stops_upto(rows_upto(s, n), rows_upto(s, n).len() as int) == entries_upto(s, n).len(),
    decreases n,
{
    if n > 0 {
        lemma_stops_are_entries(s, n - 1);
        let a = rows_upto(s, n - 1);
        let b = rows_at(s, n - 1);
        lemma_rows_at(s, n - 1);
        lemma_stops_concat(a, b, b.len() as int);
        if b.len() > 0 {
            lemma_one_stop(b, b.len() as int);
        } else {
            assert(stops_upto(b, 0) == 0);
        }
        assert(rows_upto(s, n).len() == a.len() + b.len());
    }
}

/// The main list has as many rows to stop at as there are entries.
pub proof fn law_a_stop_for_each_entry(s: State)
    ensures
        stops_upto(rows_of(s), rows_of(s).len() as int) == entries_of(s).len(),
{
    lemma_stops_are_entries(s, s.lines.len() as int);
}

proof fn lemma_rows_prefix(s: State, i: int, n: int)
    requires
        0 <= i <= n,
    ensures
        rows_upto(s, i).is_prefix_of(rows_upto(s, n)),
    decreases n,
{
    if i < n {
        lemma_rows_prefix(s, i, n - 1);
        let a = rows_upto(s, i);
        let b = rows_upto(s, n - 1);
        let c = rows_upto(s, n);
        assert forall|k: int| 0 <= k < a.len() implies a[k] == c[k] by {
            assert(a[k] == b[k]);
        }
        assert(a =~= c.subrange(0, a.len() as int));
    } else {
        assert(rows_upto(s, i) =~= rows_upto(s, i).subrange(0, rows_upto(s, i).len() as int));
    }
}

proof fn lemma_stops_grow(rows: Seq<RowModel>, a: int, b: int)
    requires
        0 <= a <= b,
    ensures
        stops_upto(rows, a) <= stops_upto(rows, b),
    decreases b,
{
    if a < b {
        lemma_stops_grow(rows, a, b - 1);
    }
}

/// The only row that is selected is the last.
proof fn lemma_selected_is(
    rows: Seq<RowModel>,
    n: int,
    cursor: int,
    sub: Option<int>,
    r: int,
)
    requires
        0 <= r < n <= rows.len(),
        row_selected(rows, r, cursor, sub),
        forall|i: int| r < i < n ==> !#[trigger] row_selected(rows, i, cursor, sub),
    ensures
        selected_upto(rows, n, cursor, sub) == Some(r),
    decreases n,
{
    if r < n - 1 {
        assert(!row_selected(rows, n - 1, cursor, sub));
        lemma_selected_is(rows, n - 1, cursor, sub, r);
    }
}

/// The rows of the main list around the entry under the cursor: where its own rows start,
/// and how many stops come before them.
proof fn lemma_rows_of_entry(s: State)
    requires
        entry_under(s) is Some,
    ensures
        ({
            let i = entry_line(entry_under(s)->0);
            let r = rows_upto(s, i).len() as int;
            let rows = rows_of(s);
            let own = rows_at(s, i);
            &&& 0 <= i < s.lines.len()
            &&& entry_at(s, i) == entry_under(s)
            &&& entries_upto(s, i).len() == s.cursor
            &&& r + own.len() <= rows.len()
            &&& forall|k: int| 0 <= k < own.len() ==> #[trigger] rows[r + k] == own[k]
            &&& stops_upto(rows, r) == s.cursor
            &&& own.len() > 0
        }),
{
    let n = s.lines.len() as int;
    lemma_entries(s, n);
    let e = entry_under(s)->0;
    let i = entry_line(e);
    assert(entry_at(s, i) == Some(e));
    lemma_entry_place(s, i, n);
    let c = entries_upto(s, i).len() as int;
    if c < s.cursor {
        assert(entry_line(entries_of(s)[c]) < entry_line(entries_of(s)[s.cursor]));
    } else if c > s.cursor {
        assert(entry_line(entries_of(s)[s.cursor]) < entry_line(entries_of(s)[c]));
    }
    lemma_rows_at(s, i);
    lemma_rows_prefix(s, i + 1, n);
    lemma_rows_prefix(s, i, n);
    lemma_stops_are_entries(s, i);
    let a = rows_upto(s, i);
    let b = rows_upto(s, i + 1);
    let own = rows_at(s, i);
    let rows = rows_of(s);
    assert(b =~= a + own);
    lemma_stops_prefix(a, rows, a.len() as int);
    assert forall|k: int| 0 <= k < own.len() implies #[trigger] rows[a.len() + k] == own[k] by {
        assert(b[a.len() + k] == own[k]);
    }
}

/// The row of an entry.
pub open spec fn entry_row(s: State, e: EntryModel) -> RowModel {
    match e {
        EntryModel::Task(it) => task_row(s.lines, it.start),
        EntryModel::Section(h) => collapsed_row(s.lines, h),
    }
}

/// The entry under the cursor is the one that is shown as selected, unless a subtask is.
pub proof fn law_cursor_is_shown(s: State)
    requires
        entry_under(s) is Some,
        s.sub is None,
    ensures
        selected_of(rows_of(s), s.cursor, s.sub) matches Some(r) && rows_of(s)[r] == entry_row(
            s,
            entry_under(s)->0,
        ),
{
    lemma_rows_of_entry(s);
    let i = entry_line(entry_under(s)->0);
    let r = rows_upto(s, i).len() as int;
    let rows = rows_of(s);
    let own = rows_at(s, i);
    assert(rows[r + 0] == own[0]);
    lemma_rows_at(s, i);
    assert forall|j: int| r < j < rows.len() implies !#[trigger] row_selected(
        rows,
        j,
        s.cursor,
        s.sub,
    ) by {
        lemma_stops_grow(rows, r + 1, j);
    }
    lemma_selected_is(rows, rows.len() as int, s.cursor, s.sub, r);
}

/// The subtasks of the task under the cursor are shown, and the one that is selected is
/// shown as selected.
pub proof fn law_selected_sub_is_shown(s: State, k: int)
    requires
        item_under(s) is Some,
        s.sub == Some(k),
        0 <= k < sub_count(s),
    ensures
        ({
            let i = subs_of(s.lines, item_under(s)->0)[k];
            selected_of(rows_of(s), s.cursor, s.sub) matches Some(r) && rows_of(s)[r]
                == (RowModel::Sub {
                text: trim(behind_box(s.lines[i])),
                done: is_done(s.lines[i]),
            })
        }),
{
    lemma_rows_of_entry(s);
    lemma_item_under(s);
    let it = item_under(s)->0;
    let i = it.start;
    let r = rows_upto(s, i).len() as int;
    let rows = rows_of(s);
    let own = rows_at(s, i);
    lemma_block_end(s.lines, i);
    lemma_top_not_blank(s.lines[i]);
    lemma_sub_rows(s.lines, i + 1, block_end(s.lines, i));
    lemma_rows_at(s, i);
    let subs = sub_rows(s.lines, i + 1, block_end(s.lines, i));
    assert(expanded(s, i));
    assert(own =~= seq![task_row(s.lines, i)] + subs);
    assert(rows[r + 0] == own[0]);
    assert forall|j: int| 0 <= j < subs.len() implies #[trigger] rows[r + 1 + j] is Sub by {
        assert(rows[r + (1 + j)] == own[1 + j]);
    }
    lemma_subs_counted(rows, r, subs.len() as int, s.cursor, k);
    assert(rows[r + (1 + k)] == own[1 + k]);
    assert forall|j: int| r + 1 + k < j < rows.len() implies !#[trigger] row_selected(
        rows,
        j,
        s.cursor,
        s.sub,
    ) by {
        lemma_subs_after(rows, r, k, j, s.cursor);
    }
    lemma_selected_is(rows, rows.len() as int, s.cursor, s.sub, r + 1 + k);
}

/// Behind a stop, subtasks are counted one by one.
proof fn lemma_subs_counted(rows: Seq<RowModel>, r: int, n: int, cursor: int, k: int)
    requires
        0 <= r,
        r + n < rows.len(),
        is_stop(rows[r]),
        forall|j: int| 0 <= j < n ==> (#[trigger] rows[r + 1 + j]) is Sub,
        0 <= k <= n,
        stops_upto(rows, r) == cursor,
    ensures
        subs_since(rows, r + 1 + k) == k,
        stops_upto(rows, r + 1 + k) == cursor + 1,
    decreases k,
{
    if k > 0 {
        lemma_subs_counted(rows, r, n, cursor, k - 1);
        assert(rows[r + 1 + (k - 1)] is Sub);
    }
}

/// No row behind the selected subtask is selected too.
proof fn lemma_subs_after(rows: Seq<RowModel>, r: int, k: int, j: int, cursor: int)
    requires
        0 <= r,
        0 <= k,
        r + 1 + k < j < rows.len(),
        subs_since(rows, r + 1 + k) == k,
        stops_upto(rows, r + 1 + k) == cursor + 1,
        rows[r + 1 + k] is Sub,
    ensures
        !row_selected(rows, j, cursor, Some(k)),
        stops_upto(rows, j) == cursor + 1 ==> subs_since(rows, j) > k,
        stops_upto(rows, j) >= cursor + 1,
    decreases j,
{
    if j > r + 2 + k {
        lemma_subs_after(rows, r, k, j - 1, cursor);
    }
}

// ---------------------------------------------------------------------------------
// Collapsed sections

/// Collapsing the section of a task sets the cursor on the section's heading, which is then
/// its single stop. The heading is not that of the done tasks while those are hidden.
pub proof fn law_collapse_moves_to_heading(s: State)
    requires
        entry_under(s) matches Some(EntryModel::Task(_)),
        ({
            let h = back_from(s.lines, item_under(s)->0.start, |l: Seq<char>| ends_todo(l)) - 1;
            h >= 0 && section(s.lines[h]) && !hidden_heading(s.lines[h], s.hide_done)
        }),
    ensures
        ({
            let h = back_from(s.lines, item_under(s)->0.start, |l: Seq<char>| ends_todo(l)) - 1;
            &&& entry_under(collapse_toggled(s)) == Some(EntryModel::Section(h))
            &&& collapse_toggled(collapse_toggled(s)).collapsed == s.collapsed.remove(
                heading_name(s.lines[h]),
            )
            &&& collapse_toggled(s).lines == s.lines
        }),
{
    lemma_item_under(s);
    let it = item_under(s)->0;
    let q = |l: Seq<char>| ends_todo(l);
    lemma_back_from(s.lines, it.start, q);
    let h = back_from(s.lines, it.start, q) - 1;
    assert(q(s.lines[h]));
    let t = collapse_toggled(s);
    let now = State {
        collapsed: s.collapsed.insert(heading_name(s.lines[h])),
        sub: None,
        ..s
    };
    lemma_entries_same(now, t, s.lines.len() as int);
    assert(entry_at(t, h) == Some(EntryModel::Section(h)));
    lemma_entry_place(t, h, t.lines.len() as int);
    let c = entries_upto(t, h).len() as int;
    lemma_section_entry(entries_of(t), h, 0, c);
    assert(collapse_toggled(t).collapsed =~= s.collapsed.remove(heading_name(s.lines[h])));
}

proof fn lemma_section_entry(entries: Seq<EntryModel>, h: int, i: int, c: int)
    requires
        0 <= i <= c < entries.len(),
        entries[c] == EntryModel::Section(h),
    ensures
        i <= section_entry(entries, h, i) < entries.len(),
        entries[section_entry(entries, h, i)] == EntryModel::Section(h),
    decreases entries.len() - i,
{
    if entries[i] != EntryModel::Section(h) {
        lemma_section_entry(entries, h, i + 1, c);
    }
}

} // verus!
