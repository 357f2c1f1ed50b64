//! What the main list shows of each line, told from the lines alone.
use crate::app::{
    entries_of, entries_upto, entry_at, entry_line, lemma_entries, lemma_tasks_in, shows_task,
    tasks_in, State,
};
use crate::clock::shown;
use crate::laws::entries::{holds_task, lemma_folded, shown_task, task_lines};
use crate::laws::markdown::{law_block_is_whole, whole_block};
use crate::laws::prompt::lemma_tasks_complete;
use crate::laws::selection::{lemma_entry_place, lemma_sub_rows};
use crate::outline::{
    block_end, items_upto, lemma_block_end, lemma_heading_not_blank, next_stop, ItemModel,
};
use crate::rows::{
    count_in, expanded, is_note, rows_at, rows_of, rows_upto, sub_rows, task_row, RowModel,
};
use crate::screen::{
    done_among, gap, left_width, piece, pieces_of, tally, title_over, PieceModel, Tone,
};
use crate::search::lemma_first_from;
use crate::task::{
    behind_box, ends_todo, heading, heading_name, is_done, is_task, is_top, kind_of, section,
    stamp_of, title_of, SectionKind,
};
use crate::text::{decimal, digit, is_blank, repeat, trim};
use crate::toggle::at_lines;
use vstd::prelude::*;

verus! {

// ---------------------------------------------------------------------------------
// Rows

/// Whether `at` are the lines from `from` up to `to` that hold top-level tasks, in their
/// order.
pub open spec fn top_lines(lines: Seq<Seq<char>>, from: int, to: int, at: Seq<int>) -> bool {
    &&& forall|k: int| 0 <= k < at.len() ==> from <= #[trigger] at[k] < to && is_top(lines[at[k]])
    &&& forall|j: int, k: int| 0 <= j < k < at.len() ==> #[trigger] at[j] < #[trigger] at[k]
    &&& forall|i: int| from <= i < to && is_top(#[trigger] lines[i]) ==> at.contains(i)
}

/// How many of the lines at these places are done tasks.
pub open spec fn done_at(lines: Seq<Seq<char>>, at: Seq<int>) -> int {
    at_lines(lines, at).filter(|l: Seq<char>| is_done(l)).len() as int
}

/// Whether a row is that of the task at line `i`, with its block up to `e` and subtasks at
/// the lines `at`: it says the title, whether the task is done, the stamp that the text
/// carries, how many subtasks are done out of how many, and whether there are notes.
pub open spec fn says_task(
    lines: Seq<Seq<char>>,
    i: int,
    e: int,
    at: Seq<int>,
    row: RowModel,
) -> bool {
    let text = behind_box(lines[i]);
    &&& row is Task
    &&& row->Task_text == title_of(text)
    &&& row->Task_done == is_done(lines[i])
    &&& row->stamp == stamp_of(text)
    &&& at.len() == 0 ==> row->subs is None
    &&& at.len() > 0 ==> row->subs == Some((done_at(lines, at), at.len() as int))
    &&& row->has_notes == (exists|j: int|
        i < j < e && !is_task(#[trigger] lines[j]) && !is_blank(lines[j]))
}

/// Whether rows are those of the subtasks at the lines `at`, in their order.
pub open spec fn say_subs(lines: Seq<Seq<char>>, at: Seq<int>, rows: Seq<RowModel>) -> bool {
    &&& rows.len() == at.len()
    &&& forall|k: int|
        0 <= k < at.len() ==> #[trigger] rows[k] == (RowModel::Sub {
            text: trim(behind_box(lines[at[k]])),
            done: is_done(lines[at[k]]),
        })
}

/// Whether a row is that of the collapsed section at line `h`, which ends at line `e` and
/// holds the tasks at the lines `at`.
pub open spec fn says_folded(
    lines: Seq<Seq<char>>,
    h: int,
    e: int,
    at: Seq<int>,
    row: RowModel,
) -> bool {
    &&& h < e <= lines.len()
    &&& e < lines.len() ==> ends_todo(lines[e])
    &&& forall|j: int| h < j < e ==> !ends_todo(#[trigger] lines[j])
    &&& top_lines(lines, h + 1, e, at)
    &&& row == RowModel::CollapsedSection {
        name: heading_name(lines[h]),
        done: done_at(lines, at),
        total: at.len() as int,
    }
}

/// Whether rows are what line `i` gives. A heading gives its name, or the row of a collapsed
/// section, or nothing where it is that of hidden done tasks. A shown task gives its row, and
/// the rows of its subtasks where the cursor is on it or all are expanded. No other line gives
/// any.
pub open spec fn says_line(s: State, i: int, rows: Seq<RowModel>) -> bool {
    let l = s.lines[i];
    if heading(l) {
        if s.hide_done && kind_of(heading_name(l)) == SectionKind::Done {
            rows.len() == 0
        } else if section(l) && s.collapsed.contains(heading_name(l)) {
            rows.len() == 1 && exists|e: int, at: Seq<int>|
                #[trigger] says_folded(s.lines, i, e, at, rows[0])
        } else {
            rows == seq![RowModel::Header(heading_name(l))]
        }
    } else if shown_task(s, i) {
        exists|e: int, at: Seq<int>|
            {
                &&& whole_block(s.lines, i, e)
                &&& #[trigger] task_lines(s.lines, i + 1, e, at)
                &&& rows.len() > 0
                &&& says_task(s.lines, i, e, at, rows[0])
                &&& if s.expand_all || exists|it: ItemModel|
                    #[trigger] holds_task(s, s.cursor, it) && it.start == i {
                    say_subs(s.lines, at, rows.skip(1))
                } else {
                    rows.len() == 1
                }
            }
    } else {
        rows.len() == 0
    }
}

/// Whether the rows are those of the lines, one line after the other, those of line `i` from
/// `pos[i]` up to `pos[i + 1]`.
pub open spec fn says_lines(s: State, rows: Seq<RowModel>, pos: Seq<int>) -> bool {
    &&& pos.len() == s.lines.len() + 1
    &&& pos[0] == 0
    &&& pos[s.lines.len() as int] == rows.len()
    &&& forall|i: int|
        0 <= i < s.lines.len() ==> 0 <= #[trigger] pos[i] <= pos[i + 1] <= rows.len() && says_line(
            s,
            i,
            rows.subrange(pos[i], pos[i + 1]),
        )
}

proof fn lemma_count_done(lines: Seq<Seq<char>>, from: int, to: int)
    requires
        from <= to,
    ensures
        count_in(lines, from, to, |l: Seq<char>| is_task(l)) == tasks_in(lines, from, to).len(),
        count_in(lines, from, to, |l: Seq<char>| is_done(l)) == done_at(
            lines,
            tasks_in(lines, from, to),
        ),
    decreases to - from,
{
    reveal(Seq::filter);
    let at = tasks_in(lines, from, to);
    if from < to {
        lemma_count_done(lines, from, to - 1);
        let rest = tasks_in(lines, from, to - 1);
        if is_task(lines[to - 1]) {
            assert(at_lines(lines, at).drop_last() =~= at_lines(lines, rest));
            assert(at_lines(lines, at).last() == lines[to - 1]);
        }
    } else {
        assert(at_lines(lines, at) =~= Seq::empty());
    }
}

/// The top-level tasks among the lines from `from` up to `to`.
spec fn tops_in(lines: Seq<Seq<char>>, from: int, to: int) -> Seq<int>
    decreases to - from,
{
    if to <= from {
        Seq::empty()
    } else if is_top(lines[to - 1]) {
        tops_in(lines, from, to - 1).push(to - 1)
    } else {
        tops_in(lines, from, to - 1)
    }
}

proof fn lemma_tops(lines: Seq<Seq<char>>, from: int, to: int)
    requires
        from <= to,
    ensures
        top_lines(lines, from, to, tops_in(lines, from, to)),
        count_in(lines, from, to, |l: Seq<char>| is_top(l)) == tops_in(lines, from, to).len(),
        count_in(lines, from, to, |l: Seq<char>| is_top(l) && is_done(l)) == done_at(
            lines,
            tops_in(lines, from, to),
        ),
    decreases to - from,
{
    reveal(Seq::filter);
    let at = tops_in(lines, from, to);
    if from < to {
        lemma_tops(lines, from, to - 1);
        let rest = tops_in(lines, from, to - 1);
        if is_top(lines[to - 1]) {
            assert(at_lines(lines, at).drop_last() =~= at_lines(lines, rest));
            assert(at_lines(lines, at).last() == lines[to - 1]);
        }
        assert forall|i: int| from <= i < to && is_top(#[trigger] lines[i]) implies at.contains(
            i,
        ) by {
            if i < to - 1 {
                assert(rest.contains(i));
                let k = choose|k: int| 0 <= k < rest.len() && rest[k] == i;
                assert(at[k] == i);
            } else {
                assert(at[at.len() - 1] == i);
            }
        }
    } else {
        assert(at_lines(lines, at) =~= Seq::empty());
    }
}

proof fn lemma_notes(lines: Seq<Seq<char>>, from: int, to: int)
    requires
        from <= to,
    ensures
        count_in(lines, from, to, |l: Seq<char>| is_note(l)) >= 0,
        (count_in(lines, from, to, |l: Seq<char>| is_note(l)) > 0) == (exists|j: int|
            from <= j < to && !is_task(#[trigger] lines[j]) && !is_blank(lines[j])),
    decreases to - from,
{
    if from < to {
        lemma_notes(lines, from, to - 1);
        if !is_task(lines[to - 1]) && !is_blank(lines[to - 1]) {
            assert(is_note(lines[to - 1]));
        }
    }
}

proof fn lemma_task_row(lines: Seq<Seq<char>>, i: int)
    requires
        0 <= i < lines.len(),
        is_top(lines[i]),
    ensures
        ({
            let e = block_end(lines, i);
            let at = tasks_in(lines, i + 1, e);
            &&& whole_block(lines, i, e)
            &&& task_lines(lines, i + 1, e, at)
            &&& says_task(lines, i, e, at, task_row(lines, i))
        }),
{
    let e = block_end(lines, i);
    let at = tasks_in(lines, i + 1, e);
    law_block_is_whole(lines, i);
    lemma_block_end(lines, i);
    lemma_tasks_in(lines, i + 1, e);
    assert forall|j: int| i + 1 <= j < e && is_task(#[trigger] lines[j]) implies at.contains(
        j,
    ) by {
        lemma_tasks_complete(lines, i + 1, e, j);
    }
    lemma_count_done(lines, i + 1, e);
    lemma_notes(lines, i + 1, e);
}

/// The cursor is on the task at line `i` exactly if there are as many entries before it as
/// the cursor says.
proof fn lemma_expanded(s: State, i: int)
    requires
        0 <= i < s.lines.len(),
        !heading(s.lines[i]),
        shows_task(s, i),
    ensures
        expanded(s, i) == (s.expand_all || exists|it: ItemModel|
            #[trigger] holds_task(s, s.cursor, it) && it.start == i),
{
    let n = s.lines.len() as int;
    lemma_entry_place(s, i, n);
    lemma_entries(s, n);
    let c = entries_upto(s, i).len() as int;
    let e = entry_at(s, i)->0;
    assert(entries_of(s)[c] == e);
    if s.cursor == c {
        assert(holds_task(s, s.cursor, e->Task_0));
    }
    if exists|it: ItemModel| #[trigger] holds_task(s, s.cursor, it) && it.start == i {
        let it = choose|it: ItemModel| #[trigger] holds_task(s, s.cursor, it) && it.start == i;
        if s.cursor < c {
            assert(entry_line(entries_of(s)[s.cursor]) < entry_line(entries_of(s)[c]));
        } else if s.cursor > c {
            assert(entry_line(entries_of(s)[c]) < entry_line(entries_of(s)[s.cursor]));
        }
    }
}

proof fn lemma_says_line(s: State, i: int)
    requires
        0 <= i < s.lines.len(),
    ensures
        says_line(s, i, rows_at(s, i)),
{
    let l = s.lines[i];
    let rows = rows_at(s, i);
    lemma_folded(s, i);
    if heading(l) {
        lemma_heading_not_blank(l);
        if !(s.hide_done && kind_of(heading_name(l)) == SectionKind::Done) && section(l)
            && s.collapsed.contains(heading_name(l)) {
            let e = next_stop(s.lines, i + 1);
            let sec = |l: Seq<char>| ends_todo(l);
            lemma_first_from(s.lines, i + 1, sec);
            let at = tops_in(s.lines, i + 1, e);
            lemma_tops(s.lines, i + 1, e);
            assert forall|j: int| i < j < e implies !ends_todo(#[trigger] s.lines[j]) by {
                assert(!sec(s.lines[j]));
            }
            if e < s.lines.len() {
                assert(sec(s.lines[e]));
            }
            assert(says_folded(s.lines, i, e, at, rows[0]));
        }
    } else if shown_task(s, i) {
        lemma_task_row(s.lines, i);
        lemma_expanded(s, i);
        let e = block_end(s.lines, i);
        let at = tasks_in(s.lines, i + 1, e);
        lemma_block_end(s.lines, i);
        lemma_sub_rows(s.lines, i + 1, e);
        assert(task_lines(s.lines, i + 1, e, at));
        if expanded(s, i) {
            assert(rows.skip(1) =~= sub_rows(s.lines, i + 1, e));
        }
    }
}

proof fn lemma_rows_place(s: State, i: int, n: int)
    requires
        0 <= i < n <= s.lines.len(),
    ensures
        ({
            let a = rows_upto(s, i).len() as int;
            let b = rows_upto(s, i + 1).len() as int;
            &&& 0 <= a <= b <= rows_upto(s, n).len()
            &&& rows_upto(s, n).subrange(a, b) == rows_at(s, i)
        }),
    decreases n,
{
    let a = rows_upto(s, i).len() as int;
    let b = rows_upto(s, i + 1).len() as int;
    if i < n - 1 {
        lemma_rows_place(s, i, n - 1);
        assert(rows_upto(s, n).subrange(a, b) =~= rows_upto(s, n - 1).subrange(a, b));
    } else {
        assert(rows_upto(s, n).subrange(a, b) =~= rows_at(s, i));
    }
}

/// The main list shows the lines one after the other, each as it is: a header for a heading, a
/// row for each shown task with the stamp that its text carries, its count of subtasks and
/// whether it has notes, rows for the subtasks that are expanded, and one row for a collapsed
/// section with the count of its tasks. Nothing else is shown.
pub proof fn law_rows_say_the_lines(s: State)
    ensures
        exists|pos: Seq<int>| #[trigger] says_lines(s, rows_of(s), pos),
{
    let n = s.lines.len() as int;
    let pos = Seq::new((n + 1) as nat, |i: int| rows_upto(s, i).len() as int);
    let rows = rows_of(s);
    assert forall|i: int| 0 <= i < n implies 0 <= #[trigger] pos[i] <= pos[i + 1] <= rows.len()
        && says_line(s, i, rows.subrange(pos[i], pos[i + 1])) by {
        lemma_rows_place(s, i, n);
        lemma_says_line(s, i);
    }
    assert(says_lines(s, rows, pos));
}

/// The row of a shown task carries the stamp that stands in the task's text.
pub proof fn law_row_carries_the_stamp(s: State, i: int)
    requires
        0 <= i < s.lines.len(),
        shown_task(s, i),
    ensures
        exists|k: int|
            {
                &&& 0 <= k < rows_of(s).len()
                &&& (#[trigger] rows_of(s)[k]) is Task
                &&& rows_of(s)[k]->stamp == stamp_of(behind_box(s.lines[i]))
                &&& rows_of(s)[k]->Task_text == title_of(behind_box(s.lines[i]))
                &&& rows_of(s)[k]->Task_done == is_done(s.lines[i])
            },
{
    let n = s.lines.len() as int;
    lemma_folded(s, i);
    if heading(s.lines[i]) {
        lemma_heading_not_blank(s.lines[i]);
    }
    lemma_rows_place(s, i, n);
    lemma_task_row(s.lines, i);
    let a = rows_upto(s, i).len() as int;
    let b = rows_upto(s, i + 1).len() as int;
    let here = rows_of(s).subrange(a, b);
    assert(here == rows_at(s, i));
    assert(here.len() == b - a);
    assert(here[0] == rows_of(s)[a]);
    assert(rows_of(s)[a] == task_row(s.lines, i));
}

// ---------------------------------------------------------------------------------
// Pieces

/// The text of pieces, one after the other.
pub open spec fn run_of(pieces: Seq<PieceModel>) -> Seq<char>
    decreases pieces.len(),
{
    if pieces.len() == 0 {
        Seq::empty()
    } else {
        run_of(pieces.drop_last()) + pieces.last().text
    }
}

proof fn lemma_run_push(a: Seq<PieceModel>, p: PieceModel)
    ensures
        run_of(a.push(p)) == run_of(a) + p.text,
{
    assert(a.push(p).drop_last() =~= a);
}

/// The number that digits stand for.
pub open spec fn number_of(digits: Seq<char>) -> int
    decreases digits.len(),
{
    if digits.len() == 0 {
        0
    } else {
        10 * number_of(digits.drop_last()) + (digits.last() as int - '0' as int)
    }
}

/// A number is written in digits that stand for it, without a zero before them.
pub proof fn law_decimal(n: nat)
    ensures
        decimal(n).len() > 0,
        forall|i: int|
            0 <= i < decimal(n).len() ==> '0' <= #[trigger] decimal(n)[i] && decimal(n)[i] <= '9',
        number_of(decimal(n)) == n,
        n > 0 ==> decimal(n)[0] != '0',
        n == 0 ==> decimal(n) == seq!['0'],
    decreases n,
{
    reveal_with_fuel(number_of, 2);
    if n < 10 {
        assert(digit(n) as int == '0' as int + n);
        assert(decimal(n).drop_last() =~= Seq::empty());
        if n == 0 {
            assert(digit(0) == '0');
        }
    } else {
        law_decimal(n / 10);
        let d = (n % 10) as nat;
        assert(digit(d) as int == '0' as int + d);
        assert(decimal(n).drop_last() =~= decimal(n / 10));
        assert(decimal(n).last() == digit(d));
        assert(decimal(n)[0] == decimal(n / 10)[0]);
    }
}

/// What a task's row reads before its stamp: its box, its title, the count of its subtasks if
/// it has any, and the marker of notes if it has any.
pub open spec fn left_of(
    text: Seq<char>,
    done: bool,
    subs: Option<(int, int)>,
    has_notes: bool,
) -> Seq<char> {
    (if done {
        "[x] "@
    } else {
        "[ ] "@
    }) + text + (match subs {
        Some((d, t)) => "  "@ + decimal(d as nat) + "/"@ + decimal(t as nat),
        None => Seq::empty(),
    }) + (if has_notes {
        "  ≡"@
    } else {
        Seq::empty()
    })
}

/// Whether a row is its left part, blanks, and a stamp at the right margin where there is
/// room: at least one blank, and no more than are needed.
pub open spec fn at_margin(
    row: Seq<char>,
    left: Seq<char>,
    blanks: Seq<char>,
    stamp: Seq<char>,
    width: int,
) -> bool {
    &&& row == left + blanks + stamp
    &&& blanks.len() > 0
    &&& forall|i: int| 0 <= i < blanks.len() ==> #[trigger] blanks[i] == ' '
    &&& left.len() + 1 + stamp.len() <= width ==> row.len() == width
    &&& left.len() + 1 + stamp.len() > width ==> blanks.len() == 1
}

/// A task's row reads: its left part, and its stamp if it carries one, as it is shown, at the
/// right margin.
pub proof fn law_task_row_reads(
    text: Seq<char>,
    done: bool,
    stamp: Option<Seq<char>>,
    subs: Option<(int, int)>,
    has_notes: bool,
    width: int,
)
    ensures
        ({
            let row = RowModel::Task { text, done, stamp, subs, has_notes };
            let left = left_of(text, done, subs, has_notes);
            match stamp {
                None => run_of(pieces_of(row, width)) == left,
                Some(x) => exists|blanks: Seq<char>|
                    #[trigger] at_margin(
                        run_of(pieces_of(row, width)),
                        left,
                        blanks,
                        shown(x),
                        width,
                    ),
            }
        }),
{
    reveal_strlit("[x] ");
    reveal_strlit("[ ] ");
    reveal_strlit("  ≡");
    let row = RowModel::Task { text, done, stamp, subs, has_notes };
    let all = pieces_of(row, width);
    let none = Seq::<PieceModel>::empty();
    let p0 = if done {
        piece("[x] "@, Tone::Gray)
    } else {
        piece("[ ] "@, Tone::Green)
    };
    let p1 = if done {
        piece(text, Tone::Struck)
    } else {
        piece(text, Tone::Plain)
    };
    let a = none.push(p0).push(p1);
    lemma_run_push(none, p0);
    lemma_run_push(none.push(p0), p1);
    assert(run_of(none) =~= Seq::empty());
    let b = match subs {
        Some((d, t)) => a.push(piece(tally(d, t), Tone::Gray)),
        None => a,
    };
    if let Some((d, t)) = subs {
        lemma_run_push(a, piece(tally(d, t), Tone::Gray));
    }
    let c = if has_notes {
        b.push(piece("  ≡"@, Tone::Gray))
    } else {
        b
    };
    if has_notes {
        lemma_run_push(b, piece("  ≡"@, Tone::Gray));
    }
    let left = left_of(text, done, subs, has_notes);
    assert(run_of(c) =~= left);
    assert(left.len() == left_width(text, subs, has_notes));
    match stamp {
        None => {
            assert(all =~= c);
        },
        Some(x) => {
            let blanks = repeat(' ', gap(width, left.len() as int + shown(x).len()));
            let q = piece(blanks, Tone::Plain);
            let r = piece(shown(x), Tone::Faint);
            assert(all =~= c.push(q).push(r));
            lemma_run_push(c, q);
            lemma_run_push(c.push(q), r);
            assert(at_margin(run_of(all), left, blanks, shown(x), width));
        },
    }
}

/// The other rows read: a header its name; a subtask four blanks, its box and its text; a
/// collapsed section a marker, its name and the count of its tasks.
pub proof fn law_other_rows_read(
    text: Seq<char>,
    done: bool,
    some: int,
    total: int,
    width: int,
)
    ensures
        run_of(pieces_of(RowModel::Header(text), width)) == text,
        run_of(pieces_of(RowModel::Sub { text, done }, width)) == "    "@ + (if done {
            "[x] "@
        } else {
            "[ ] "@
        }) + text,
        run_of(
            pieces_of(RowModel::CollapsedSection { name: text, done: some, total }, width),
        ) == "▸ "@ + text + "  "@ + decimal(some as nat) + "/"@ + decimal(total as nat),
{
    let none = Seq::<PieceModel>::empty();
    assert(run_of(none) =~= Seq::empty());
    let h = piece(text, Tone::CyanBold);
    assert(pieces_of(RowModel::Header(text), width) =~= none.push(h));
    lemma_run_push(none, h);
    assert(run_of(none.push(h)) =~= text);
    let i = piece("    "@, Tone::Plain);
    let p0 = if done {
        piece("[x] "@, Tone::Gray)
    } else {
        piece("[ ] "@, Tone::Green)
    };
    let p1 = if done {
        piece(text, Tone::Struck)
    } else {
        piece(text, Tone::Plain)
    };
    assert(pieces_of(RowModel::Sub { text, done }, width) =~= none.push(i).push(p0).push(p1));
    lemma_run_push(none, i);
    lemma_run_push(none.push(i), p0);
    lemma_run_push(none.push(i).push(p0), p1);
    assert(run_of(none.push(i).push(p0).push(p1)) =~= "    "@ + p0.text + text);
    let m = piece("▸ "@, Tone::Cyan);
    let t = piece(tally(some, total), Tone::Gray);
    let row = RowModel::CollapsedSection { name: text, done: some, total };
    assert(pieces_of(row, width) =~= none.push(m).push(h).push(t));
    lemma_run_push(none, m);
    lemma_run_push(none.push(m), h);
    lemma_run_push(none.push(m).push(h), t);
    assert(run_of(none.push(m).push(h).push(t)) =~= "▸ "@ + text + "  "@ + decimal(some as nat)
        + "/"@ + decimal(total as nat));
}

// ---------------------------------------------------------------------------------
// The title

proof fn lemma_items_are_tops(lines: Seq<Seq<char>>, n: int)
    requires
        0 <= n <= lines.len(),
    ensures
        items_upto(lines, n).len() == tops_in(lines, 0, n).len(),
        done_among(items_upto(lines, n), items_upto(lines, n).len() as int) == done_at(
            lines,
            tops_in(lines, 0, n),
        ),
    decreases n,
{
    reveal(Seq::filter);
    let at = tops_in(lines, 0, n);
    if n > 0 {
        lemma_items_are_tops(lines, n - 1);
        let rest = tops_in(lines, 0, n - 1);
        let a = items_upto(lines, n - 1);
        let b = items_upto(lines, n);
        if is_top(lines[n - 1]) {
            assert(at_lines(lines, at).drop_last() =~= at_lines(lines, rest));
            assert(at_lines(lines, at).last() == lines[n - 1]);
            lemma_done_prefix(a, b, a.len() as int);
        }
    } else {
        assert(at_lines(lines, at) =~= Seq::empty());
    }
}

proof fn lemma_done_prefix(a: Seq<ItemModel>, b: Seq<ItemModel>, n: int)
    requires
        n <= a.len(),
        n <= b.len(),
        forall|i: int| 0 <= i < n ==> a[i] == b[i],
    ensures
        done_among(a, n) == done_among(b, n),
    decreases n,
{
    if n > 0 {
        lemma_done_prefix(a, b, n - 1);
    }
}

/// The title over the main list says how many of all the top-level tasks in the file are
/// done, whether they are shown or not.
pub proof fn law_title_counts_tasks(s: State, file: Seq<char>)
    requires
        s.history is None,
        s.notes is None,
    ensures
        exists|at: Seq<int>|
            {
                &&& #[trigger] top_lines(s.lines, 0, s.lines.len() as int, at)
                &&& title_over(s, file) == " "@ + file + " — "@ + decimal(
                    done_at(s.lines, at) as nat,
                ) + "/"@ + decimal(at.len()) + " done"@ + (if s.hide_done {
                    " (hiding done)"@
                } else {
                    ""@
                }) + " "@
            },
{
    let n = s.lines.len() as int;
    lemma_items_are_tops(s.lines, n);
    lemma_tops(s.lines, 0, n);
    let at = tops_in(s.lines, 0, n);
    assert(top_lines(s.lines, 0, n, at));
}

} // verus!
