//! How rows are shown, which is the selected one, and what stands above and below them.
use crate::app::{InputKind, State};
use crate::rows::RowModel;
use crate::screen::{
    footer_of, history_tone_of, is_stop, least, pieces_of, prompt_title_of, row_selected,
    selected_of, selected_upto, stops_upto, subs_since, title_over, PieceModel, Tone,
};
use crate::task::is_task;
use vstd::prelude::*;

verus! {

// ---------------------------------------------------------------------------------
// Tones

/// A task that is done has a gray box and a text that is struck out, one that is not a green
/// box and a plain text; whatever follows is gray but for the stamp, which is faint, and the
/// blanks before it.
pub proof fn law_tones_of_a_task(
    text: Seq<char>,
    done: bool,
    stamp: Option<Seq<char>>,
    subs: Option<(int, int)>,
    has_notes: bool,
    width: int,
)
    ensures
        ({
            let all = pieces_of(RowModel::Task { text, done, stamp, subs, has_notes }, width);
            let n = all.len() as int;
            &&& n >= 2
            &&& all[0].tone == (if done {
                Tone::Gray
            } else {
                Tone::Green
            })
            &&& all[1] == (PieceModel {
                text,
                tone: if done {
                    Tone::Struck
                } else {
                    Tone::Plain
                },
            })
            &&& stamp is Some ==> n >= 4 && all[n - 1].tone == Tone::Faint && all[n - 2].tone
                == Tone::Plain
            &&& forall|i: int|
                2 <= i < n && (stamp is Some ==> i < n - 2) ==> (#[trigger] all[i]).tone
                    == Tone::Gray
        }),
{
}

/// Headers and the names of collapsed sections are cyan and bold; a subtask is shown as a
/// task is; the marker of a collapsed section is cyan and its count gray.
pub proof fn law_tones_of_other_rows(
    text: Seq<char>,
    done: bool,
    some: int,
    total: int,
    width: int,
)
    ensures
        pieces_of(RowModel::Header(text), width) == seq![
            PieceModel { text, tone: Tone::CyanBold },
        ],
        ({
            let sub = pieces_of(RowModel::Sub { text, done }, width);
            let task = pieces_of(
                RowModel::Task { text, done, stamp: None, subs: None, has_notes: false },
                width,
            );
            &&& sub.len() == 3
            &&& sub[0].tone == Tone::Plain
            &&& sub.skip(1) == task
        }),
        ({
            let all = pieces_of(
                RowModel::CollapsedSection { name: text, done: some, total },
                width,
            );
            &&& all.len() == 3
            &&& all[0].tone == Tone::Cyan
            &&& all[1] == (PieceModel { text, tone: Tone::CyanBold })
            &&& all[2].tone == Tone::Gray
        }),
{
}

/// In the history headings are cyan and bold, tasks plain, and other lines gray.
pub proof fn law_tones_of_the_history(l: Seq<char>)
    ensures
        history_tone_of(l) == Tone::CyanBold <==> l.len() > 0 && l[0] == '#',
        history_tone_of(l) == Tone::Plain <==> is_task(l) && l[0] != '#',
        history_tone_of(l) == Tone::Gray || history_tone_of(l) == Tone::Plain || history_tone_of(l)
            == Tone::CyanBold,
{
}

// ---------------------------------------------------------------------------------
// The selected row

/// Whether `at` lists the rows below `n` that are tasks or collapsed sections, in order.
pub open spec fn stop_rows(rows: Seq<RowModel>, n: int, at: Seq<int>) -> bool {
    &&& forall|j: int|
        0 <= j < at.len() ==> 0 <= #[trigger] at[j] < n && (rows[at[j]] is Task
            || rows[at[j]] is CollapsedSection)
    &&& forall|i: int, j: int| 0 <= i < j < at.len() ==> #[trigger] at[i] < #[trigger] at[j]
    &&& forall|i: int|
        0 <= i < n && ((#[trigger] rows[i]) is Task || rows[i] is CollapsedSection)
            ==> at.contains(i)
}

proof fn lemma_stop_count(rows: Seq<RowModel>, n: int, at: Seq<int>)
    requires
        0 <= n <= rows.len(),
        stop_rows(rows, n, at),
    ensures
        stops_upto(rows, n) == at.len(),
    decreases n,
{
    if n == 0 {
        if at.len() > 0 {
            assert(0 <= at[0] < n);
        }
    } else if is_stop(rows[n - 1]) {
        let j = choose|j: int| 0 <= j < at.len() && at[j] == n - 1;
        if j < at.len() - 1 {
            assert(at[j] < at[at.len() - 1]);
        }
        let rest = at.drop_last();
        assert forall|i: int| 0 <= i < rest.len() implies 0 <= #[trigger] rest[i] < n - 1 && (
        rows[rest[i]] is Task || rows[rest[i]] is CollapsedSection) by {
            assert(at[i] < at[at.len() - 1]);
        }
        assert forall|i: int|
            0 <= i < n - 1 && ((#[trigger] rows[i]) is Task || rows[i] is CollapsedSection)
                implies rest.contains(i) by {
            let k = choose|k: int| 0 <= k < at.len() && at[k] == i;
            assert(rest[k] == i);
        }
        lemma_stop_count(rows, n - 1, rest);
    } else {
        assert forall|i: int| 0 <= i < at.len() implies 0 <= #[trigger] at[i] < n - 1 && (
        rows[at[i]] is Task || rows[at[i]] is CollapsedSection) by {}
        lemma_stop_count(rows, n - 1, at);
    }
}

/// Below row `i` stand the stops of the list that are less.
proof fn lemma_stops_below(rows: Seq<RowModel>, at: Seq<int>, i: int, c: int)
    requires
        stop_rows(rows, rows.len() as int, at),
        0 <= i <= rows.len(),
        0 <= c <= at.len(),
        c > 0 ==> at[c - 1] < i,
        c < at.len() ==> i <= at[c],
    ensures
        stops_upto(rows, i) == c,
{
    let few = at.take(c);
    assert forall|j: int| 0 <= j < few.len() implies 0 <= #[trigger] few[j] < i && (
    rows[few[j]] is Task || rows[few[j]] is CollapsedSection) by {
        assert(few[j] == at[j]);
        if j < c - 1 {
            assert(at[j] < at[c - 1]);
        }
    }
    assert forall|k: int|
        0 <= k < i && ((#[trigger] rows[k]) is Task || rows[k] is CollapsedSection)
            implies few.contains(k) by {
        let j = choose|j: int| 0 <= j < at.len() && at[j] == k;
        if j >= c {
            if j > c {
                assert(at[c] < at[j]);
            }
        } else {
            assert(few[j] == k);
        }
    }
    lemma_stop_count(rows, i, few);
}

proof fn lemma_last_selected(
    rows: Seq<RowModel>,
    n: int,
    cursor: int,
    sub: Option<int>,
    r: Option<int>,
)
    requires
        0 <= n <= rows.len(),
        r matches Some(i) ==> 0 <= i < n && row_selected(rows, i, cursor, sub),
        forall|j: int|
            0 <= j < n && Some(j) != r ==> !#[trigger] row_selected(rows, j, cursor, sub),
    ensures
        selected_upto(rows, n, cursor, sub) == r,
    decreases n,
{
    if n > 0 && r != Some(n - 1) {
        assert(!row_selected(rows, n - 1, cursor, sub));
        lemma_last_selected(rows, n - 1, cursor, sub, r);
    }
}

/// The selected row is the row of the task or collapsed section that the cursor counts to;
/// beyond the last there is none.
pub proof fn law_selected_row(rows: Seq<RowModel>, at: Seq<int>, cursor: int)
    requires
        stop_rows(rows, rows.len() as int, at),
        cursor >= 0,
    ensures
        selected_of(rows, cursor, None) == (if cursor < at.len() {
            Some(at[cursor])
        } else {
            None
        }),
{
    let r = if cursor < at.len() {
        Some(at[cursor])
    } else {
        None
    };
    if cursor < at.len() {
        if cursor > 0 {
            assert(at[cursor - 1] < at[cursor]);
        }
        lemma_stops_below(rows, at, at[cursor], cursor);
    }
    assert forall|j: int| 0 <= j < rows.len() && Some(j) != r implies !#[trigger] row_selected(
        rows,
        j,
        cursor,
        None,
    ) by {
        if rows[j] is Task || rows[j] is CollapsedSection {
            let c = choose|c: int| 0 <= c < at.len() && at[c] == j;
            if c > 0 {
                assert(at[c - 1] < at[c]);
            }
            lemma_stops_below(rows, at, j, c);
        }
    }
    lemma_last_selected(rows, rows.len() as int, cursor, None, r);
}

proof fn lemma_subs_in_row(rows: Seq<RowModel>, i: int, k: int)
    requires
        0 <= i <= i + k < rows.len(),
        is_stop(rows[i]),
        forall|j: int| i < j <= i + k ==> (#[trigger] rows[j]) is Sub,
    ensures
        subs_since(rows, i + 1 + k) == k,
    decreases k,
{
    if k > 0 {
        lemma_subs_in_row(rows, i, k - 1);
        assert(rows[i + k] is Sub);
    } else {
        assert(is_stop(rows[i + 1 - 1]));
    }
}

/// With a subtask selected, the selected row is that of the subtask, counted from the row of
/// its task.
pub proof fn law_selected_sub_row(rows: Seq<RowModel>, at: Seq<int>, cursor: int, k: int)
    requires
        stop_rows(rows, rows.len() as int, at),
        0 <= cursor < at.len(),
        rows[at[cursor]] is Task,
        k >= 0,
        at[cursor] + 1 + k < rows.len(),
        forall|j: int| at[cursor] < j <= at[cursor] + 1 + k ==> (#[trigger] rows[j]) is Sub,
        forall|j: int|
            at[cursor] + 1 + k < j < rows.len() && (cursor + 1 < at.len() ==> j < at[cursor + 1])
                ==> (#[trigger] rows[j]) is Sub || rows[j] is Header,
    ensures
        selected_of(rows, cursor, Some(k)) == Some(at[cursor] + 1 + k),
{
    let i = at[cursor] + 1 + k;
    if cursor + 1 < at.len() {
        assert(i < at[cursor + 1]) by {
            assert(at[cursor] < at[cursor + 1]);
            if at[cursor + 1] <= i {
                assert(rows[at[cursor + 1]] is Sub);
            }
        }
    }
    lemma_stops_below(rows, at, i, cursor + 1);
    if k > 0 {
        lemma_subs_in_row(rows, at[cursor], k);
    } else {
        assert(is_stop(rows[i - 1]));
    }
    assert(row_selected(rows, i, cursor, Some(k)));
    assert forall|j: int|
        0 <= j < rows.len() && Some(j) != Some(i) implies !#[trigger] row_selected(
        rows,
        j,
        cursor,
        Some(k),
    ) by {
        if is_stop(rows[j]) {
            let c = choose|c: int| 0 <= c < at.len() && at[c] == j;
            if c > 0 {
                assert(at[c - 1] < at[c]);
            }
            lemma_stops_below(rows, at, j, c);
        } else if rows[j] is Sub {
            lemma_where(rows, at, j);
            let c = stops_upto(rows, j);
            if c == cursor + 1 {
                assert(at[c - 1] < j);
                lemma_subs_differ(rows, at[cursor], i, j);
            }
        }
    }
    lemma_last_selected(rows, rows.len() as int, cursor, Some(k), Some(i));
}

/// A row that is no stop stands behind the stop that is counted last before it and before the
/// next.
proof fn lemma_where(rows: Seq<RowModel>, at: Seq<int>, j: int)
    requires
        stop_rows(rows, rows.len() as int, at),
        0 <= j < rows.len(),
        !is_stop(rows[j]),
    ensures
        ({
            let c = stops_upto(rows, j);
            &&& 0 <= c <= at.len()
            &&& c > 0 ==> at[c - 1] < j
            &&& c < at.len() ==> j < at[c]
        }),
{
    lemma_place(at, j, at.len() as int);
    let c = choose|c: int| #[trigger] parts(at, j, c);
    if c < at.len() {
        assert(is_stop(rows[at[c]]));
    }
    lemma_stops_below(rows, at, j, c);
}

spec fn parts(at: Seq<int>, j: int, c: int) -> bool {
    &&& 0 <= c <= at.len()
    &&& c > 0 ==> at[c - 1] < j
    &&& c < at.len() ==> j <= at[c]
}

proof fn lemma_place(at: Seq<int>, j: int, n: int)
    requires
        0 <= n <= at.len(),
        n < at.len() ==> j <= at[n],
    ensures
        exists|c: int| #[trigger] parts(at, j, c),
    decreases n,
{
    if n > 0 && at[n - 1] >= j {
        lemma_place(at, j, n - 1);
    } else {
        assert(parts(at, j, n));
    }
}

/// Two subtasks under one stop do not count the same.
proof fn lemma_subs_differ(rows: Seq<RowModel>, stop: int, i: int, j: int)
    requires
        0 <= stop < i < rows.len(),
        stop < j < rows.len(),
        i != j,
        rows[i] is Sub,
        rows[j] is Sub,
        forall|x: int| stop < x < i ==> !is_stop(#[trigger] rows[x]),
        forall|x: int| stop < x < j ==> !is_stop(#[trigger] rows[x]),
    ensures
        subs_since(rows, i) != subs_since(rows, j),
{
    if i < j {
        lemma_subs_grow(rows, stop, i, j);
    } else {
        lemma_subs_grow(rows, stop, j, i);
    }
}

proof fn lemma_subs_grow(rows: Seq<RowModel>, stop: int, i: int, j: int)
    requires
        0 <= stop < i < j < rows.len(),
        rows[i] is Sub,
        forall|x: int| stop < x < j ==> !is_stop(#[trigger] rows[x]),
    ensures
        subs_since(rows, i) < subs_since(rows, j),
    decreases j,
{
    assert(!is_stop(rows[j - 1]));
    if i < j - 1 {
        lemma_subs_grow(rows, stop, i, j - 1);
    }
}

// ---------------------------------------------------------------------------------
// Titles, the footer, popups

/// What stands at the foot of the screen: the keys of what is open, or else what was said
/// last, or else the keys of the main list. Each thing that can be open is asked for in the
/// order in which keys go to it, the help before the question, the menu and the prompt.
pub proof fn law_footer(s: State)
    ensures
        ({
            let open_over = s.history is Some || s.notes is Some;
            &&& s.history is Some ==> footer_of(s)
                == " j/k scroll · g/G top/bottom · D or q close"@
            &&& s.history is None && s.notes is Some ==> footer_of(s)
                == " shift+tab save & close · plain lines = notes · \"- [ ] …\" lines = sub-todos"@
            &&& !open_over && s.show_help ==> footer_of(s) == " any key to close"@
            &&& !open_over && !s.show_help && s.quit_confirm is Some ==> footer_of(s)
                == " q/esc/y quit · n stay · h/l choose · enter select"@
            &&& !open_over && !s.show_help && s.quit_confirm is None && s.move_menu is Some
                ==> footer_of(s) == " j/k choose · enter move · esc cancel"@
            &&& !open_over && !s.show_help && s.quit_confirm is None && s.move_menu is None
                && s.input is Some ==> footer_of(s) == " enter save · esc cancel"@
            &&& !open_over && !s.show_help && s.quit_confirm is None && s.move_menu is None
                && s.input is None && s.status.len() > 0 ==> footer_of(s) == seq![' '] + s.status
            &&& !open_over && !s.show_help && s.quit_confirm is None && s.move_menu is None
                && s.input is None && s.status.len() == 0 ==> footer_of(s)
                == " j/k move · space done · n new · s sub · e edit · m move · c collapse · X del · ~ help · q quit"@
        }),
{
    reveal_strlit(" ");
    assert(" "@ =~= seq![' ']);
}

/// Over the history stands that it is one, over notes the title of their task.
pub proof fn law_titles_over_what_is_open(s: State, file: Seq<char>)
    ensures
        s.history is Some ==> title_over(s, file) == " done history (read-only) "@,
        s.history is None && s.notes is Some ==> title_over(s, file) == " notes: "@
            + s.notes->0.title + " "@,
{
}

/// Each prompt says what it asks for.
pub proof fn law_prompt_titles()
    ensures
        prompt_title_of(InputKind::NewTask) == " new todo "@,
        prompt_title_of(InputKind::NewSub) == " new subtask "@,
        prompt_title_of(InputKind::NewSection) == " new section "@,
        prompt_title_of(InputKind::Edit) == " edit "@,
{
}

/// The lesser of two numbers is one of them, and neither is less.
pub proof fn law_least(a: int, b: int)
    ensures
        least(a, b) <= a,
        least(a, b) <= b,
        least(a, b) == a || least(a, b) == b,
{
}

} // verus!
