//! The lines can always stand in a file as they are, so that what is written is read back.
use crate::app::{
    file_of, item_under, lemma_item_under, lemma_line_under, lemma_tasks_in, line_under, lines_in,
    remembered, subs_of, undone, DestModel, State, UNDO_DEPTH,
};
use crate::blocks::{
    is_block, lemma_block_created, lemma_block_ensured, lemma_block_updated, lemma_clear_of_block,
    lemma_completed, lemma_heading_index, lemma_item_is_block, lemma_next_stop, lemma_past_clear,
    lemma_reopened,
};
use crate::bytes::{byte_len, cut_from};
use crate::keys::{
    command_of, commanded, in_order, menu_pressed, pressed, prompt_pressed, Command, Key,
};
use crate::laws::file::{all_plain, law_file_round_trip, plain};
use crate::laws::keys::{lemma_commanded_leads, lemma_committed_leads, lemma_moved_to_leads};
use crate::laws::moves::{law_move_carries_block, moved_after, moved_before};
use crate::laws::prompt::{lemma_filter_halves, lemma_sub_place};
use crate::laws::reorder::lemma_neighbours;
use crate::lines::{joined, spliced, without};
use crate::moves::{
    custom_dests, later_cycled, menu_options, movable, moved_to, reorder_pair, reordered,
    sections_of, sections_upto,
};
use crate::notes::{
    block_indent, cut_bytes, indented_line, least_indent, notes_closed, notes_in_range, notes_of,
    source_of, typed_block,
};
use crate::outline::{
    created, custom_place, end_of_section, ensured, heading_index, moved, new_heading, next_stop,
    past_blanks, shifted, tidied, tidy_all, tidy_push, top_end, Placed,
};
use crate::prompt::{
    added, deleted, edited, input_committed, new_sub, new_task, sub_added, sub_place, typed_text,
};
use crate::search::{first_from, lemma_back_from, lemma_first_from};
use crate::task::{
    behind_box, completed, heading, heading_name, is_done, is_task, lemma_stamp_span, mark_pos,
    reopened, retitled, stamp_of, stamp_span, unstamped, with_mark,
};
use crate::text::{is_blank, is_space, repeat, tail, trim, trim_end};
use crate::toggle::{at_lines, open_first, put_at, sub_selected, sub_toggled, toggled};
use vstd::prelude::*;

verus! {

// ---------------------------------------------------------------------------------
// Lists of lines

proof fn lemma_plain_tidied(lines: Seq<Seq<char>>)
    requires
        all_plain(lines),
    ensures
        all_plain(tidied(lines)),
{
    lemma_plain_tidy_all(lines);
    let all = tidy_all(lines);
    let p = |l: Seq<char>| !is_blank(l);
    lemma_back_from(all, all.len() as int, p);
    let t = tidied(lines);
    assert forall|i: int| 0 <= i < t.len() implies plain(#[trigger] t[i]) by {
        assert(t[i] == all[i]);
    }
}

proof fn lemma_plain_tidy_all(lines: Seq<Seq<char>>)
    requires
        all_plain(lines),
    ensures
        all_plain(tidy_all(lines)),
    decreases lines.len(),
{
    if lines.len() > 0 {
        let rest = lines.drop_last();
        assert forall|i: int| 0 <= i < rest.len() implies plain(#[trigger] rest[i]) by {
            assert(rest[i] == lines[i]);
        }
        lemma_plain_tidy_all(rest);
        let out = tidy_all(rest);
        let l = lines.last();
        assert(l == lines[lines.len() - 1]);
        let next = tidy_push(out, l);
        assert forall|i: int| 0 <= i < next.len() implies plain(#[trigger] next[i]) by {
            if i < out.len() {
                assert(next[i] == out[i]);
            }
        }
    }
}

proof fn lemma_plain_moved(lines: Seq<Seq<char>>, start: int, end: int, dest: int)
    requires
        all_plain(lines),
        0 <= start <= end <= lines.len(),
        0 <= dest <= lines.len(),
        dest <= start || dest >= end,
    ensures
        all_plain(tidied(moved(lines, start, end - start, dest))),
{
    let m = moved(lines, start, end - start, dest);
    law_move_carries_block(lines, start, end, dest);
    let a = moved_before(lines, start, end, dest);
    let c = moved_after(lines, start, end, dest);
    assert forall|i: int| 0 <= i < m.len() implies plain(#[trigger] m[i]) by {
        let k = if i < a.len() {
            if dest <= start || i < start {
                i
            } else {
                i + (end - start)
            }
        } else if i < a.len() + (end - start) {
            start + (i - a.len())
        } else {
            let j = i - a.len() - (end - start);
            if dest <= start {
                if j < start - dest {
                    dest + j
                } else {
                    end + (j - (start - dest))
                }
            } else {
                dest + j
            }
        };
        assert(m[i] == lines[k]);
        assert(plain(lines[k]));
    }
    lemma_plain_tidied(m);
}

proof fn lemma_plain_update(lines: Seq<Seq<char>>, at: int, l: Seq<char>)
    requires
        all_plain(lines),
        plain(l),
        0 <= at < lines.len(),
    ensures
        all_plain(lines.update(at, l)),
{
    let t = lines.update(at, l);
    assert forall|i: int| 0 <= i < t.len() implies plain(#[trigger] t[i]) by {
        if i != at {
            assert(t[i] == lines[i]);
        }
    }
}

proof fn lemma_plain_insert(lines: Seq<Seq<char>>, at: int, l: Seq<char>)
    requires
        all_plain(lines),
        plain(l),
        0 <= at <= lines.len(),
    ensures
        all_plain(lines.insert(at, l)),
{
    let t = lines.insert(at, l);
    assert forall|i: int| 0 <= i < t.len() implies plain(#[trigger] t[i]) by {
        if i < at {
            assert(t[i] == lines[i]);
        } else if i > at {
            assert(t[i] == lines[i - 1]);
        }
    }
}

proof fn lemma_plain_without(lines: Seq<Seq<char>>, from: int, to: int)
    requires
        all_plain(lines),
        0 <= from <= to <= lines.len(),
    ensures
        all_plain(without(lines, from, to)),
{
    let t = without(lines, from, to);
    assert forall|i: int| 0 <= i < t.len() implies plain(#[trigger] t[i]) by {
        let k = if i < from {
            i
        } else {
            i + (to - from)
        };
        assert(t[i] == lines[k]);
    }
}

// ---------------------------------------------------------------------------------
// One line

/// Whether a text holds no newline.
pub open spec fn one_line(s: Seq<char>) -> bool {
    forall|i: int| 0 <= i < s.len() ==> #[trigger] s[i] != '\n'
}

proof fn lemma_plain_trim(s: Seq<char>)
    requires
        one_line(s),
    ensures
        plain(trim(s)),
        plain(trim_end(s)),
{
    let p = |c: char| !is_space(c);
    lemma_back_from(s, s.len() as int, p);
    lemma_first_from(s, 0, p);
    let k = tail(s);
    if k > 0 {
        assert(p(s[k - 1]));
        assert(is_space('\r'));
    }
}

proof fn lemma_plain_completed(l: Seq<char>, stamp: Seq<char>)
    requires
        is_task(l),
        plain(l),
        one_line(stamp),
    ensures
        plain(completed(l, stamp)),
{
    reveal_strlit(" @done(");
    reveal_strlit(")");
    lemma_first_from(l, 0, |c: char| !is_space(c));
    let m = completed(l, stamp);
    let w = with_mark(l, true);
    assert forall|i: int| 0 <= i < m.len() implies #[trigger] m[i] != '\n' by {
        if i < w.len() {
            assert(m[i] == w[i]);
            assert(l[i] != '\n');
        } else if i >= w.len() + 7 && i < w.len() + 7 + stamp.len() {
            assert(m[i] == stamp[i - w.len() - 7]);
        }
    }
    assert(m.last() == ')');
}

proof fn lemma_plain_with_mark(l: Seq<char>, done: bool)
    requires
        is_task(l),
        plain(l),
    ensures
        plain(with_mark(l, done)),
{
    lemma_first_from(l, 0, |c: char| !is_space(c));
    let w = with_mark(l, done);
    assert forall|i: int| 0 <= i < w.len() implies #[trigger] w[i] != '\n' by {
        assert(l[i] != '\n');
    }
    assert(w.last() == l.last());
}

proof fn lemma_plain_reopened(l: Seq<char>)
    requires
        is_task(l),
        plain(l),
    ensures
        plain(reopened(l)),
{
    let w = with_mark(l, false);
    lemma_plain_with_mark(l, false);
    lemma_stamp_span(w);
    let u = unstamped(w);
    assert forall|i: int| 0 <= i < u.len() implies #[trigger] u[i] != '\n' by {
        match stamp_span(w) {
            Some((p, e)) => {
                let k = if i < p {
                    i
                } else {
                    i + (e + 1 - p)
                };
                assert(u[i] == w[k]);
            },
            None => {
                assert(u[i] == w[i]);
            },
        }
    }
    lemma_plain_trim(u);
}

proof fn lemma_plain_retitled(l: Seq<char>, title: Seq<char>)
    requires
        is_task(l),
        plain(l),
        plain(title),
    ensures
        plain(retitled(l, title)),
{
    reveal_strlit(" @done(");
    reveal_strlit(")");
    reveal_strlit(" ");
    lemma_first_from(l, 0, |c: char| !is_space(c));
    let k = mark_pos(l) + 2;
    let line = l.take(k) + " "@ + title;
    let m = retitled(l, title);
    lemma_stamp_span(behind_box(l));
    assert forall|i: int| 0 <= i < line.len() implies #[trigger] line[i] != '\n' by {
        if i < k {
            assert(line[i] == l[i]);
        } else if i > k {
            assert(line[i] == title[i - k - 1]);
        }
    }
    match stamp_of(behind_box(l)) {
        Some(stamp) => {
            let (p, e) = stamp_span(behind_box(l))->0;
            assert forall|i: int| 0 <= i < m.len() implies #[trigger] m[i] != '\n' by {
                if i < line.len() {
                    assert(m[i] == line[i]);
                } else if i >= line.len() + 7 && i < line.len() + 7 + stamp.len() {
                    let j = i - line.len() - 7;
                    assert(m[i] == stamp[j]);
                    assert(stamp[j] == behind_box(l)[p + 6 + j]);
                    assert(behind_box(l)[p + 6 + j] == l[k + p + 6 + j]);
                }
            }
            assert(m.last() == ')');
        },
        None => {
            assert(m == line);
            if title.len() > 0 {
                assert(m.last() == title.last());
            } else {
                assert(m.last() == ' ');
            }
        },
    }
}

/// Whether a text holds no newline.
pub open spec fn whole(s: Seq<char>) -> bool {
    forall|i: int| 0 <= i < s.len() ==> #[trigger] s[i] != '\n'
}

/// Whether none of the texts holds a newline.
pub open spec fn all_whole(texts: Seq<Seq<char>>) -> bool {
    forall|i: int| 0 <= i < texts.len() ==> whole(#[trigger] texts[i])
}

/// A text that can stand in a file, behind one without a newline.
proof fn lemma_plain_behind(a: Seq<char>, b: Seq<char>)
    requires
        whole(a),
        plain(b),
        b.len() > 0,
    ensures
        plain(a + b),
{
    let s = a + b;
    assert forall|i: int| 0 <= i < s.len() implies #[trigger] s[i] != '\n' by {
        if i < a.len() {
            assert(s[i] == a[i]);
        } else {
            assert(s[i] == b[i - a.len()]);
        }
    }
    assert(s.last() == b.last());
}

/// A text behind one that can stand in a file.
proof fn lemma_plain_concat(a: Seq<char>, b: Seq<char>)
    requires
        plain(a),
        plain(b),
    ensures
        plain(a + b),
{
    if b.len() > 0 {
        lemma_plain_behind(a, b);
    } else {
        assert(a + b =~= a);
    }
}

proof fn lemma_plain_new_lines(text: Seq<char>)
    requires
        plain(text),
    ensures
        plain(new_task(text)),
        plain(new_sub(text)),
        plain(new_heading(text)),
{
    reveal_strlit("- [ ] ");
    reveal_strlit("  - [ ] ");
    reveal_strlit("## ");
    lemma_plain_concat("- [ ] "@, text);
    lemma_plain_concat("  - [ ] "@, text);
    lemma_plain_concat("## "@, text);
}

proof fn lemma_one_line_joined(lines: Seq<Seq<char>>)
    requires
        all_plain(lines),
    ensures
        one_line(joined(lines, " "@)),
    decreases lines.len(),
{
    reveal_strlit(" ");
    let s = joined(lines, " "@);
    if lines.len() == 1 {
        assert(plain(lines[0]));
    } else if lines.len() > 1 {
        let rest = lines.drop_last();
        assert forall|i: int| 0 <= i < rest.len() implies plain(#[trigger] rest[i]) by {
            assert(rest[i] == lines[i]);
        }
        lemma_one_line_joined(rest);
        let a = joined(rest, " "@);
        let l = lines[lines.len() - 1];
        assert(plain(l));
        assert forall|i: int| 0 <= i < s.len() implies #[trigger] s[i] != '\n' by {
            if i < a.len() {
                assert(s[i] == a[i]);
            } else if i > a.len() {
                assert(s[i] == l[i - a.len() - 1]);
            }
        }
    }
}

proof fn lemma_plain_typed(typed: Seq<Seq<char>>)
    requires
        all_plain(typed),
    ensures
        plain(typed_text(typed)),
{
    lemma_one_line_joined(typed);
    lemma_plain_trim(joined(typed, " "@));
}

proof fn lemma_plain_name(l: Seq<char>)
    requires
        plain(l),
    ensures
        plain(heading_name(l)),
{
    let k = first_from(l, 0, |c: char| c != '#');
    lemma_first_from(l, 0, |c: char| c != '#');
    let rest = l.skip(k);
    assert forall|i: int| 0 <= i < rest.len() implies #[trigger] rest[i] != '\n' by {
        assert(rest[i] == l[k + i]);
    }
    lemma_plain_trim(rest);
}

// ---------------------------------------------------------------------------------
// Sections and blocks

proof fn lemma_plain_placed(lines: Seq<Seq<char>>, name: Seq<char>)
    requires
        all_plain(lines),
        plain(name),
    ensures
        all_plain(ensured(lines, name).lines),
        all_plain(created(lines, name).lines),
{
    let none = Seq::<char>::empty();
    let l = new_heading(name);
    lemma_plain_new_lines(name);
    lemma_heading_index(lines, "done"@);
    lemma_heading_index(lines, "later"@);
    let d = heading_index(lines, "done"@);
    let c = custom_place(lines);
    lemma_plain_insert(lines, d, l);
    lemma_plain_insert(lines.insert(d, l), d + 1, none);
    lemma_plain_insert(lines, c, l);
    lemma_plain_insert(lines.insert(c, l), c + 1, none);
    let e = lines.push(none).push(l).push(none);
    assert forall|i: int| 0 <= i < e.len() implies plain(#[trigger] e[i]) by {
        if i < lines.len() {
            assert(e[i] == lines[i]);
        }
    }
}

proof fn lemma_plain_to_section(p: Placed, start: int, end: int)
    requires
        all_plain(p.lines),
        is_block(p.lines, start, end),
        0 <= p.at < p.lines.len(),
        heading(p.lines[p.at]),
    ensures
        all_plain(
            tidied(
                moved(
                    p.lines,
                    start,
                    end - start,
                    end_of_section(p.lines, p.at),
                ),
            ),
        ),
{
    let n = next_stop(p.lines, p.at + 1);
    lemma_next_stop(p.lines, p.at + 1);
    lemma_clear_of_block(p.lines, start, end, n);
    let q = |l: Seq<char>| !is_blank(l);
    lemma_back_from(p.lines, n, q);
    lemma_plain_moved(p.lines, start, end, end_of_section(p.lines, p.at));
}

proof fn lemma_plain_to_top(lines: Seq<Seq<char>>, start: int, end: int)
    requires
        all_plain(lines),
        is_block(lines, start, end),
    ensures
        all_plain(tidied(moved(lines, start, end - start, top_end(lines)))),
{
    let n = next_stop(lines, 0);
    lemma_next_stop(lines, 0);
    lemma_clear_of_block(lines, start, end, n);
    let q = |l: Seq<char>| !is_blank(l);
    lemma_back_from(lines, n, q);
    lemma_plain_moved(lines, start, end, top_end(lines));
}

// ---------------------------------------------------------------------------------
// The operations

proof fn lemma_plain_toggled(s: State, stamp: Seq<char>)
    requires
        all_plain(s.lines),
        one_line(stamp),
    ensures
        all_plain(toggled(s, stamp).lines),
{
    lemma_item_is_block(s);
    if let Some(it) = item_under(s) {
        let start = it.start;
        let end = it.start + it.len;
        let l = s.lines[start];
        assert(plain(l));
        if is_done(l) {
            lemma_reopened(l);
            lemma_plain_reopened(l);
            let u = s.lines.update(start, reopened(l));
            lemma_plain_update(s.lines, start, reopened(l));
            lemma_block_updated(s.lines, start, end, reopened(l));
            lemma_plain_to_top(u, start, end);
        } else {
            lemma_completed(l, stamp);
            lemma_plain_completed(l, stamp);
            let c = completed(l, stamp);
            let u = s.lines.update(start, c);
            lemma_plain_update(s.lines, start, c);
            lemma_block_updated(s.lines, start, end, c);
            reveal_strlit("Done");
            reveal_strlit("later");
            lemma_plain_placed(u, "Done"@);
            lemma_block_ensured(u, start, end, "Done"@);
            let p = ensured(u, "Done"@);
            lemma_past_clear(p.lines, start, end, p.at);
            let q = |l: Seq<char>| !is_blank(l);
            lemma_first_from(p.lines, p.at + 1, q);
            lemma_plain_moved(
                p.lines,
                start,
                end,
                past_blanks(p.lines, p.at),
            );
        }
    }
}

proof fn lemma_plain_sub_toggled(s: State)
    requires
        all_plain(s.lines),
    ensures
        all_plain(sub_toggled(s).lines),
{
    if sub_selected(s) {
        let it = item_under(s)->0;
        let subs = subs_of(s.lines, it);
        let k = s.sub->0;
        lemma_item_under(s);
        lemma_tasks_in(s.lines, it.start + 1, it.start + it.len);
        assert(is_task(s.lines[subs[k]]));
        assert(plain(s.lines[subs[k]]));
        let l = with_mark(s.lines[subs[k]], !is_done(s.lines[subs[k]]));
        lemma_plain_with_mark(s.lines[subs[k]], !is_done(s.lines[subs[k]]));
        let u = s.lines.update(subs[k], l);
        lemma_plain_update(s.lines, subs[k], l);
        let held = at_lines(u, subs);
        let p = |l: Seq<char>| !is_done(l);
        let q = |l: Seq<char>| is_done(l);
        let f = open_first(held);
        lemma_filter_halves(held, p, q);
        assert forall|i: int| 0 <= i < f.len() implies plain(#[trigger] f[i]) by {
            let a = held.filter(p);
            let x = f[i];
            if i < a.len() {
                assert(a[i] == x);
                assert(held.filter(p).contains(x));
                held.lemma_filter_contains_rev(p, x);
            } else {
                assert(held.filter(q)[i - a.len()] == x);
                assert(held.filter(q).contains(x));
                held.lemma_filter_contains_rev(q, x);
            }
            let j = choose|j: int| 0 <= j < held.len() && held[j] == x;
            assert(u[subs[j]] == x);
            assert(plain(u[subs[j]]));
        }
        lemma_plain_put_at(u, subs, f, subs.len() as int);
    }
}

proof fn lemma_plain_put_at(
    lines: Seq<Seq<char>>,
    at: Seq<int>,
    contents: Seq<Seq<char>>,
    n: int,
)
    requires
        all_plain(lines),
        all_plain(contents),
        0 <= n <= at.len(),
        n <= contents.len(),
        forall|i: int| 0 <= i < at.len() ==> 0 <= #[trigger] at[i] < lines.len(),
    ensures
        all_plain(put_at(lines, at, contents, n)),
        put_at(lines, at, contents, n).len() == lines.len(),
    decreases n,
{
    if n > 0 {
        lemma_plain_put_at(lines, at, contents, n - 1);
        assert(plain(contents[n - 1]));
        lemma_plain_update(put_at(lines, at, contents, n - 1), at[n - 1], contents[n - 1]);
    }
}

proof fn lemma_plain_moved_to(s: State, dest: DestModel)
    requires
        all_plain(s.lines),
        dest matches DestModel::Section(name) ==> plain(name),
    ensures
        all_plain(moved_to(s, dest).lines),
{
    lemma_item_is_block(s);
    if movable(s) {
        let it = item_under(s)->0;
        let start = it.start;
        let end = it.start + it.len;
        match dest {
            DestModel::Todo => {
                lemma_plain_to_top(s.lines, start, end);
            },
            DestModel::Later => {
                reveal_strlit("Later");
                lemma_plain_placed(s.lines, "Later"@);
                lemma_block_ensured(s.lines, start, end, "Later"@);
                let p = ensured(s.lines, "Later"@);
                let st = shifted(start, p);
                lemma_plain_to_section(p, st, st + it.len);
            },
            DestModel::Section(name) => {
                lemma_plain_placed(s.lines, name);
                lemma_block_created(s.lines, start, end, name);
                let p = created(s.lines, name);
                let st = shifted(start, p);
                lemma_plain_to_section(p, st, st + it.len);
            },
            DestModel::NewSection => {},
        }
    }
}

proof fn lemma_plain_later(s: State)
    requires
        all_plain(s.lines),
    ensures
        all_plain(later_cycled(s).lines),
{
    lemma_plain_moved_to(s, DestModel::Later);
    lemma_plain_moved_to(s, DestModel::Todo);
}

proof fn lemma_plain_reordered(s: State, delta: int)
    requires
        all_plain(s.lines),
        delta == 1 || delta == -1,
    ensures
        all_plain(reordered(s, delta).lines),
{
    if let Some((cur, tgt)) = reorder_pair(s, delta) {
        let k = if delta == 1 {
            s.cursor
        } else {
            s.cursor - 1
        };
        lemma_neighbours(s, k);
        let dest = if delta < 0 {
            tgt.start
        } else {
            tgt.start + tgt.len
        };
        lemma_plain_moved(s.lines, cur.start, cur.start + cur.len, dest);
    }
}

proof fn lemma_plain_added(s: State, text: Seq<char>)
    requires
        all_plain(s.lines),
        plain(text),
    ensures
        all_plain(added(s, text).lines),
        all_plain(sub_added(s, text).lines),
{
    lemma_plain_new_lines(text);
    let n = next_stop(s.lines, 0);
    lemma_next_stop(s.lines, 0);
    let q = |l: Seq<char>| !is_blank(l);
    lemma_back_from(s.lines, n, q);
    let d = top_end(s.lines);
    lemma_plain_insert(s.lines, d, new_task(text));
    lemma_plain_tidied(s.lines.insert(d, new_task(text)));
    if let Some(it) = item_under(s) {
        lemma_item_under(s);
        lemma_sub_place(s.lines, it);
        lemma_plain_insert(s.lines, sub_place(s.lines, it), new_sub(text));
    }
}

proof fn lemma_plain_deleted(s: State)
    requires
        all_plain(s.lines),
    ensures
        all_plain(deleted(s).lines),
{
    lemma_item_under(s);
    lemma_line_under(s);
    if let Some(it) = item_under(s) {
        lemma_plain_without(s.lines, it.start, it.start + it.len);
        lemma_plain_tidied(without(s.lines, it.start, it.start + it.len));
        if let Some(i) = line_under(s) {
            let t = s.lines.remove(i);
            assert forall|j: int| 0 <= j < t.len() implies plain(#[trigger] t[j]) by {
                let k = if j < i {
                    j
                } else {
                    j + 1
                };
                assert(t[j] == s.lines[k]);
            }
        }
    }
}

proof fn lemma_plain_edited(s: State, text: Seq<char>)
    requires
        all_plain(s.lines),
        plain(text),
    ensures
        all_plain(edited(s, text).lines),
{
    lemma_line_under(s);
    if let Some(i) = line_under(s) {
        assert(plain(s.lines[i]));
        lemma_plain_retitled(s.lines[i], text);
        lemma_plain_update(s.lines, i, retitled(s.lines[i], text));
    }
}

proof fn lemma_plain_notes(s: State, typed: Seq<Seq<char>>)
    requires
        all_plain(s.lines),
        all_plain(typed),
        notes_in_range(s),
        s.notes matches Some(notes) ==> notes.indent >= 0 && all_whole(notes.margin),
    ensures
        all_plain(notes_closed(s, typed).lines),
{
    if let Some(notes) = s.notes {
        let pad = repeat(' ', notes.indent as nat);
        let raw = Seq::new(typed.len(), |i: int| indented_line(notes, typed, i));
        let p = |l: Seq<char>| !is_blank(l);
        lemma_back_from(raw, raw.len() as int, p);
        let block = typed_block(notes, typed);
        assert forall|i: int| 0 <= i < block.len() implies plain(#[trigger] block[i]) by {
            assert(block[i] == raw[i]);
            assert(plain(typed[i]));
            let k = source_of(notes.text, typed, i);
            if is_blank(typed[i]) {
            } else if 0 <= k < notes.margin.len() {
                assert(typed[i].len() > 0);
                lemma_plain_behind(notes.margin[k], typed[i]);
            } else {
                lemma_plain_concat(pad, typed[i]);
            }
        }
        let a = without(s.lines, notes.start + 1, notes.start + 1 + notes.child_len);
        lemma_plain_without(s.lines, notes.start + 1, notes.start + 1 + notes.child_len);
        let at = notes.start + 1;
        let t = spliced(a, at, block);
        assert forall|i: int| 0 <= i < t.len() implies plain(#[trigger] t[i]) by {
            if i < at {
                assert(t[i] == a[i]);
            } else if i < at + block.len() {
                assert(t[i] == block[i - at]);
            } else {
                assert(t[i] == a[i - block.len()]);
            }
        }
        lemma_plain_tidied(t);
    }
}

proof fn lemma_plain_menu(lines: Seq<Seq<char>>)
    requires
        all_plain(lines),
    ensures
        all_named(menu_options(lines)),
{
    let sections = sections_of(lines);
    lemma_plain_sections(lines, lines.len() as int);
    lemma_plain_dests(sections, sections.len() as int);
    let options = menu_options(lines);
    let custom = custom_dests(sections, sections.len() as int);
    assert forall|i: int| 0 <= i < options.len() implies plain_dest(#[trigger] options[i]) by {
        if 0 < i < custom.len() + 1 {
            assert(options[i] == custom[i - 1]);
        }
    }
}

/// Whether a destination's name, if it has one, can stand in a file.
pub open spec fn plain_dest(dest: DestModel) -> bool {
    dest matches DestModel::Section(name) ==> plain(name)
}

/// Whether the names of all destinations can stand in a file.
pub open spec fn all_named(options: Seq<DestModel>) -> bool {
    forall|i: int| 0 <= i < options.len() ==> plain_dest(#[trigger] options[i])
}

proof fn lemma_plain_sections(lines: Seq<Seq<char>>, n: int)
    requires
        all_plain(lines),
        0 <= n <= lines.len(),
    ensures
        forall|i: int|
            0 <= i < sections_upto(lines, n).len() ==> plain(
                (#[trigger] sections_upto(lines, n)[i]).1,
            ),
    decreases n,
{
    if n > 0 {
        lemma_plain_sections(lines, n - 1);
        assert(plain(lines[n - 1]));
        lemma_plain_name(lines[n - 1]);
        let a = sections_upto(lines, n - 1);
        let b = sections_upto(lines, n);
        assert forall|i: int| 0 <= i < b.len() implies plain((#[trigger] b[i]).1) by {
            if i < a.len() {
                assert(b[i] == a[i]);
            }
        }
    }
}

proof fn lemma_plain_dests(sections: Seq<(int, Seq<char>)>, n: int)
    requires
        0 <= n <= sections.len(),
        forall|i: int| 0 <= i < sections.len() ==> plain((#[trigger] sections[i]).1),
    ensures
        all_named(custom_dests(sections, n)),
    decreases n,
{
    if n > 0 {
        lemma_plain_dests(sections, n - 1);
        assert(plain(sections[n - 1].1));
    }
}

// ---------------------------------------------------------------------------------
// The law

/// Whether all that a state holds for the file can stand in it: its lines, the lines that
/// undo remembers, what was taken away from open notes, and the names in an open menu.
pub open spec fn plain_state(s: State) -> bool {
    &&& all_plain(s.lines)
    &&& forall|k: int| 0 <= k < s.undo.len() ==> all_plain(#[trigger] s.undo[k])
    &&& s.move_menu matches Some(menu) ==> all_named(menu.options)
    &&& s.notes matches Some(notes) ==> notes.indent >= 0 && all_whole(notes.margin)
}

/// Whether all that undo remembers can stand in the file.
spec fn plain_undo(s: State) -> bool {
    forall|k: int| 0 <= k < s.undo.len() ==> all_plain(#[trigger] s.undo[k])
}

proof fn lemma_plain_remembered(s: State)
    requires
        all_plain(s.lines),
        plain_undo(s),
    ensures
        plain_undo(remembered(s)),
{
    let t = remembered(s);
    assert forall|k: int| 0 <= k < t.undo.len() implies all_plain(#[trigger] t.undo[k]) by {
        let pushed = s.undo.push(s.lines);
        if t.undo == s.undo {
        } else if pushed.len() > UNDO_DEPTH {
            assert(t.undo[k] == pushed[k + 1]);
            if k + 1 < s.undo.len() {
                assert(s.undo[k + 1] == pushed[k + 1]);
            }
        } else {
            assert(t.undo[k] == pushed[k]);
            if k < s.undo.len() {
                assert(s.undo[k] == pushed[k]);
            }
        }
    }
}

proof fn lemma_plain_commanded(s: State, what: Command, stamp: Seq<char>)
    requires
        all_plain(s.lines),
        plain_undo(s),
        one_line(stamp),
    ensures
        all_plain(commanded(s, what, stamp).0.lines),
{
    match what {
        Command::Undo => {
            if s.undo.len() > 0 {
                assert(all_plain(s.undo[s.undo.len() - 1]));
            }
        },
        Command::MoveDown => {
            lemma_plain_reordered(s, 1);
        },
        Command::MoveUp => {
            lemma_plain_reordered(s, -1);
        },
        Command::Delete => {
            lemma_plain_deleted(s);
        },
        Command::Toggle => {
            lemma_plain_sub_toggled(s);
            lemma_plain_toggled(s, stamp);
        },
        Command::Later => {
            lemma_plain_later(s);
        },
        _ => {},
    }
}

proof fn lemma_plain_committed(s: State, typed: Seq<Seq<char>>)
    requires
        all_plain(s.lines),
        all_plain(typed),
    ensures
        all_plain(input_committed(s, typed).lines),
{
    let closed = State { input: None, ..s };
    let text = typed_text(typed);
    lemma_plain_typed(typed);
    lemma_plain_edited(closed, text);
    lemma_plain_added(closed, text);
    lemma_plain_moved_to(closed, DestModel::Section(text));
}

proof fn lemma_plain_prompt(s: State, key: Key, typed: Seq<Seq<char>>)
    requires
        plain_state(s),
        all_plain(typed),
        s.input is Some,
    ensures
        plain_state(prompt_pressed(s, key, typed).0),
{
    let closed = State { input: None, ..s };
    lemma_plain_committed(s, typed);
    lemma_committed_leads(s, typed);
    lemma_plain_remembered(closed);
}

proof fn lemma_plain_in_menu(s: State, key: Key)
    requires
        plain_state(s),
        in_order(s),
        s.move_menu is Some,
    ensures
        plain_state(menu_pressed(s, key).0),
{
    let closed = State { move_menu: None, ..s };
    let menu = s.move_menu->0;
    let dest = menu.options[menu.sel];
    assert(plain_dest(dest));
    lemma_plain_moved_to(closed, dest);
    lemma_moved_to_leads(closed, dest);
    lemma_plain_remembered(closed);
}

proof fn lemma_plain_in_list(s: State, what: Command, stamp: Seq<char>)
    requires
        plain_state(s),
        one_line(stamp),
    ensures
        plain_state(commanded(s, what, stamp).0),
{
    lemma_plain_commanded(s, what, stamp);
    lemma_plain_remembered(s);
    if what == Command::Notes {
        lemma_item_under(s);
        lemma_block_indent(s);
        lemma_whole_margins(s);
    } else if what == Command::Move {
        lemma_plain_menu(s.lines);
    } else if what == Command::Undo {
        let t = undone(s);
        assert forall|k: int| 0 <= k < t.undo.len() implies all_plain(#[trigger] t.undo[k]) by {
            assert(t.undo[k] == s.undo[k]);
        }
    } else {
        lemma_commanded_leads(s, what, stamp);
    }
}

proof fn lemma_whole_margins(s: State)
    requires
        all_plain(s.lines),
    ensures
        item_under(s) matches Some(it) ==> all_whole(notes_of(s.lines, it).margin),
{
    lemma_item_under(s);
    if let Some(it) = item_under(s) {
        let notes = notes_of(s.lines, it);
        assert forall|i: int| 0 <= i < notes.margin.len() implies whole(
            #[trigger] notes.margin[i],
        ) by {
            let l = s.lines[it.start + 1 + i];
            assert(plain(l));
            lemma_cut_in_line(l, cut_bytes(l, notes.indent), 0);
        }
    }
}

proof fn lemma_cut_in_line(l: Seq<char>, n: int, k: int)
    requires
        0 <= k <= l.len(),
    ensures
        k <= cut_from(l, n, k) <= l.len(),
    decreases l.len() - k,
{
    if k < l.len() && byte_len(l.take(k)) < n {
        lemma_cut_in_line(l, n, k + 1);
    }
}

proof fn lemma_block_indent(s: State)
    ensures
        item_under(s) matches Some(it) ==> block_indent(s.lines, it) >= 0,
{
    if let Some(it) = item_under(s) {
        lemma_least(s.lines, it.start + 1, it.start + it.len);
    }
}

proof fn lemma_least(lines: Seq<Seq<char>>, from: int, to: int)
    ensures
        least_indent(lines, from, to) matches Some(n) ==> n >= 0,
    decreases to - from,
{
    if from < to {
        lemma_least(lines, from, to - 1);
    }
}

/// Lines that can stand in a file as they are stay such, whatever keys are pressed and
/// whatever single lines are typed.
#[verifier::rlimit(50)]
pub proof fn law_lines_stay_plain(
    s: State,
    key: Key,
    typed: Seq<Seq<char>>,
    columns: Option<u16>,
    stamp: Seq<char>,
)
    requires
        plain_state(s),
        in_order(s),
        all_plain(typed),
        one_line(stamp),
    ensures
        plain_state(pressed(s, key, typed, columns, stamp).0),
{
    if s.notes is Some {
        lemma_plain_notes(s, typed);
        lemma_plain_remembered(s);
    } else if s.input is Some {
        lemma_plain_prompt(s, key, typed);
    } else if s.history is Some {
    } else if s.move_menu is Some {
        lemma_plain_in_menu(s, key);
    } else if s.show_help || s.quit_confirm is Some {
    } else {
        lemma_plain_in_list(State { status: Seq::empty(), ..s }, command_of(key), stamp);
    }
}

/// Everything that is written is read: the file that is written after a key gives the lines
/// as they are, unless there are none.
pub proof fn law_what_is_written_is_read(
    s: State,
    key: Key,
    typed: Seq<Seq<char>>,
    columns: Option<u16>,
    stamp: Seq<char>,
)
    requires
        plain_state(s),
        in_order(s),
        all_plain(typed),
        one_line(stamp),
        pressed(s, key, typed, columns, stamp).0.lines.len() > 0,
    ensures
        ({
            let t = pressed(s, key, typed, columns, stamp).0;
            lines_in(file_of(t.lines, t.crlf)) == t.lines
        }),
{
    law_lines_stay_plain(s, key, typed, columns, stamp);
    let t = pressed(s, key, typed, columns, stamp).0;
    law_file_round_trip(t.lines, t.crlf);
}

} // verus!
