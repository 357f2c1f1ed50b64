//! Lines that are neither tasks nor headings survive whatever is done with tasks.
use crate::app::{
    item_under, lemma_item_under, lemma_line_under, lemma_tasks_in, line_under, subs_of, DestModel,
    State,
};
use crate::blocks::{
    is_block, lemma_block_created, lemma_block_ensured, lemma_block_updated, lemma_clear_of_block,
    lemma_completed, lemma_heading_index, lemma_item_is_block, lemma_new_heading, lemma_next_stop,
    lemma_past_clear, lemma_reopened, lemma_task_kept,
};
use crate::keys::{command_of, commanded, in_list, pressed, Command, Key};
use crate::laws::moves::{law_move_carries_block, moved_after, moved_before};
use crate::laws::prompt::{
    law_sub_sinks_in_its_block, lemma_new_sub, lemma_new_task, lemma_sub_place,
    lemma_subs_stay_tasks,
};
use crate::laws::reorder::lemma_neighbours;
use crate::laws::rotate::{bag, lemma_bag_concat, lemma_inserted_bag};
use crate::laws::tidy::{law_tidy_keeps_lines, lemma_solid_push};
use crate::moves::{movable, moved_to, reorder_pair, reordered};
use crate::outline::{
    created, custom_place, end_of_section, ensured, heading_index, moved, new_heading, next_stop,
    past_blanks, shifted, tidied, top_end, Placed,
};
use crate::prompt::{
    added, edited, input_committed, new_sub, new_task, sub_added, sub_place, typed_text,
};
use crate::search::{lemma_back_from, lemma_first_from};
use crate::task::{completed, heading, is_done, is_task, mark_pos, reopened, retitled};
use crate::text::{is_blank, is_space};
use crate::toggle::{sub_selected, sub_toggled, toggled};
use vstd::prelude::*;

verus! {

/// Whether a line occurs in one list as often as in another, unless it is a task, or as
/// often or more if it is a heading.
pub open spec fn survives(l: Seq<char>, from: Seq<Seq<char>>, to: Seq<Seq<char>>) -> bool {
    !is_task(l) ==> {
        &&& bag(from).count(l) <= bag(to).count(l)
        &&& !heading(l) ==> bag(from).count(l) == bag(to).count(l)
    }
}

/// Lists that differ in tasks alone.
proof fn lemma_tasks_aside(a: Seq<Seq<char>>, b: Seq<Seq<char>>, l: Seq<char>)
    requires
        a.len() == b.len(),
        forall|i: int|
            0 <= i < a.len() ==> #[trigger] a[i] == b[i] || (is_task(a[i]) && is_task(b[i])),
        !is_task(l),
    ensures
        bag(a).count(l) == bag(b).count(l),
    decreases a.len(),
{
    if a.len() > 0 {
        let x = a.drop_last();
        let y = b.drop_last();
        let n = a.len() - 1;
        assert forall|i: int| 0 <= i < x.len() implies #[trigger] x[i] == y[i] || (is_task(x[i])
            && is_task(y[i])) by {
            assert(x[i] == a[i] && y[i] == b[i]);
        }
        lemma_tasks_aside(x, y, l);
        assert(a[n] == b[n] || (is_task(a[n]) && is_task(b[n])));
        assert(a =~= x.push(a[n]));
        assert(b =~= y.push(b[n]));
        lemma_solid_push(x, a[n]);
        lemma_solid_push(y, b[n]);
        broadcast use vstd::seq_lib::group_to_multiset_ensures;

        assert(bag(a).count(l) == bag(b).count(l));
    }
}

proof fn lemma_moved_bag(lines: Seq<Seq<char>>, start: int, end: int, dest: int)
    requires
        0 <= start <= end <= lines.len(),
        0 <= dest <= lines.len(),
        dest <= start || dest >= end,
    ensures
        bag(tidied(moved(lines, start, end - start, dest))) == bag(lines),
{
    let a = moved_before(lines, start, end, dest);
    let b = lines.subrange(start, end);
    let c = moved_after(lines, start, end, dest);
    let x = lines.take(start);
    let z = lines.skip(end);
    law_move_carries_block(lines, start, end, dest);
    law_tidy_keeps_lines(moved(lines, start, end - start, dest));
    lemma_bag_concat(a + b, c);
    lemma_bag_concat(a, b);
    lemma_bag_concat(a, c);
    assert(lines =~= x + b + z);
    lemma_bag_concat(x + b, z);
    lemma_bag_concat(x, b);
    lemma_bag_concat(x, z);
    assert(a + c == x + z);
    assert(bag(a).add(bag(b)).add(bag(c)) =~= bag(a).add(bag(c)).add(bag(b)));
    assert(bag(x).add(bag(b)).add(bag(z)) =~= bag(x).add(bag(z)).add(bag(b)));
}

proof fn lemma_updated_survives(lines: Seq<Seq<char>>, at: int, m: Seq<char>, l: Seq<char>)
    requires
        0 <= at < lines.len(),
        is_task(lines[at]),
        is_task(m),
    ensures
        survives(l, lines, lines.update(at, m)),
{
    if !is_task(l) {
        lemma_tasks_aside(lines, lines.update(at, m), l);
    }
}

proof fn lemma_placed_survives(lines: Seq<Seq<char>>, name: Seq<char>, l: Seq<char>)
    ensures
        survives(l, lines, ensured(lines, name).lines),
        survives(l, lines, created(lines, name).lines),
{
    let none = Seq::<char>::empty();
    let h = new_heading(name);
    lemma_new_heading(name);
    lemma_heading_index(lines, "done"@);
    lemma_heading_index(lines, "later"@);
    let d = heading_index(lines, "done"@);
    let c = custom_place(lines);
    let n = lines.len() as int;
    lemma_inserted_bag(lines, d, h);
    lemma_inserted_bag(lines.insert(d, h), d + 1, none);
    lemma_inserted_bag(lines, c, h);
    lemma_inserted_bag(lines.insert(c, h), c + 1, none);
    let one = lines.insert(n, none);
    let two = one.insert(n + 1, h);
    lemma_inserted_bag(lines, n, none);
    lemma_inserted_bag(one, n + 1, h);
    lemma_inserted_bag(two, n + 2, none);
    assert(two.insert(n + 2, none) =~= lines.push(none).push(h).push(none));
}

proof fn lemma_to_section_bag(p: Placed, start: int, end: int)
    requires
        is_block(p.lines, start, end),
        0 <= p.at < p.lines.len(),
        heading(p.lines[p.at]),
    ensures
        bag(tidied(moved(p.lines, start, end - start, end_of_section(p.lines, p.at)))) == bag(
            p.lines,
        ),
{
    let n = next_stop(p.lines, p.at + 1);
    lemma_next_stop(p.lines, p.at + 1);
    lemma_clear_of_block(p.lines, start, end, n);
    lemma_back_from(p.lines, n, |l: Seq<char>| !is_blank(l));
    lemma_moved_bag(p.lines, start, end, end_of_section(p.lines, p.at));
}

proof fn lemma_to_top_bag(lines: Seq<Seq<char>>, start: int, end: int)
    requires
        is_block(lines, start, end),
    ensures
        bag(tidied(moved(lines, start, end - start, top_end(lines)))) == bag(lines),
{
    let n = next_stop(lines, 0);
    lemma_next_stop(lines, 0);
    lemma_clear_of_block(lines, start, end, n);
    lemma_back_from(lines, n, |l: Seq<char>| !is_blank(l));
    lemma_moved_bag(lines, start, end, top_end(lines));
}

proof fn lemma_toggled_survives(s: State, stamp: Seq<char>, l: Seq<char>)
    ensures
        survives(l, s.lines, toggled(s, stamp).lines),
{
    lemma_item_is_block(s);
    if let Some(it) = item_under(s) {
        let start = it.start;
        let end = it.start + it.len;
        let line = s.lines[start];
        if is_done(line) {
            lemma_reopened(line);
            let u = s.lines.update(start, reopened(line));
            lemma_updated_survives(s.lines, start, reopened(line), l);
            lemma_block_updated(s.lines, start, end, reopened(line));
            lemma_to_top_bag(u, start, end);
        } else {
            let c = completed(line, stamp);
            lemma_completed(line, stamp);
            let u = s.lines.update(start, c);
            lemma_updated_survives(s.lines, start, c, l);
            lemma_block_updated(s.lines, start, end, c);
            reveal_strlit("Done");
            reveal_strlit("later");
            lemma_placed_survives(u, "Done"@, l);
            lemma_block_ensured(u, start, end, "Done"@);
            let p = ensured(u, "Done"@);
            lemma_past_clear(p.lines, start, end, p.at);
            lemma_first_from(p.lines, p.at + 1, |l: Seq<char>| !is_blank(l));
            lemma_moved_bag(p.lines, start, end, past_blanks(p.lines, p.at));
        }
    }
}

proof fn lemma_sub_toggled_survives(s: State, l: Seq<char>)
    ensures
        survives(l, s.lines, sub_toggled(s).lines),
{
    if sub_selected(s) {
        let it = item_under(s)->0;
        let subs = subs_of(s.lines, it);
        let t = sub_toggled(s).lines;
        lemma_item_under(s);
        lemma_tasks_in(s.lines, it.start + 1, it.start + it.len);
        law_sub_sinks_in_its_block(s);
        lemma_subs_stay_tasks(s);
        if !is_task(l) {
            assert forall|i: int| 0 <= i < s.lines.len() implies #[trigger] s.lines[i] == t[i] || (
            is_task(s.lines[i]) && is_task(t[i])) by {
                if subs.contains(i) {
                    let k = choose|k: int| 0 <= k < subs.len() && subs[k] == i;
                    assert(is_task(s.lines[subs[k]]));
                    assert(is_task(t[subs[k]]));
                } else {
                    assert(t[i] == s.lines[i]);
                }
            }
            lemma_tasks_aside(s.lines, t, l);
        }
    }
}

proof fn lemma_moved_to_survives(s: State, dest: DestModel, l: Seq<char>)
    ensures
        survives(l, s.lines, moved_to(s, dest).lines),
{
    lemma_item_is_block(s);
    if movable(s) {
        let it = item_under(s)->0;
        let start = it.start;
        let end = it.start + it.len;
        match dest {
            DestModel::Todo => {
                lemma_to_top_bag(s.lines, start, end);
            },
            DestModel::Later => {
                lemma_placed_survives(s.lines, "Later"@, l);
                lemma_block_ensured(s.lines, start, end, "Later"@);
                let p = ensured(s.lines, "Later"@);
                let st = shifted(start, p);
                lemma_to_section_bag(p, st, st + it.len);
            },
            DestModel::Section(name) => {
                lemma_placed_survives(s.lines, name, l);
                lemma_block_created(s.lines, start, end, name);
                let p = created(s.lines, name);
                let st = shifted(start, p);
                lemma_to_section_bag(p, st, st + it.len);
            },
            DestModel::NewSection => {},
        }
    }
}

proof fn lemma_reordered_survives(s: State, delta: int, l: Seq<char>)
    requires
        delta == 1 || delta == -1,
    ensures
        survives(l, s.lines, reordered(s, delta).lines),
{
    if let Some((cur, tgt)) = reorder_pair(s, delta) {
        let k = if delta == 1 {
            s.cursor
        } else {
            s.cursor - 1
        };
        lemma_neighbours(s, k);
        let dest = if delta < 0 {
            tgt.start
        } else {
            tgt.start + tgt.len
        };
        lemma_moved_bag(s.lines, cur.start, cur.start + cur.len, dest);
    }
}

proof fn lemma_added_survives(s: State, text: Seq<char>, l: Seq<char>)
    ensures
        survives(l, s.lines, added(s, text).lines),
        survives(l, s.lines, sub_added(s, text).lines),
{
    lemma_new_task(text);
    lemma_new_sub(text);
    let n = next_stop(s.lines, 0);
    lemma_next_stop(s.lines, 0);
    lemma_back_from(s.lines, n, |l: Seq<char>| !is_blank(l));
    let d = top_end(s.lines);
    lemma_inserted_bag(s.lines, d, new_task(text));
    law_tidy_keeps_lines(s.lines.insert(d, new_task(text)));
    if let Some(it) = item_under(s) {
        lemma_item_under(s);
        lemma_sub_place(s.lines, it);
        lemma_inserted_bag(s.lines, sub_place(s.lines, it), new_sub(text));
    }
}

proof fn lemma_edited_survives(s: State, text: Seq<char>, l: Seq<char>)
    ensures
        survives(l, s.lines, edited(s, text).lines),
{
    lemma_line_under(s);
    if let Some(i) = line_under(s) {
        let line = s.lines[i];
        let m = retitled(line, text);
        reveal_strlit(" ");
        lemma_first_from(line, 0, |c: char| !is_space(c));
        assert forall|j: int| 0 <= j < mark_pos(line) + 2 implies #[trigger] m[j] == line[j] by {
            assert(line.take(mark_pos(line) + 2)[j] == line[j]);
        }
        lemma_task_kept(line, m);
        lemma_updated_survives(s.lines, i, m, l);
    }
}

proof fn lemma_committed_survives(s: State, typed: Seq<Seq<char>>, l: Seq<char>)
    ensures
        survives(l, s.lines, input_committed(s, typed).lines),
{
    let closed = State { input: None, ..s };
    let text = typed_text(typed);
    lemma_edited_survives(closed, text, l);
    lemma_added_survives(closed, text, l);
    lemma_moved_to_survives(closed, DestModel::Section(text), l);
}

proof fn lemma_commanded_survives(s: State, what: Command, stamp: Seq<char>, l: Seq<char>)
    requires
        what != Command::Undo,
        what != Command::Delete,
    ensures
        survives(l, s.lines, commanded(s, what, stamp).0.lines),
{
    match what {
        Command::MoveDown => {
            lemma_reordered_survives(s, 1, l);
        },
        Command::MoveUp => {
            lemma_reordered_survives(s, -1, l);
        },
        Command::Toggle => {
            lemma_sub_toggled_survives(s, l);
            lemma_toggled_survives(s, stamp, l);
        },
        Command::Later => {
            lemma_moved_to_survives(s, DestModel::Later, l);
            lemma_moved_to_survives(s, DestModel::Todo, l);
        },
        _ => {},
    }
}

/// Lines that are neither tasks nor headings are preserved untouched: each occurs after any
/// key as often as before. A heading occurs as often or more, where a section is created.
/// The keys left out are those that are there to take lines away: deletion, undo, and the
/// closing of notes.
#[verifier::rlimit(50)]
pub proof fn law_other_lines_survive(
    s: State,
    key: Key,
    typed: Seq<Seq<char>>,
    columns: Option<u16>,
    stamp: Seq<char>,
    l: Seq<char>,
)
    requires
        s.notes is None,
        in_list(s) ==> command_of(key) != Command::Delete && command_of(key) != Command::Undo,
    ensures
        survives(l, s.lines, pressed(s, key, typed, columns, stamp).0.lines),
{
    if s.input is Some {
        lemma_committed_survives(s, typed, l);
    } else if s.history is Some {
    } else if s.move_menu is Some {
        let closed = State { move_menu: None, ..s };
        lemma_moved_to_survives(closed, s.move_menu->0.options[s.move_menu->0.sel], l);
    } else if s.show_help || s.quit_confirm is Some {
    } else {
        lemma_commanded_survives(
            State { status: Seq::empty(), ..s },
            command_of(key),
            stamp,
            l,
        );
    }
}

} // verus!
