//! Moving a task past its neighbour: the two change places, and the cursor stays on the task
//! that is moved. What can be selected depends on the lines that are not blank alone.
use crate::app::{
    collapsed_heading, entries_of, entries_upto, entry_at, entry_line, hidden_heading, in_collapsed,
    lemma_entries, shows_task, EntryModel, State,
};
use crate::blocks::is_block;
use crate::laws::moves::own_block;
use crate::laws::selection::lemma_entry_place;
use crate::laws::tidy::{law_tidy_keeps_lines, lemma_solid_concat, lemma_solid_push, solid};
use crate::moves::{reorder_pair, reordered};
use crate::outline::{
    lemma_block_end, lemma_heading_not_blank, lemma_top_not_blank, moved, tidied, under, ItemModel,
};
use crate::rotate::lemma_items_apart;
use crate::task::{heading, is_done, is_top};
use crate::text::is_blank;
use vstd::prelude::*;

verus! {

// ---------------------------------------------------------------------------------
// What can be selected, from the lines alone

/// Whether a collapsed section is open behind the lines, if one is before them or not.
pub open spec fn inside_after(
    lines: Seq<Seq<char>>,
    collapsed: Set<Seq<char>>,
    inside: bool,
) -> bool
    decreases lines.len(),
{
    if lines.len() == 0 {
        inside
    } else if heading(lines.last()) {
        collapsed_heading(lines.last(), collapsed)
    } else {
        inside_after(lines.drop_last(), collapsed, inside)
    }
}

/// Whether a line can be selected, inside a collapsed section or not.
pub open spec fn selectable(
    l: Seq<char>,
    collapsed: Set<Seq<char>>,
    hide_done: bool,
    inside: bool,
) -> bool {
    if heading(l) {
        collapsed_heading(l, collapsed) && !hidden_heading(l, hide_done)
    } else {
        is_top(l) && !inside && !(hide_done && is_done(l))
    }
}

/// The lines that can be selected, where a collapsed section is open before them or not.
pub open spec fn stop_lines(
    lines: Seq<Seq<char>>,
    collapsed: Set<Seq<char>>,
    hide_done: bool,
    inside: bool,
) -> Seq<Seq<char>>
    decreases lines.len(),
{
    if lines.len() == 0 {
        Seq::empty()
    } else {
        let rest = lines.drop_last();
        let so_far = stop_lines(rest, collapsed, hide_done, inside);
        if selectable(lines.last(), collapsed, hide_done, inside_after(rest, collapsed, inside)) {
            so_far.push(lines.last())
        } else {
            so_far
        }
    }
}

/// The lines of the entries of a state.
pub open spec fn entry_lines(s: State) -> Seq<Seq<char>> {
    Seq::new(entries_of(s).len(), |k: int| s.lines[entry_line(entries_of(s)[k])])
}

proof fn lemma_inside(s: State, n: int)
    requires
        0 <= n <= s.lines.len(),
    ensures
        inside_after(s.lines.take(n), s.collapsed, false) == in_collapsed(s, n),
    decreases n,
{
    if n > 0 {
        lemma_inside(s, n - 1);
        assert(s.lines.take(n).drop_last() =~= s.lines.take(n - 1));
        assert(s.lines.take(n).last() == s.lines[n - 1]);
    }
}

proof fn lemma_stop_lines(s: State, n: int)
    requires
        0 <= n <= s.lines.len(),
    ensures
        stop_lines(s.lines.take(n), s.collapsed, s.hide_done, false) == Seq::new(
            entries_upto(s, n).len(),
            |k: int| s.lines[entry_line(entries_upto(s, n)[k])],
        ),
    decreases n,
{
    let a = stop_lines(s.lines.take(n), s.collapsed, s.hide_done, false);
    let b = Seq::new(
        entries_upto(s, n).len(),
        |k: int| s.lines[entry_line(entries_upto(s, n)[k])],
    );
    if n > 0 {
        lemma_stop_lines(s, n - 1);
        lemma_inside(s, n - 1);
        assert(s.lines.take(n).drop_last() =~= s.lines.take(n - 1));
        assert(s.lines.take(n).last() == s.lines[n - 1]);
        let c = Seq::new(
            entries_upto(s, n - 1).len(),
            |k: int| s.lines[entry_line(entries_upto(s, n - 1)[k])],
        );
        if entry_at(s, n - 1) is Some {
            assert(b =~= c.push(s.lines[n - 1]));
        } else {
            assert(b =~= c);
        }
    } else {
        assert(a =~= b);
    }
}

/// The lines of the entries are the lines that can be selected.
proof fn lemma_entry_lines(s: State)
    ensures
        entry_lines(s) == stop_lines(s.lines, s.collapsed, s.hide_done, false),
{
    let n = s.lines.len() as int;
    assert(s.lines.take(n) =~= s.lines);
    lemma_stop_lines(s, n);
    assert(entry_lines(s) =~= stop_lines(s.lines, s.collapsed, s.hide_done, false));
}

proof fn lemma_stops_of_solid(
    lines: Seq<Seq<char>>,
    collapsed: Set<Seq<char>>,
    hide_done: bool,
    inside: bool,
)
    ensures
        inside_after(solid(lines), collapsed, inside) == inside_after(lines, collapsed, inside),
        stop_lines(solid(lines), collapsed, hide_done, inside) == stop_lines(
            lines,
            collapsed,
            hide_done,
            inside,
        ),
    decreases lines.len(),
{
    if lines.len() > 0 {
        let rest = lines.drop_last();
        let l = lines.last();
        lemma_stops_of_solid(rest, collapsed, hide_done, inside);
        if is_blank(l) {
            if heading(l) {
                lemma_heading_not_blank(l);
            }
            if is_top(l) {
                lemma_top_not_blank(l);
            }
        } else {
            assert(solid(rest).push(l).drop_last() =~= solid(rest));
        }
    }
}

proof fn lemma_stops_concat(
    a: Seq<Seq<char>>,
    b: Seq<Seq<char>>,
    collapsed: Set<Seq<char>>,
    hide_done: bool,
    inside: bool,
)
    ensures
        inside_after(a + b, collapsed, inside) == inside_after(
            b,
            collapsed,
            inside_after(a, collapsed, inside),
        ),
        stop_lines(a + b, collapsed, hide_done, inside) == stop_lines(
            a,
            collapsed,
            hide_done,
            inside,
        ) + stop_lines(b, collapsed, hide_done, inside_after(a, collapsed, inside)),
    decreases b.len(),
{
    let between = inside_after(a, collapsed, inside);
    if b.len() == 0 {
        assert(a + b =~= a);
        assert(stop_lines(a, collapsed, hide_done, inside) + stop_lines(
            b,
            collapsed,
            hide_done,
            between,
        ) =~= stop_lines(a, collapsed, hide_done, inside));
    } else {
        assert((a + b).drop_last() =~= a + b.drop_last());
        assert((a + b).last() == b.last());
        lemma_stops_concat(a, b.drop_last(), collapsed, hide_done, inside);
        let x = stop_lines(a, collapsed, hide_done, inside);
        let y = stop_lines(b.drop_last(), collapsed, hide_done, between);
        assert((x + y).push(b.last()) =~= x + y.push(b.last()));
    }
}

/// Tidying the lines changes nothing in what can be selected.
pub proof fn law_tidy_keeps_entries(s: State)
    ensures
        entry_lines(State { lines: tidied(s.lines), ..s }) == entry_lines(s),
{
    let t = State { lines: tidied(s.lines), ..s };
    lemma_entry_lines(s);
    lemma_entry_lines(t);
    law_tidy_keeps_lines(s.lines);
    lemma_stops_of_solid(s.lines, s.collapsed, s.hide_done, false);
    lemma_stops_of_solid(t.lines, s.collapsed, s.hide_done, false);
}

/// In the block of a task only the task can be selected.
proof fn lemma_stops_of_block(
    block: Seq<Seq<char>>,
    collapsed: Set<Seq<char>>,
    hide_done: bool,
    n: int,
)
    requires
        0 < n <= block.len(),
        is_top(block[0]),
        !(hide_done && is_done(block[0])),
        forall|i: int| 0 < i < block.len() ==> under(#[trigger] block[i]),
    ensures
        !inside_after(block.take(n), collapsed, false),
        stop_lines(block.take(n), collapsed, hide_done, false) == seq![block[0]],
    decreases n,
{
    let b = block.take(n);
    assert(b.drop_last() =~= block.take(n - 1));
    assert(b.last() == block[n - 1]);
    lemma_top_not_blank(block[0]);
    if n > 1 {
        lemma_stops_of_block(block, collapsed, hide_done, n - 1);
        let l = block[n - 1];
        assert(under(l));
        if heading(l) {
            lemma_heading_not_blank(l);
        }
        if is_top(l) {
            lemma_top_not_blank(l);
        }
    } else {
        assert(block.take(0) =~= Seq::empty());
        assert(stop_lines(block.take(0), collapsed, hide_done, false) =~= Seq::empty());
        assert(stop_lines(b, collapsed, hide_done, false) =~= seq![block[0]]);
    }
}

// ---------------------------------------------------------------------------------
// Neighbours

/// Two entries next to each other that are tasks, the first at `k`: their blocks, with
/// nothing to select between them.
pub proof fn lemma_neighbours(s: State, k: int)
    requires
        0 <= k,
        k + 1 < entries_of(s).len(),
        entries_of(s)[k] is Task,
        entries_of(s)[k + 1] is Task,
    ensures
        ({
            let a = entries_of(s)[k]->Task_0;
            let b = entries_of(s)[k + 1]->Task_0;
            let between = s.lines.subrange(a.start + a.len, b.start);
            &&& is_block(s.lines, a.start, a.start + a.len)
            &&& is_block(s.lines, b.start, b.start + b.len)
            &&& a.start + a.len <= b.start
            &&& shows_task(s, a.start)
            &&& shows_task(s, b.start)
            &&& stop_lines(s.lines.take(a.start), s.collapsed, s.hide_done, false).len() == k
            &&& !inside_after(s.lines.take(a.start), s.collapsed, false)
            &&& !inside_after(between, s.collapsed, false)
            &&& stop_lines(between, s.collapsed, s.hide_done, false).len() == 0
        }),
{
    let n = s.lines.len() as int;
    lemma_entries(s, n);
    let ea = entries_of(s)[k];
    let eb = entries_of(s)[k + 1];
    let a = ea->Task_0;
    let b = eb->Task_0;
    assert(entry_at(s, entry_line(ea)) == Some(ea));
    assert(entry_at(s, entry_line(eb)) == Some(eb));
    assert(entry_line(ea) < entry_line(eb));
    lemma_block_end(s.lines, a.start);
    lemma_block_end(s.lines, b.start);
    lemma_items_apart(s.lines, a.start, b.start);
    lemma_before_entry(s, k);
    lemma_before_entry(s, k + 1);
    lemma_inside(s, a.start);
    lemma_inside(s, b.start);
    lemma_stop_lines(s, a.start);
    lemma_stop_lines(s, b.start);
    let x = s.lines.take(a.start);
    let own = own_block(s.lines, a);
    let between = s.lines.subrange(a.start + a.len, b.start);
    assert(s.lines.take(b.start) =~= x + (own + between));
    lemma_stops_concat(x, own + between, s.collapsed, s.hide_done, false);
    lemma_stops_concat(own, between, s.collapsed, s.hide_done, false);
    assert forall|i: int| 0 < i < own.len() implies under(#[trigger] own[i]) by {
        assert(own[i] == s.lines[a.start + i]);
    }
    assert(own.take(own.len() as int) =~= own);
    lemma_stops_of_block(own, s.collapsed, s.hide_done, own.len() as int);
    let so_far = stop_lines(x, s.collapsed, s.hide_done, false);
    let one = stop_lines(own, s.collapsed, s.hide_done, false);
    let none = stop_lines(between, s.collapsed, s.hide_done, false);
    assert(one.len() == 1);
    assert(stop_lines(s.lines.take(b.start), s.collapsed, s.hide_done, false) == so_far + (one
        + none));
    assert(entries_upto(s, b.start).len() == k + 1);
    assert((so_far + (one + none)).len() == k + 1);
    assert(so_far.len() + one.len() + none.len() == k + 1);
}

/// Before an entry there are as many entries as its position says.
proof fn lemma_before_entry(s: State, k: int)
    requires
        0 <= k < entries_of(s).len(),
    ensures
        entries_upto(s, entry_line(entries_of(s)[k])).len() == k,
{
    let n = s.lines.len() as int;
    lemma_entries(s, n);
    let e = entries_of(s)[k];
    let i = entry_line(e);
    assert(entry_at(s, i) == Some(e));
    lemma_entry_place(s, i, n);
    let c = entries_upto(s, i).len() as int;
    if c < k {
        assert(entry_line(entries_of(s)[c]) < entry_line(entries_of(s)[k]));
    } else if c > k {
        assert(entry_line(entries_of(s)[k]) < entry_line(entries_of(s)[c]));
    }
}

/// Behind lines with so many entries, a line that can be selected is the entry with that
/// number; what stands before it and behind it, as far as it is not blank.
pub proof fn lemma_entry_by_count(
    t: State,
    x: Seq<Seq<char>>,
    l: Seq<char>,
    y: Seq<Seq<char>>,
    c: int,
)
    requires
        solid(t.lines) == x.push(l) + y,
        selectable(l, t.collapsed, t.hide_done, inside_after(x, t.collapsed, false)),
        stop_lines(x, t.collapsed, t.hide_done, false).len() == c,
    ensures
        c < entries_of(t).len(),
        ({
            let e = entry_line(entries_of(t)[c]);
            &&& 0 <= e < t.lines.len()
            &&& t.lines[e] == l
            &&& solid(t.lines.take(e)) == x
            &&& solid(t.lines.skip(e)) == seq![l] + y
        }),
{
    let (co, hd) = (t.collapsed, t.hide_done);
    let all = solid(t.lines);
    lemma_entry_lines(t);
    lemma_stops_of_solid(t.lines, co, hd, false);
    lemma_stops_concat(x.push(l), y, co, hd, false);
    assert(x.push(l).drop_last() =~= x);
    assert(stop_lines(x.push(l), co, hd, false).len() == c + 1);
    assert(entry_lines(t).len() == entries_of(t).len());
    assert(stop_lines(all, co, hd, false).len() >= c + 1);
    let n = t.lines.len() as int;
    lemma_entries(t, n);
    let e = entry_line(entries_of(t)[c]);
    assert(entry_at(t, e) == Some(entries_of(t)[c]));
    lemma_before_entry(t, c);
    lemma_stop_lines(t, e);
    lemma_inside(t, e);
    let front = t.lines.take(e);
    let a = solid(front);
    let m = t.lines[e];
    lemma_stops_of_solid(front, co, hd, false);
    if heading(m) {
        lemma_heading_not_blank(m);
    } else {
        lemma_top_not_blank(m);
    }
    assert(t.lines =~= front.push(m) + t.lines.skip(e + 1));
    lemma_solid_concat(front.push(m), t.lines.skip(e + 1));
    assert(front.push(m).drop_last() =~= front);
    let b = solid(t.lines.skip(e + 1));
    assert(all == a.push(m) + b);
    assert(a.push(m).drop_last() =~= a);
    assert(stop_lines(a.push(m), co, hd, false).len() == c + 1);
    if a.len() < x.len() {
        let more = x.skip(a.len() as int + 1);
        assert(x =~= a.push(m) + more) by {
            assert forall|i: int| 0 <= i < x.len() implies x[i] == (a.push(m) + more)[i] by {
                assert(all[i] == x[i]);
                if i <= a.len() {
                    assert(all[i] == a.push(m)[i]);
                }
            }
        }
        lemma_stops_concat(a.push(m), more, co, hd, false);
    } else if x.len() < a.len() {
        let more = a.skip(x.len() as int + 1);
        assert(a =~= x.push(l) + more) by {
            assert forall|i: int| 0 <= i < a.len() implies a[i] == (x.push(l) + more)[i] by {
                assert(all[i] == a[i]);
                if i <= x.len() {
                    assert(all[i] == x.push(l)[i]);
                }
            }
        }
        lemma_stops_concat(x.push(l), more, co, hd, false);
    }
    assert(a.len() == x.len());
    assert(all[a.len() as int] == m);
    assert(all[x.len() as int] == l);
    assert(a =~= all.take(a.len() as int));
    assert(x =~= all.take(a.len() as int));
    assert(b =~= all.skip(a.len() as int + 1));
    assert(y =~= all.skip(a.len() as int + 1));
    assert(t.lines.skip(e) =~= seq![m] + t.lines.skip(e + 1));
    lemma_solid_concat(seq![m], t.lines.skip(e + 1));
    let none = Seq::<Seq<char>>::empty();
    assert(seq![m] =~= none.push(m));
    lemma_solid_push(none, m);
    assert(solid(none) =~= none);
}

/// What stands before a shown task: as many entries as the cursor says, and no open collapsed
/// section.
pub proof fn lemma_before_task(s: State, k: int, it: ItemModel)
    requires
        0 <= k < entries_of(s).len(),
        entries_of(s)[k] == EntryModel::Task(it),
    ensures
        ({
            let x = s.lines.take(it.start);
            &&& 0 <= it.start < s.lines.len()
            &&& stop_lines(solid(x), s.collapsed, s.hide_done, false).len() == k
            &&& !inside_after(solid(x), s.collapsed, false)
            &&& selectable(s.lines[it.start], s.collapsed, s.hide_done, false)
        }),
{
    let n = s.lines.len() as int;
    lemma_entries(s, n);
    let e = entries_of(s)[k];
    assert(entry_at(s, entry_line(e)) == Some(e));
    lemma_before_entry(s, k);
    lemma_stop_lines(s, it.start);
    lemma_inside(s, it.start);
    lemma_stops_of_solid(s.lines.take(it.start), s.collapsed, s.hide_done, false);
}

/// The entry lines of a state whose lines are `x`, a block, `y`, a block, and `z`, where
/// there is nothing to select in `y`: that of the second block comes right behind that of
/// the first.
proof fn lemma_entry_lines_of(
    s: State,
    x: Seq<Seq<char>>,
    first: Seq<Seq<char>>,
    y: Seq<Seq<char>>,
    second: Seq<Seq<char>>,
    z: Seq<Seq<char>>,
)
    requires
        solid(s.lines) == solid(x) + solid(first) + solid(y) + solid(second) + solid(z),
        !inside_after(x, s.collapsed, false),
        !inside_after(first, s.collapsed, false),
        !inside_after(y, s.collapsed, false),
        stop_lines(first, s.collapsed, s.hide_done, false).len() <= 1,
        stop_lines(y, s.collapsed, s.hide_done, false).len() <= 1,
        stop_lines(second, s.collapsed, s.hide_done, false).len() <= 1,
    ensures
        entry_lines(s) == stop_lines(x, s.collapsed, s.hide_done, false) + stop_lines(
            first,
            s.collapsed,
            s.hide_done,
            false,
        ) + stop_lines(y, s.collapsed, s.hide_done, false) + stop_lines(
            second,
            s.collapsed,
            s.hide_done,
            false,
        ) + stop_lines(z, s.collapsed, s.hide_done, inside_after(second, s.collapsed, false)),
{
    let c = s.collapsed;
    let hd = s.hide_done;
    let (a1, b1, c1, d1, e1) = (solid(x), solid(first), solid(y), solid(second), solid(z));
    lemma_entry_lines(s);
    lemma_stops_of_solid(s.lines, c, hd, false);
    lemma_stops_of_solid(x, c, hd, false);
    lemma_stops_of_solid(first, c, hd, false);
    lemma_stops_of_solid(y, c, hd, false);
    lemma_stops_of_solid(second, c, hd, false);
    lemma_stops_of_solid(z, c, hd, inside_after(second, c, false));
    lemma_stops_concat(a1 + b1 + c1 + d1, e1, c, hd, false);
    lemma_stops_concat(a1 + b1 + c1, d1, c, hd, false);
    lemma_stops_concat(a1 + b1, c1, c, hd, false);
    lemma_stops_concat(a1, b1, c, hd, false);
}

/// Moving a task down sets its block right behind that of the next task, and the cursor
/// stays on it. Nothing else changes.
pub proof fn law_move_down(s: State)
    requires
        reorder_pair(s, 1) is Some,
    ensures
        ({
            let (cur, tgt) = reorder_pair(s, 1)->0;
            let t = reordered(s, 1);
            &&& solid(t.lines) == solid(s.lines.take(cur.start)) + solid(
                s.lines.subrange(cur.start + cur.len, tgt.start),
            ) + solid(own_block(s.lines, tgt)) + solid(own_block(s.lines, cur)) + solid(
                s.lines.skip(tgt.start + tgt.len),
            )
            &&& t.cursor < entry_lines(t).len()
            &&& entry_lines(t)[t.cursor] == s.lines[cur.start]
        }),
{
    let (cur, tgt) = reorder_pair(s, 1)->0;
    let t = reordered(s, 1);
    lemma_neighbours(s, s.cursor);
    let (st, en) = (cur.start, cur.start + cur.len);
    let dest = tgt.start + tgt.len;
    let x = s.lines.take(st);
    let mid = s.lines.subrange(en, tgt.start);
    let a = own_block(s.lines, cur);
    let b = own_block(s.lines, tgt);
    let z = s.lines.skip(dest);
    assert(moved(s.lines, st, cur.len, dest) =~= x + mid + b + a + z);
    law_tidy_keeps_lines(x + mid + b + a + z);
    lemma_solid_concat(x + mid + b + a, z);
    lemma_solid_concat(x + mid + b, a);
    lemma_solid_concat(x + mid, b);
    lemma_solid_concat(x, mid);
    lemma_own_stops(s, cur);
    lemma_own_stops(s, tgt);
    lemma_entry_lines_of(t, x, mid, b, a, z);
    assert(entry_lines(t)[s.cursor + 1] == s.lines[st]);
}

/// Moving a task up sets its block right before that of the task above it, and the cursor
/// stays on it. Nothing else changes.
pub proof fn law_move_up(s: State)
    requires
        reorder_pair(s, -1) is Some,
    ensures
        ({
            let (cur, tgt) = reorder_pair(s, -1)->0;
            let t = reordered(s, -1);
            &&& solid(t.lines) == solid(s.lines.take(tgt.start)) + solid(own_block(s.lines, cur))
                + solid(own_block(s.lines, tgt)) + solid(
                s.lines.subrange(tgt.start + tgt.len, cur.start),
            ) + solid(s.lines.skip(cur.start + cur.len))
            &&& t.cursor < entry_lines(t).len()
            &&& entry_lines(t)[t.cursor] == s.lines[cur.start]
        }),
{
    let (cur, tgt) = reorder_pair(s, -1)->0;
    let t = reordered(s, -1);
    lemma_neighbours(s, s.cursor - 1);
    let (st, en) = (cur.start, cur.start + cur.len);
    let dest = tgt.start;
    let x = s.lines.take(dest);
    let mid = s.lines.subrange(tgt.start + tgt.len, st);
    let a = own_block(s.lines, cur);
    let b = own_block(s.lines, tgt);
    let z = s.lines.skip(en);
    assert(moved(s.lines, st, cur.len, dest) =~= x + a + b + mid + z);
    law_tidy_keeps_lines(x + a + b + mid + z);
    lemma_solid_concat(x + a + b + mid, z);
    lemma_solid_concat(x + a + b, mid);
    lemma_solid_concat(x + a, b);
    lemma_solid_concat(x, a);
    lemma_own_stops(s, cur);
    lemma_own_stops(s, tgt);
    lemma_entry_lines_of(t, x, a, b, mid, z);
    assert(entry_lines(t)[s.cursor - 1] == s.lines[st]);
}

proof fn lemma_own_stops(s: State, it: ItemModel)
    requires
        is_block(s.lines, it.start, it.start + it.len),
        shows_task(s, it.start),
    ensures
        stop_lines(own_block(s.lines, it), s.collapsed, s.hide_done, false) == seq![
            s.lines[it.start],
        ],
        !inside_after(own_block(s.lines, it), s.collapsed, false),
{
    let own = own_block(s.lines, it);
    assert forall|i: int| 0 < i < own.len() implies under(#[trigger] own[i]) by {
        assert(own[i] == s.lines[it.start + i]);
    }
    lemma_stops_of_block(own, s.collapsed, s.hide_done, own.len() as int);
    assert(own.take(own.len() as int) =~= own);
}

} // verus!
