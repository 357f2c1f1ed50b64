//! New tasks and subtasks, deletions, and checked subtasks.
use crate::app::{
    entries_of, entries_upto, entry_at, entry_line, in_collapsed, item_under, lemma_entries,
    lemma_item_under, lemma_tasks_in, line_under, remembered, shows_task, subs_of, tasks_in,
    EntryModel, State,
};
use crate::blocks::{lemma_next_stop, lemma_with_mark};
use crate::laws::moves::{ends_top, lemma_solid_all, lemma_solid_first, lemma_solid_last, own_block};
use crate::laws::selection::lemma_entry_place;
use crate::laws::tidy::{
    law_tidy_keeps_lines, lemma_solid_blank, lemma_solid_concat, lemma_solid_from, lemma_solid_push,
    solid,
};
use crate::lines::without;
use crate::outline::{
    block_end, item_at, lemma_block_end, lemma_heading_not_blank, lemma_top_not_blank, next_stop,
    tidied, top_end, under, ItemModel,
};
use crate::prompt::{
    added, deleted, lemma_entries_same, new_sub, new_task, place_from, sub_added, sub_place,
    task_above,
};
use crate::search::{
    back_from, first_from, lemma_back_from, lemma_back_from_is, lemma_first_from,
    lemma_first_from_is,
};
use crate::task::{ends_todo, heading, is_done, is_task, is_top, with_mark};
use crate::text::{is_blank, is_space};
use crate::toggle::{at_lines, put_at, sub_selected, sub_toggled};
use vstd::prelude::*;

verus! {

// ---------------------------------------------------------------------------------
// New tasks

pub proof fn lemma_new_task(text: Seq<char>)
    ensures
        is_top(new_task(text)),
        !is_done(new_task(text)),
        !is_blank(new_task(text)),
        !heading(new_task(text)),
        !ends_todo(new_task(text)),
{
    reveal_strlit("- [ ] ");
    let l = new_task(text);
    lemma_first_from_is(l, 0, |c: char| !is_space(c), 0);
    lemma_top_not_blank(l);
}

/// Two ways of taking a list apart where Todo ends are one.
pub proof fn lemma_one_cut(
    a: Seq<Seq<char>>,
    b: Seq<Seq<char>>,
    c: Seq<Seq<char>>,
    d: Seq<Seq<char>>,
)
    requires
        a + b == c + d,
        ends_top(a, b),
        ends_top(c, d),
    ensures
        a == c,
        b == d,
{
    let all = a + b;
    assert(all.len() == c.len() + d.len());
    if a.len() < c.len() {
        assert(all[a.len() as int] == b[0]);
        assert(all[a.len() as int] == c[a.len() as int]);
    } else if c.len() < a.len() {
        assert(all[c.len() as int] == d[0]);
        assert(all[c.len() as int] == a[c.len() as int]);
    }
    assert(a =~= all.take(a.len() as int));
    assert(c =~= all.take(a.len() as int));
    assert(b =~= all.skip(a.len() as int));
    assert(d =~= all.skip(a.len() as int));
}

/// The lines that are not blank before Todo ends and from there on.
proof fn lemma_cut_at_section(lines: Seq<Seq<char>>)
    ensures
        ({
            let n = next_stop(lines, 0);
            &&& solid(lines) == solid(lines.take(n)) + solid(lines.skip(n))
            &&& ends_top(solid(lines.take(n)), solid(lines.skip(n)))
        }),
{
    let n = next_stop(lines, 0);
    let sec = |l: Seq<char>| ends_todo(l);
    let none = |l: Seq<char>| !ends_todo(l);
    lemma_first_from(lines, 0, sec);
    let a = lines.take(n);
    let b = lines.skip(n);
    assert(lines =~= a + b);
    lemma_solid_concat(a, b);
    assert forall|i: int| 0 <= i < a.len() implies none(#[trigger] a[i]) by {
        assert(!sec(lines[i]));
    }
    lemma_solid_all(a, none);
    assert forall|i: int| 0 <= i < solid(a).len() implies !ends_todo(#[trigger] solid(a)[i]) by {
        assert(none(solid(a)[i]));
    }
    if n < lines.len() {
        lemma_heading_not_blank(lines[n]);
    }
    lemma_solid_first(b, 0);
}

/// A line put at the end of Todo.
pub proof fn lemma_put_at_top_end(lines: Seq<Seq<char>>, l: Seq<char>)
    requires
        !is_blank(l),
        !ends_todo(l),
    ensures
        ({
            let d = top_end(lines);
            let t = tidied(lines.insert(d, l));
            let a = solid(lines.take(d));
            let c = solid(lines.skip(d));
            &&& 0 <= d <= lines.len()
            &&& solid(t) == a.push(l) + c
            &&& ends_top(a, c)
            &&& a + c == solid(lines)
            &&& ends_top(a.push(l), c)
        }),
{
    let n = next_stop(lines, 0);
    let d = top_end(lines);
    let q = |l: Seq<char>| !is_blank(l);
    lemma_next_stop(lines, 0);
    lemma_back_from(lines, n, q);
    lemma_cut_at_section(lines);
    let x = lines.take(d);
    let z = lines.skip(d);
    let gap = lines.subrange(d, n);
    assert(lines.take(n) =~= x + gap);
    assert(z =~= gap + lines.skip(n));
    assert forall|i: int| 0 <= i < gap.len() implies is_blank(#[trigger] gap[i]) by {
        assert(!q(lines[d + i]));
    }
    lemma_solid_blank(gap);
    lemma_solid_concat(x, gap);
    lemma_solid_concat(gap, lines.skip(n));
    assert(solid(x) + solid(gap) =~= solid(x));
    assert(solid(gap) + solid(lines.skip(n)) =~= solid(lines.skip(n)));
    assert(lines.insert(d, l) =~= x.push(l) + z);
    law_tidy_keeps_lines(lines.insert(d, l));
    lemma_solid_concat(x.push(l), z);
    lemma_solid_push(x, l);
    let a = solid(x).push(l);
    assert forall|i: int| 0 <= i < a.len() implies !ends_todo(#[trigger] a[i]) by {
        if i < solid(x).len() {
            assert(a[i] == solid(x)[i]);
        }
    }
}

/// A new task stands at the end of Todo: behind all else before the first heading that ends
/// it. Nothing else changes.
pub proof fn law_new_task_at_end_of_todo(s: State, text: Seq<char>)
    ensures
        exists|a: Seq<Seq<char>>, c: Seq<Seq<char>>|
            {
                &&& solid(added(s, text).lines) == #[trigger] (a.push(new_task(text)) + c)
                &&& ends_top(a, c)
                &&& a + c == solid(s.lines)
            },
{
    lemma_new_task(text);
    lemma_put_at_top_end(s.lines, new_task(text));
    let d = top_end(s.lines);
    let a = solid(s.lines.take(d));
    let c = solid(s.lines.skip(d));
    assert(solid(added(s, text).lines) == a.push(new_task(text)) + c);
}

/// The last line of Todo that is not blank.
pub proof fn lemma_last_before_section(lines: Seq<Seq<char>>, a: Seq<Seq<char>>, c: Seq<Seq<char>>)
    requires
        solid(lines) == a + c,
        ends_top(a, c),
        a.len() > 0,
    ensures
        0 < top_end(lines) <= next_stop(lines, 0),
        next_stop(lines, 0) <= lines.len(),
        lines[top_end(lines) - 1] == a.last(),
{
    let n = next_stop(lines, 0);
    let e = top_end(lines);
    let q = |l: Seq<char>| !is_blank(l);
    lemma_next_stop(lines, 0);
    lemma_cut_at_section(lines);
    lemma_back_from(lines, n, q);
    let x = lines.take(n);
    lemma_one_cut(solid(x), solid(lines.skip(n)), a, c);
    lemma_solid_from(x, a.len() - 1);
    if e == 0 {
        assert forall|i: int| 0 <= i < x.len() implies is_blank(#[trigger] x[i]) by {
            assert(!q(lines[i]));
        }
        lemma_solid_blank(x);
    }
    assert forall|i: int| e - 1 < i < x.len() implies is_blank(#[trigger] x[i]) by {
        assert(!q(lines[i]));
    }
    assert(x[e - 1] == lines[e - 1]);
    lemma_solid_last(x, e - 1);
}

/// The cursor is on a new task.
pub proof fn law_new_task_is_selected(s: State, text: Seq<char>)
    ensures
        item_under(added(s, text)) matches Some(it) && added(s, text).lines[it.start] == new_task(
            text,
        ) && it.start + 1 == top_end(added(s, text).lines),
        added(s, text).sub is None,
{
    let l = new_task(text);
    let t = added(s, text);
    let lines = t.lines;
    let now = State { lines, sub: None, ..remembered(s) };
    let n = next_stop(lines, 0);
    let e = top_end(lines);
    let i = e - 1;
    lemma_new_task(text);
    lemma_put_at_top_end(s.lines, l);
    let a = solid(s.lines.take(top_end(s.lines))).push(l);
    lemma_last_before_section(lines, a, solid(s.lines.skip(top_end(s.lines))));
    assert(lines[i] == l);
    // No collapsed section is open there.
    let h = |l: Seq<char>| heading(l);
    let sec = |l: Seq<char>| ends_todo(l);
    lemma_back_from(lines, i, h);
    lemma_first_from(lines, 0, sec);
    let p = back_from(lines, i, h);
    if p > 0 {
        assert(!sec(lines[p - 1]));
    }
    assert(!in_collapsed(now, i));
    assert(entry_at(now, i) == Some(EntryModel::Task(item_at(lines, i))));
    let entries = entries_of(now);
    let all = lines.len() as int;
    lemma_entries(now, all);
    lemma_entry_place(now, i, all);
    let c = entries_upto(now, i).len() as int;
    let above = |x: EntryModel| task_above(x, e);
    assert forall|j: int| c + 1 <= j < entries.len() implies !above(#[trigger] entries[j]) by {
        assert(entry_line(entries[c]) < entry_line(entries[j]));
    }
    assert(above(entries[c]));
    lemma_back_from_is(entries, entries.len() as int, above, c + 1);
    lemma_entries_same(now, t, all);
}

// ---------------------------------------------------------------------------------
// New subtasks

pub proof fn lemma_new_sub(text: Seq<char>)
    ensures
        is_task(new_sub(text)),
        !is_done(new_sub(text)),
        !is_blank(new_sub(text)),
        under(new_sub(text)),
{
    reveal_strlit("  - [ ] ");
    let l = new_sub(text);
    lemma_first_from_is(l, 0, |c: char| !is_space(c), 2);
    assert(!is_space(l[2]));
}

/// Every task of the range is found.
pub proof fn lemma_tasks_complete(lines: Seq<Seq<char>>, from: int, to: int, i: int)
    requires
        from <= i < to,
        is_task(lines[i]),
    ensures
        tasks_in(lines, from, to).contains(i),
    decreases to - from,
{
    if i < to - 1 {
        lemma_tasks_complete(lines, from, to - 1, i);
        let a = tasks_in(lines, from, to - 1);
        let k = choose|k: int| 0 <= k < a.len() && a[k] == i;
        assert(tasks_in(lines, from, to)[k] == i);
    } else {
        let a = tasks_in(lines, from, to);
        assert(a[a.len() - 1] == i);
    }
}

proof fn lemma_place_among(at: Seq<int>, line: int, i: int)
    requires
        0 <= i,
        exists|k: int| i <= k < at.len() && at[k] == line,
    ensures
        place_from(at, line, i) matches Some(k) && 0 <= k < at.len() && at[k] == line,
    decreases at.len() - i,
{
    if at[i] != line {
        lemma_place_among(at, line, i + 1);
    }
}

/// The place of a new subtask is in the task's block, and every subtask from there on is
/// done.
pub proof fn lemma_sub_place(lines: Seq<Seq<char>>, it: ItemModel)
    requires
        0 <= it.start < it.start + it.len <= lines.len(),
    ensures
        it.start < sub_place(lines, it) <= it.start + it.len,
        forall|i: int|
            sub_place(lines, it) <= i < it.start + it.len && is_task(#[trigger] lines[i])
                ==> is_done(lines[i]),
{
    let from = it.start + 1;
    let to = it.start + it.len;
    let subs = subs_of(lines, it);
    let open = |i: int| !is_done(lines[i]);
    lemma_tasks_in(lines, from, to);
    lemma_back_from(subs, subs.len() as int, open);
    let p = back_from(subs, subs.len() as int, open);
    let place = sub_place(lines, it);
    assert forall|i: int| place <= i < to && is_task(#[trigger] lines[i]) implies is_done(
        lines[i],
    ) by {
        lemma_tasks_complete(lines, from, to, i);
        let k = choose|k: int| 0 <= k < subs.len() && subs[k] == i;
        if k < p {
            if k < p - 1 {
                assert(subs[k] < subs[p - 1]);
            }
        } else {
            assert(!open(subs[k]));
        }
    }
}

/// Lines that are the same up to `n` have the same number of entries up to there.
proof fn lemma_entries_before(s: State, t: State, n: int)
    requires
        0 <= n <= s.lines.len(),
        n <= t.lines.len(),
        s.collapsed == t.collapsed,
        s.hide_done == t.hide_done,
        forall|i: int| 0 <= i < n ==> s.lines[i] == t.lines[i],
    ensures
        entries_upto(s, n).len() == entries_upto(t, n).len(),
        in_collapsed(s, n) == in_collapsed(t, n),
    decreases n,
{
    let h = |l: Seq<char>| heading(l);
    lemma_back_same(s.lines, t.lines, n, h);
    lemma_back_from(s.lines, n, h);
    if n > 0 {
        lemma_entries_before(s, t, n - 1);
    }
}

proof fn lemma_back_same(
    a: Seq<Seq<char>>,
    b: Seq<Seq<char>>,
    n: int,
    p: spec_fn(Seq<char>) -> bool,
)
    requires
        n <= a.len(),
        n <= b.len(),
        forall|i: int| 0 <= i < n ==> a[i] == b[i],
    ensures
        back_from(a, n, p) == back_from(b, n, p),
    decreases n,
{
    if n > 0 {
        lemma_back_same(a, b, n - 1, p);
    }
}

/// The entry under the cursor, and where it stands.
pub proof fn lemma_cursor_place(s: State)
    ensures
        item_under(s) matches Some(it) ==> {
            &&& 0 <= it.start < s.lines.len()
            &&& entry_at(s, it.start) == Some(EntryModel::Task(it))
            &&& entries_upto(s, it.start).len() == s.cursor
        },
{
    let n = s.lines.len() as int;
    lemma_entries(s, n);
    if let Some(it) = item_under(s) {
        let e = EntryModel::Task(it);
        assert(entries_of(s)[s.cursor] == e);
        assert(entry_at(s, entry_line(e)) == Some(e));
        lemma_entry_place(s, it.start, n);
        let c = entries_upto(s, it.start).len() as int;
        if c < s.cursor {
            assert(entry_line(entries_of(s)[c]) < entry_line(entries_of(s)[s.cursor]));
        } else if c > s.cursor {
            assert(entry_line(entries_of(s)[s.cursor]) < entry_line(entries_of(s)[c]));
        }
    }
}

/// A new subtask is put into the block of the task under the cursor, behind its open
/// subtasks, so that only done ones follow it, and it is selected. Nothing else changes.
pub proof fn law_new_sub_before_done_ones(s: State, text: Seq<char>)
    requires
        item_under(s) is Some,
    ensures
        ({
            let it = item_under(s)->0;
            let place = sub_place(s.lines, it);
            let t = sub_added(s, text);
            &&& it.start < place <= it.start + it.len
            &&& t.lines == s.lines.insert(place, new_sub(text))
            &&& line_under(t) == Some(place)
            &&& forall|i: int|
                place <= i < it.start + it.len && is_task(#[trigger] s.lines[i]) ==> is_done(
                    s.lines[i],
                )
        }),
{
    lemma_item_under(s);
    lemma_cursor_place(s);
    lemma_new_sub(text);
    let it = item_under(s)->0;
    let i = it.start;
    let place = sub_place(s.lines, it);
    lemma_sub_place(s.lines, it);
    let l = new_sub(text);
    let lines = s.lines.insert(place, l);
    let now = State { lines, ..remembered(s) };
    let t = sub_added(s, text);
    let all = lines.len() as int;
    // The task is still the one under the cursor.
    lemma_entries_before(s, now, i);
    assert(lines[i] == s.lines[i]);
    assert(shows_task(now, i));
    lemma_top_not_blank(lines[i]);
    let grown = item_at(lines, i);
    assert(entry_at(now, i) == Some(EntryModel::Task(grown)));
    lemma_entry_place(now, i, all);
    assert(item_under(now) == Some(grown));
    // Its block takes the new line in.
    lemma_block_end(s.lines, i);
    lemma_block_end(lines, i);
    let out = |l: Seq<char>| !under(l);
    let q = |l: Seq<char>| !is_blank(l);
    lemma_first_from(lines, i + 1, out);
    let run = first_from(lines, i + 1, out);
    if run <= place {
        assert(out(lines[run]));
        if run < place {
            assert(lines[run] == s.lines[run]);
            assert(under(s.lines[run]));
        }
    }
    lemma_back_from(lines, run, q);
    if block_end(lines, i) <= place {
        assert(!q(lines[place]));
    }
    lemma_tasks_complete(lines, i + 1, i + grown.len, place);
    let subs = subs_of(lines, grown);
    let k = choose|k: int| 0 <= k < subs.len() && subs[k] == place;
    assert(0 <= k < subs.len() && subs[k] == place);
    lemma_place_among(subs, place, 0);
    lemma_entries_same(now, t, all);
}

/// The task to which a subtask was added is still the one under the cursor.
pub proof fn lemma_sub_added_item(s: State, text: Seq<char>)
    requires
        item_under(s) is Some,
    ensures
        item_under(sub_added(s, text)) matches Some(grown) && grown.start == item_under(s)->0.start,
{
    lemma_item_under(s);
    lemma_cursor_place(s);
    lemma_new_sub(text);
    let it = item_under(s)->0;
    let i = it.start;
    lemma_sub_place(s.lines, it);
    let lines = s.lines.insert(sub_place(s.lines, it), new_sub(text));
    let now = State { lines, ..remembered(s) };
    let all = lines.len() as int;
    lemma_entries_before(s, now, i);
    assert(lines[i] == s.lines[i]);
    lemma_top_not_blank(lines[i]);
    let grown = item_at(lines, i);
    assert(entry_at(now, i) == Some(EntryModel::Task(grown)));
    lemma_entry_place(now, i, all);
    assert(item_under(now) == Some(grown));
    lemma_entries_same(now, sub_added(s, text), all);
}

// ---------------------------------------------------------------------------------
// Deletions

/// Deleting a task takes it out with its block; nothing else changes.
pub proof fn law_delete_takes_block(s: State)
    requires
        item_under(s) is Some,
        s.sub is None,
    ensures
        ({
            let it = item_under(s)->0;
            &&& solid(deleted(s).lines) == solid(s.lines.take(it.start)) + solid(
                s.lines.skip(it.start + it.len),
            )
            &&& solid(s.lines) == solid(s.lines.take(it.start)) + solid(own_block(s.lines, it))
                + solid(s.lines.skip(it.start + it.len))
        }),
{
    lemma_item_under(s);
    let it = item_under(s)->0;
    let a = s.lines.take(it.start);
    let b = own_block(s.lines, it);
    let c = s.lines.skip(it.start + it.len);
    law_tidy_keeps_lines(without(s.lines, it.start, it.start + it.len));
    lemma_solid_concat(a, c);
    assert(s.lines =~= a + b + c);
    lemma_solid_concat(a + b, c);
    lemma_solid_concat(a, b);
}

// ---------------------------------------------------------------------------------
// Checked subtasks

pub proof fn lemma_put_at(
    lines: Seq<Seq<char>>,
    at: Seq<int>,
    contents: Seq<Seq<char>>,
    n: int,
)
    requires
        0 <= n <= at.len(),
        forall|i: int| 0 <= i < at.len() ==> 0 <= #[trigger] at[i] < lines.len(),
        forall|j: int, k: int| 0 <= j < k < at.len() ==> #[trigger] at[j] < #[trigger] at[k],
    ensures
        put_at(lines, at, contents, n).len() == lines.len(),
        forall|j: int| 0 <= j < n ==> put_at(lines, at, contents, n)[#[trigger] at[j]]
            == contents[j],
        forall|i: int|
            0 <= i < lines.len() && (forall|j: int| 0 <= j < n ==> at[j] != i)
                ==> #[trigger] put_at(lines, at, contents, n)[i] == lines[i],
    decreases n,
{
    if n > 0 {
        lemma_put_at(lines, at, contents, n - 1);
        let a = put_at(lines, at, contents, n - 1);
        let b = put_at(lines, at, contents, n);
        assert forall|j: int| 0 <= j < n implies b[#[trigger] at[j]] == contents[j] by {
            if j < n - 1 {
                assert(at[j] < at[n - 1]);
            }
        }
        assert forall|i: int|
            0 <= i < lines.len() && (forall|j: int| 0 <= j < n ==> at[j] != i)
                implies #[trigger] b[i] == lines[i] by {
            assert(at[n - 1] != i);
            assert(a[i] == lines[i]);
        }
    }
}

/// Where an element that is kept stands among those that are.
proof fn lemma_filter_place<A>(s: Seq<A>, p: spec_fn(A) -> bool, k: int)
    requires
        0 <= k < s.len(),
        p(s[k]),
    ensures
        s.take(k).filter(p).len() < s.filter(p).len(),
        s.filter(p)[s.take(k).filter(p).len() as int] == s[k],
{
    let a = s.take(k);
    let one = seq![s[k]];
    let b = s.skip(k + 1);
    assert(s =~= a + (one + b));
    Seq::filter_distributes_over_add(a, one + b, p);
    Seq::filter_distributes_over_add(one, b, p);
    reveal(Seq::filter);
    assert(one.drop_last() =~= Seq::empty());
    assert(one.filter(p) =~= one);
}

/// What is kept and what is not make up the whole.
pub proof fn lemma_filter_halves<A>(s: Seq<A>, p: spec_fn(A) -> bool, q: spec_fn(A) -> bool)
    requires
        forall|x: A| #[trigger] p(x) == !q(x),
    ensures
        s.filter(p).len() + s.filter(q).len() == s.len(),
        (s.filter(p) + s.filter(q)).to_multiset() == s.to_multiset(),
    decreases s.len(),
{
    reveal(Seq::filter);
    let f = s.filter(p);
    let g = s.filter(q);
    vstd::seq_lib::lemma_multiset_commutative(f, g);
    if s.len() > 0 {
        let rest = s.drop_last();
        let x = s.last();
        lemma_filter_halves(rest, p, q);
        vstd::seq_lib::lemma_multiset_commutative(rest.filter(p), rest.filter(q));
        assert(s =~= rest.push(x));
        broadcast use vstd::seq_lib::group_to_multiset_ensures;

        if p(x) {
            assert(f =~= rest.filter(p).push(x));
            assert(f.to_multiset().add(g.to_multiset()) =~= s.to_multiset());
        } else {
            assert(g =~= rest.filter(q).push(x));
            assert(f.to_multiset().add(g.to_multiset()) =~= s.to_multiset());
        }
    } else {
        assert(f + g =~= s);
    }
}

/// Checking or opening a subtask changes its box and nothing else but the order of the
/// subtasks: they stay in their task's block, in the places that subtasks had, those done
/// below those still open. The subtask stays selected.
pub proof fn law_sub_sinks_in_its_block(s: State)
    requires
        sub_selected(s),
    ensures
        ({
            let it = item_under(s)->0;
            let subs = subs_of(s.lines, it);
            let k = s.sub->0;
            let l = with_mark(s.lines[subs[k]], !is_done(s.lines[subs[k]]));
            let t = sub_toggled(s);
            &&& t.lines.len() == s.lines.len()
            &&& forall|i: int|
                0 <= i < s.lines.len() && !subs.contains(i) ==> #[trigger] t.lines[i]
                    == s.lines[i]
            &&& at_lines(t.lines, subs).to_multiset() == at_lines(
                s.lines.update(subs[k], l),
                subs,
            ).to_multiset()
            &&& forall|a: int, b: int|
                0 <= a < b < subs.len() && is_done(t.lines[#[trigger] subs[a]]) ==> is_done(
                    t.lines[#[trigger] subs[b]],
                )
            &&& t.sub matches Some(m) && 0 <= m < subs.len() && t.lines[subs[m]] == l
        }),
{
    let it = item_under(s)->0;
    let subs = subs_of(s.lines, it);
    let k = s.sub->0;
    let done = is_done(s.lines[subs[k]]);
    let l = with_mark(s.lines[subs[k]], !done);
    let lines = s.lines.update(subs[k], l);
    let held = at_lines(lines, subs);
    let t = sub_toggled(s);
    lemma_item_under(s);
    lemma_tasks_in(s.lines, it.start + 1, it.start + it.len);
    lemma_with_mark(s.lines[subs[k]], !done);
    let p = |l: Seq<char>| !is_done(l);
    let q = |l: Seq<char>| is_done(l);
    let f = held.filter(p);
    let g = held.filter(q);
    lemma_filter_halves(held, p, q);
    lemma_put_at(lines, subs, f + g, subs.len() as int);
    assert(held[k] == l);
    if done {
        lemma_filter_place(held, p, k);
    } else {
        lemma_filter_place(held, q, k);
    }
    assert(at_lines(t.lines, subs) =~= f + g) by {
        assert forall|j: int| 0 <= j < subs.len() implies at_lines(t.lines, subs)[j] == (f
            + g)[j] by {
            assert(t.lines[subs[j]] == (f + g)[j]);
        }
    }
    assert forall|i: int| 0 <= i < s.lines.len() && !subs.contains(i) implies #[trigger] t.lines[i]
        == s.lines[i] by {
        assert(forall|j: int| 0 <= j < subs.len() ==> subs[j] != i);
        assert(lines[i] == s.lines[i]);
    }
    assert forall|a: int, b: int|
        0 <= a < b < subs.len() && is_done(t.lines[#[trigger] subs[a]]) implies is_done(
        t.lines[#[trigger] subs[b]],
    ) by {
        broadcast use vstd::seq_lib::group_filter_ensures;

        assert(t.lines[subs[a]] == (f + g)[a]);
        assert(t.lines[subs[b]] == (f + g)[b]);
        if a < f.len() {
            assert(p(f[a]));
        }
        assert(q(g[b - f.len()]));
    }
}

/// After a subtask is checked or opened, a task stands in each of the subtasks' places.
pub proof fn lemma_subs_stay_tasks(s: State)
    requires
        sub_selected(s),
    ensures
        ({
            let subs = subs_of(s.lines, item_under(s)->0);
            forall|j: int|
                0 <= j < subs.len() ==> is_task(sub_toggled(s).lines[#[trigger] subs[j]])
        }),
{
    let it = item_under(s)->0;
    let subs = subs_of(s.lines, it);
    let k = s.sub->0;
    let done = is_done(s.lines[subs[k]]);
    let l = with_mark(s.lines[subs[k]], !done);
    let lines = s.lines.update(subs[k], l);
    let held = at_lines(lines, subs);
    let t = sub_toggled(s);
    lemma_item_under(s);
    lemma_tasks_in(s.lines, it.start + 1, it.start + it.len);
    lemma_with_mark(s.lines[subs[k]], !done);
    let p = |l: Seq<char>| !is_done(l);
    let q = |l: Seq<char>| is_done(l);
    let f = held.filter(p);
    let g = held.filter(q);
    lemma_filter_halves(held, p, q);
    lemma_put_at(lines, subs, f + g, subs.len() as int);
    assert forall|j: int| 0 <= j < subs.len() implies is_task(t.lines[#[trigger] subs[j]]) by {
        let x = (f + g)[j];
        assert(t.lines[subs[j]] == x);
        if j < f.len() {
            assert(f[j] == x);
            assert(held.filter(p).contains(x));
            held.lemma_filter_contains_rev(p, x);
        } else {
            assert(g[j - f.len()] == x);
            assert(held.filter(q).contains(x));
            held.lemma_filter_contains_rev(q, x);
        }
        let m = choose|m: int| 0 <= m < held.len() && held[m] == x;
        assert(lines[subs[m]] == x);
        assert(is_task(s.lines[subs[m]]));
    }
}

} // verus!
