//! Completing a task and opening it again gives it back.
use crate::app::{item_under, lemma_item_under, State};
use crate::blocks::{is_block, lemma_block_updated, lemma_completed, lemma_item_is_block};
use crate::clock::stamp_text;
use crate::laws::moves::{
    block_with, ends_in_heading, ends_top, law_reopened_at_end_of_todo, lemma_completed_on_top,
    lemma_solid_all, lemma_solid_first, lemma_solid_last, moved_after, moved_before, own_block,
    set_between,
};
use crate::laws::prompt::lemma_last_before_section;
use crate::laws::stamps::{law_reopen_undoes_complete, opens_stamp};
use crate::laws::tidy::{lemma_solid_concat, lemma_solid_from, lemma_solid_push, solid};
use crate::lines::without;
use crate::outline::{
    block_end, ensured, has_heading, heading_index, lemma_block_end, lemma_heading_not_blank,
    lemma_top_not_blank, past_blanks, top_end, under, ItemModel,
};
use crate::search::{first_from, lemma_back_from, lemma_first_from, lemma_first_from_is};
use crate::task::{completed, ends_todo, heading_named, is_done, is_top};
use crate::text::{is_blank, trim_end};
use crate::toggle::{lines_completed, toggled};
use vstd::prelude::*;

verus! {

/// The first line under the Done heading that is not blank; the number of lines if there is
/// none.
pub open spec fn top_of_done(lines: Seq<Seq<char>>) -> int {
    past_blanks(lines, heading_index(lines, "Done"@))
}

/// The lines without an item's block, with a Done section, which is created if missing.
pub open spec fn beside(lines: Seq<Seq<char>>, it: ItemModel) -> Seq<Seq<char>> {
    without(ensured(lines, "Done"@).lines, it.start, it.start + it.len)
}

/// Two ways of taking a list apart behind its first heading with a name are one.
pub proof fn lemma_one_heading_cut(
    a: Seq<Seq<char>>,
    b: Seq<Seq<char>>,
    c: Seq<Seq<char>>,
    d: Seq<Seq<char>>,
    name: Seq<char>,
)
    requires
        a + b == c + d,
        ends_in_heading(a, name),
        ends_in_heading(c, name),
    ensures
        a == c,
        b == d,
{
    let all = a + b;
    let n = a.len() as int;
    let m = c.len() as int;
    assert(all.len() == m + d.len());
    assert(all[n - 1] == a.last());
    assert(all[m - 1] == c.last());
    if n < m {
        assert(all[n - 1] == c[n - 1]);
    } else if m < n {
        assert(all[m - 1] == a[m - 1]);
    }
    assert(a =~= all.take(n));
    assert(c =~= all.take(n));
    assert(b =~= all.skip(n));
    assert(d =~= all.skip(n));
}

/// A heading among the lines that are not blank is found.
proof fn lemma_heading_found(lines: Seq<Seq<char>>, k: int, name: Seq<char>)
    requires
        0 <= k < solid(lines).len(),
        heading_named(solid(lines)[k], name),
    ensures
        has_heading(lines, name),
{
    let q = |l: Seq<char>| heading_named(l, name);
    lemma_first_from(lines, 0, q);
    lemma_solid_from(lines, k);
    let i = choose|i: int| 0 <= i < lines.len() && lines[i] == solid(lines)[k];
    if !has_heading(lines, name) {
        assert(!q(lines[i]));
    }
}

/// The lines that are not blank, up to the first heading with a name and from there on.
proof fn lemma_cut_behind_heading(lines: Seq<Seq<char>>, name: Seq<char>)
    requires
        has_heading(lines, name),
    ensures
        ({
            let k = past_blanks(lines, heading_index(lines, name));
            let a = solid(lines.take(k));
            let c = solid(lines.skip(k));
            &&& 0 <= k <= lines.len()
            &&& solid(lines) == a + c
            &&& ends_in_heading(a, name)
            &&& k < lines.len() ==> !is_blank(lines[k]) && c.len() > 0 && c[0] == lines[k]
            &&& k == lines.len() ==> c.len() == 0
        }),
{
    let q = |l: Seq<char>| heading_named(l, name);
    let p = |l: Seq<char>| !is_blank(l);
    let h = heading_index(lines, name);
    let k = past_blanks(lines, h);
    lemma_first_from(lines, 0, q);
    lemma_first_from(lines, h + 1, p);
    assert(q(lines[h]));
    lemma_heading_not_blank(lines[h]);
    let x = lines.take(k);
    let z = lines.skip(k);
    assert(lines =~= x + z);
    lemma_solid_concat(x, z);
    assert(x[h] == lines[h]);
    assert forall|i: int| h < i < x.len() implies is_blank(#[trigger] x[i]) by {
        assert(!p(lines[i]));
    }
    lemma_solid_last(x, h);
    let front = x.take(h);
    let other = |l: Seq<char>| !heading_named(l, name);
    assert forall|i: int| 0 <= i < front.len() implies other(#[trigger] front[i]) by {
        assert(front[i] == lines[i]);
        assert(!q(lines[i]));
    }
    lemma_solid_all(front, other);
    let a = solid(x);
    assert forall|i: int| 0 <= i < a.len() - 1 implies !heading_named(#[trigger] a[i], name) by {
        assert(a[i] == solid(front)[i]);
        assert(other(solid(front)[i]));
    }
    if k < lines.len() {
        assert(p(lines[k]));
        assert(z[0] == lines[k]);
    }
    lemma_solid_first(z, 0);
}

/// Whether `b` is a task with lines under it, and `c` goes on with a line that is not.
pub open spec fn ends_block(b: Seq<Seq<char>>, c: Seq<Seq<char>>) -> bool {
    &&& b.len() > 0
    &&& forall|i: int| 0 < i < b.len() ==> under(#[trigger] b[i])
    &&& c.len() > 0 ==> !under(c[0])
}

/// Two ways of taking a list apart behind the block it starts with are one.
pub proof fn lemma_one_block(
    a: Seq<Seq<char>>,
    b: Seq<Seq<char>>,
    c: Seq<Seq<char>>,
    d: Seq<Seq<char>>,
)
    requires
        a + b == c + d,
        ends_block(a, b),
        ends_block(c, d),
    ensures
        a == c,
        b == d,
{
    let all = a + b;
    let n = a.len() as int;
    let m = c.len() as int;
    assert(all.len() == m + d.len());
    if n < m {
        assert(all[n] == b[0]);
        assert(all[n] == c[n]);
    } else if m < n {
        assert(all[m] == d[0]);
        assert(all[m] == a[m]);
    }
    assert(a =~= all.take(n));
    assert(c =~= all.take(n));
    assert(b =~= all.skip(n));
    assert(d =~= all.skip(n));
}

/// The lines of a block that are not blank: the task's, and those of the lines under it.
pub proof fn lemma_solid_block(lines: Seq<Seq<char>>, start: int, end: int)
    requires
        is_block(lines, start, end),
    ensures
        ({
            let b = solid(lines.subrange(start, end));
            &&& b == seq![lines[start]] + solid(lines.subrange(start + 1, end))
            &&& b.last() == lines[end - 1]
            &&& forall|i: int| 0 < i < b.len() ==> under(#[trigger] b[i])
        }),
{
    let block = lines.subrange(start, end);
    let one = seq![lines[start]];
    let none = Seq::<Seq<char>>::empty();
    let rest = lines.subrange(start + 1, end);
    lemma_top_not_blank(lines[start]);
    assert(block =~= one + rest);
    assert(one =~= none.push(lines[start]));
    lemma_solid_concat(one, rest);
    lemma_solid_push(none, lines[start]);
    assert(solid(one) =~= one);
    let below = |l: Seq<char>| under(l);
    assert forall|i: int| 0 <= i < rest.len() implies below(#[trigger] rest[i]) by {
        assert(rest[i] == lines[start + 1 + i]);
    }
    lemma_solid_all(rest, below);
    let b = solid(block);
    assert forall|i: int| 0 < i < b.len() implies under(#[trigger] b[i]) by {
        assert(b[i] == solid(rest)[i - 1]);
        assert(below(solid(rest)[i - 1]));
    }
    assert(block[block.len() - 1] == lines[end - 1]);
    lemma_solid_last(block, block.len() - 1);
}

/// What stands behind an item's block goes on with a line that is not under its task.
pub proof fn lemma_behind_block(lines: Seq<Seq<char>>, start: int)
    requires
        0 <= start < lines.len(),
        is_top(lines[start]),
        is_block(lines, start, block_end(lines, start)),
    ensures
        ends_block(
            solid(lines.subrange(start, block_end(lines, start))),
            solid(lines.skip(block_end(lines, start))),
        ),
{
    let e = block_end(lines, start);
    let q = |l: Seq<char>| !under(l);
    let p = |l: Seq<char>| !is_blank(l);
    lemma_solid_block(lines, start, e);
    lemma_first_from(lines, start + 1, q);
    let run = first_from(lines, start + 1, q);
    lemma_back_from(lines, run, p);
    let z = lines.skip(e);
    assert forall|i: int| 0 <= i < run - e implies is_blank(#[trigger] z[i]) by {
        assert(!p(lines[e + i]));
    }
    if run < lines.len() {
        assert(q(lines[run]));
        assert(z[run - e] == lines[run]);
    }
    lemma_solid_first(z, run - e);
}

/// A task's line, however it reads, leaves the lines beside its block as they are.
proof fn lemma_beside_updated(lines: Seq<Seq<char>>, it: ItemModel, l: Seq<char>)
    requires
        is_block(lines, it.start, it.start + it.len),
        is_top(l),
    ensures
        beside(lines.update(it.start, l), it) == beside(lines, it),
{
    reveal_strlit("Done");
    reveal_strlit("later");
    let name = "Done"@;
    let u = lines.update(it.start, l);
    let q = |x: Seq<char>| heading_named(x, name);
    let h = heading_index(lines, name);
    lemma_first_from(lines, 0, q);
    if heading_named(l, name) {
        lemma_heading_not_blank(l);
    }
    if heading_named(lines[it.start], name) {
        lemma_heading_not_blank(lines[it.start]);
    }
    assert forall|i: int| 0 <= i < h implies !q(#[trigger] u[i]) by {
        if i != it.start {
            assert(!q(lines[i]));
        }
    }
    if h < lines.len() {
        assert(q(lines[h]));
        assert(u[h] == lines[h]);
    }
    lemma_first_from_is(u, 0, q, h);
    assert(beside(u, it) =~= beside(lines, it));
}

/// Where a task that was completed stands, and what stands around it.
proof fn lemma_on_top(s: State, stamp: Seq<char>, start: int)
    requires
        item_under(s) is Some,
        !is_done(s.lines[item_under(s)->0.start]),
        ({
            let w = beside(s.lines, item_under(s)->0);
            top_of_done(w) < w.len() ==> !under(w[top_of_done(w)])
        }),
        start == top_of_done(lines_completed(s.lines, item_under(s)->0, stamp)),
    ensures
        ({
            let it = item_under(s)->0;
            let t = lines_completed(s.lines, it, stamp);
            let l = completed(s.lines[it.start], stamp);
            &&& 0 <= start < t.len()
            &&& t[start] == l
            &&& is_top(t[start]) ==> {
                &&& solid(without(t, start, block_end(t, start))) == solid(beside(s.lines, it))
                &&& solid(t.subrange(start, block_end(t, start))) == solid(
                    block_with(s.lines, it, l),
                )
            }
        }),
{
    lemma_item_is_block(s);
    let it = item_under(s)->0;
    let end = it.start + it.len;
    let name = "Done"@;
    let l = completed(s.lines[it.start], stamp);
    let u = s.lines.update(it.start, l);
    let t = lines_completed(s.lines, it, stamp);
    let block = block_with(s.lines, it, l);
    lemma_completed(s.lines[it.start], stamp);
    lemma_completed_on_top(s.lines, it, stamp);
    lemma_beside_updated(s.lines, it, l);
    let w = beside(s.lines, it);
    let placed = ensured(u, name);
    let dest = past_blanks(placed.lines, placed.at);
    let a = solid(moved_before(placed.lines, it.start, end, dest));
    let c = solid(moved_after(placed.lines, it.start, end, dest));
    assert(a + c == solid(w));
    assert(solid(t) == a + solid(block) + c);
    assert(a + solid(block) + c =~= a + (solid(block) + c));
    // The same heading is found in both.
    assert(solid(w)[a.len() - 1] == a.last());
    lemma_heading_found(w, a.len() - 1, name);
    assert(solid(t)[a.len() - 1] == a.last());
    lemma_heading_found(t, a.len() - 1, name);
    lemma_cut_behind_heading(w, name);
    let k = top_of_done(w);
    lemma_one_heading_cut(a, c, solid(w.take(k)), solid(w.skip(k)), name);
    lemma_cut_behind_heading(t, name);
    lemma_one_heading_cut(
        a,
        solid(block) + c,
        solid(t.take(start)),
        solid(t.skip(start)),
        name,
    );
    // The block comes first under it.
    lemma_block_updated(s.lines, it.start, end, l);
    lemma_solid_block(u, it.start, end);
    assert(block == u.subrange(it.start, end));
    assert(ends_block(solid(block), c));
    assert((solid(block) + c)[0] == l);
    assert(start < t.len());
    if is_top(t[start]) {
        let e = block_end(t, start);
        lemma_block_end(t, start);
        assert(is_block(t, start, e));
        lemma_behind_block(t, start);
        let b2 = t.subrange(start, e);
        let c2 = t.skip(e);
        assert(t.skip(start) =~= b2 + c2);
        lemma_solid_concat(b2, c2);
        lemma_one_block(solid(block), c, solid(b2), solid(c2));
        lemma_solid_concat(t.take(start), c2);
        assert(without(t, start, e) =~= t.take(start) + c2);
    }
}

/// Completing an open task and opening it again gives back its block: all its lines as they
/// were, at the end of Todo. All other lines that are not blank stay as they were, in their
/// order, but for a Done heading that is created if there was none.
///
/// The task's line carries no stamp and no blanks at its end; the cursor is on the completed
/// task when it is opened again; and under the Done heading comes no indented line, which
/// would be under the completed task from then on.
pub proof fn law_toggle_twice_gives_back(s: State, stamp: Seq<char>, u: State, again: Seq<char>)
    requires
        item_under(s) is Some,
        ({
            let it = item_under(s)->0;
            let l = s.lines[it.start];
            let w = beside(s.lines, it);
            &&& !is_done(l)
            &&& trim_end(l) == l
            &&& !opens_stamp(l)
            &&& top_of_done(w) < w.len() ==> !under(w[top_of_done(w)])
        }),
        stamp_text(stamp),
        u.lines == toggled(s, stamp).lines,
        item_under(u) matches Some(it) && it.start == top_of_done(u.lines),
    ensures
        ({
            let it = item_under(s)->0;
            let now = toggled(u, again).lines;
            let block = own_block(s.lines, it);
            &&& 0 < top_end(now) <= now.len()
            &&& now[top_end(now) - 1] == block.last()
            &&& exists|a: Seq<Seq<char>>, c: Seq<Seq<char>>|
                {
                    &&& #[trigger] set_between(now, a, block, c)
                    &&& ends_top(a, c)
                    &&& a + c == solid(beside(s.lines, it))
                }
        }),
{
    lemma_item_is_block(s);
    lemma_item_is_block(u);
    lemma_item_under(u);
    let it = item_under(s)->0;
    let end = it.start + it.len;
    let l = s.lines[it.start];
    let t = u.lines;
    let start = item_under(u)->0.start;
    let e = block_end(t, start);
    lemma_completed(l, stamp);
    lemma_on_top(s, stamp, start);
    law_reopen_undoes_complete(l, stamp);
    law_reopened_at_end_of_todo(u, again);
    let now = toggled(u, again).lines;
    let back = block_with(t, item_under(u)->0, l);
    let block = own_block(s.lines, it);
    let (a, c) = choose|a: Seq<Seq<char>>, c: Seq<Seq<char>>|
        {
            &&& #[trigger] set_between(now, a, back, c)
            &&& ends_top(a, c)
            &&& a + c == solid(without(t, start, e))
        };
    // The block has its lines again.
    let done = s.lines.update(it.start, completed(l, stamp));
    let open = t.update(start, l);
    lemma_block_updated(s.lines, it.start, end, completed(l, stamp));
    lemma_block_updated(t, start, e, l);
    lemma_solid_block(s.lines, it.start, end);
    lemma_solid_block(done, it.start, end);
    lemma_solid_block(t, start, e);
    lemma_solid_block(open, start, e);
    let rest = s.lines.subrange(it.start + 1, end);
    let rest2 = t.subrange(start + 1, e);
    assert(done.subrange(it.start + 1, end) =~= rest);
    assert(open.subrange(start + 1, e) =~= rest2);
    let whole = seq![completed(l, stamp)] + solid(rest);
    assert(whole == seq![t[start]] + solid(rest2));
    assert(solid(rest) =~= whole.skip(1));
    assert(solid(rest2) =~= whole.skip(1));
    assert(solid(back) == solid(block));
    assert(set_between(now, a, block, c));
    // It ends Todo.
    let b = solid(block);
    assert forall|i: int| 0 <= i < (a + b).len() implies !ends_todo(#[trigger] (a + b)[i]) by {
        if i < a.len() {
            assert((a + b)[i] == a[i]);
        } else {
            let x = b[i - a.len()];
            assert((a + b)[i] == x);
            if ends_todo(x) {
                lemma_heading_not_blank(x);
                if i > a.len() {
                    assert(under(x));
                }
            }
        }
    }
    lemma_last_before_section(now, a + b, c);
    assert((a + b).last() == b.last());
}

} // verus!
