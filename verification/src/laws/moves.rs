//! Where tasks go: to the top of Done, to the end of Todo or of another section, each with
//! the whole block under it, and nothing else moves.
use crate::app::{item_under, DestModel, State};
use crate::blocks::{
    is_block, lemma_block_created, lemma_block_ensured, lemma_block_updated, lemma_clear_of_block,
    lemma_completed, lemma_heading_index, lemma_item_is_block, lemma_new_heading, lemma_next_stop,
    lemma_past_clear, lemma_reopened,
};
use crate::laws::stamps::lemma_lead_space;
use crate::laws::tidy::{
    law_tidy_keeps_lines, lemma_solid_blank, lemma_solid_concat, lemma_solid_from, lemma_solid_push,
    solid,
};
use crate::lines::without;
use crate::moves::{later_cycled, lines_moved, lines_to_top, movable, moved_to};
use crate::outline::{
    created, end_of_section, ensured, has_heading, heading_index, kind_at, lemma_heading_not_blank,
    lemma_top_not_blank, moved, new_heading, next_stop, past_blanks, shifted, tidied, top_end,
    ItemModel, Placed,
};
use crate::search::{lemma_back_from, lemma_back_from_is, lemma_first_from, lemma_first_from_is};
use crate::task::{completed, ends_todo, heading_named, is_done, reopened, SectionKind};
use crate::text::{is_blank, is_space, same_letters, trim};
use crate::toggle::{lines_completed, toggled};
use vstd::prelude::*;

verus! {

// ---------------------------------------------------------------------------------
// One block moves

/// What comes before a block, from `start` up to `end`, after it moves to `dest`.
pub open spec fn moved_before(
    lines: Seq<Seq<char>>,
    start: int,
    end: int,
    dest: int,
) -> Seq<Seq<char>> {
    if dest <= start {
        lines.take(dest)
    } else {
        lines.take(start) + lines.subrange(end, dest)
    }
}

/// What comes behind a block, from `start` up to `end`, after it moves to `dest`.
pub open spec fn moved_after(
    lines: Seq<Seq<char>>,
    start: int,
    end: int,
    dest: int,
) -> Seq<Seq<char>> {
    if dest <= start {
        lines.subrange(dest, start) + lines.skip(end)
    } else {
        lines.skip(dest)
    }
}

/// A move takes the lines from `start` up to `end` along as they are, and leaves the order
/// of the others.
pub proof fn law_move_carries_block(lines: Seq<Seq<char>>, start: int, end: int, dest: int)
    requires
        0 <= start <= end <= lines.len(),
        0 <= dest <= lines.len(),
        dest <= start || dest >= end,
    ensures
        moved(lines, start, end - start, dest) == moved_before(lines, start, end, dest)
            + lines.subrange(start, end) + moved_after(lines, start, end, dest),
        moved_before(lines, start, end, dest) + moved_after(lines, start, end, dest) == without(
            lines,
            start,
            end,
        ),
        moved(lines, start, end - start, dest).to_multiset() == lines.to_multiset(),
{
    let a = moved_before(lines, start, end, dest);
    let b = lines.subrange(start, end);
    let c = moved_after(lines, start, end, dest);
    assert(moved(lines, start, end - start, dest) =~= a + b + c);
    assert(a + c =~= without(lines, start, end));
    assert(lines =~= lines.take(start) + b + lines.skip(end));
    let x = lines.take(start);
    let z = lines.skip(end);
    vstd::seq_lib::lemma_multiset_commutative(a + b, c);
    vstd::seq_lib::lemma_multiset_commutative(a, b);
    vstd::seq_lib::lemma_multiset_commutative(a, c);
    vstd::seq_lib::lemma_multiset_commutative(x + b, z);
    vstd::seq_lib::lemma_multiset_commutative(x, b);
    vstd::seq_lib::lemma_multiset_commutative(x, z);
    assert(a + c == x + z);
    assert(a.to_multiset().add(c.to_multiset()) == x.to_multiset().add(z.to_multiset()));
    assert(a.to_multiset().add(b.to_multiset()).add(c.to_multiset()) =~= a.to_multiset().add(
        c.to_multiset(),
    ).add(b.to_multiset()));
    assert(x.to_multiset().add(b.to_multiset()).add(z.to_multiset()) =~= x.to_multiset().add(
        z.to_multiset(),
    ).add(b.to_multiset()));
    assert(moved(lines, start, end - start, dest).to_multiset() =~= lines.to_multiset());
}

proof fn lemma_moved_solid(lines: Seq<Seq<char>>, start: int, end: int, dest: int)
    requires
        0 <= start <= end <= lines.len(),
        0 <= dest <= lines.len(),
        dest <= start || dest >= end,
    ensures
        solid(tidied(moved(lines, start, end - start, dest))) == solid(
            moved_before(lines, start, end, dest),
        ) + solid(lines.subrange(start, end)) + solid(moved_after(lines, start, end, dest)),
        solid(moved_before(lines, start, end, dest)) + solid(moved_after(lines, start, end, dest))
            == solid(without(lines, start, end)),
{
    let a = moved_before(lines, start, end, dest);
    let b = lines.subrange(start, end);
    let c = moved_after(lines, start, end, dest);
    law_move_carries_block(lines, start, end, dest);
    law_tidy_keeps_lines(moved(lines, start, end - start, dest));
    lemma_solid_concat(a + b, c);
    lemma_solid_concat(a, b);
    lemma_solid_concat(a, c);
}

/// What holds of all lines holds of those that are not blank.
pub proof fn lemma_solid_all(lines: Seq<Seq<char>>, p: spec_fn(Seq<char>) -> bool)
    requires
        forall|i: int| 0 <= i < lines.len() ==> p(#[trigger] lines[i]),
    ensures
        forall|k: int| 0 <= k < solid(lines).len() ==> p(#[trigger] solid(lines)[k]),
{
    assert forall|k: int| 0 <= k < solid(lines).len() implies p(#[trigger] solid(lines)[k]) by {
        lemma_solid_from(lines, k);
        let i = choose|i: int| 0 <= i < lines.len() && lines[i] == solid(lines)[k];
        assert(p(lines[i]));
    }
}

/// Lines that start with blank ones up to one that is not, as far as they are not blank.
pub proof fn lemma_solid_first(lines: Seq<Seq<char>>, n: int)
    requires
        0 <= n <= lines.len(),
        forall|i: int| 0 <= i < n ==> is_blank(#[trigger] lines[i]),
        n < lines.len() ==> !is_blank(lines[n]),
    ensures
        n < lines.len() ==> solid(lines).len() > 0 && solid(lines)[0] == lines[n],
        n == lines.len() ==> solid(lines).len() == 0,
{
    let a = lines.take(n);
    let b = lines.skip(n);
    assert(lines =~= a + b);
    lemma_solid_concat(a, b);
    lemma_solid_blank(a);
    assert(solid(a) + solid(b) =~= solid(b));
    if n < lines.len() {
        let one = seq![lines[n]];
        let rest = lines.skip(n + 1);
        assert(b =~= one + rest);
        lemma_solid_concat(one, rest);
        assert(one.drop_last() =~= Seq::empty());
        assert(one.last() == lines[n]);
        assert(solid(one.drop_last()) =~= Seq::empty());
        assert(solid(one) =~= one);
    }
}

/// Lines that end in a line that is not blank and then in blank ones.
pub proof fn lemma_solid_last(lines: Seq<Seq<char>>, n: int)
    requires
        0 <= n < lines.len(),
        !is_blank(lines[n]),
        forall|i: int| n < i < lines.len() ==> is_blank(#[trigger] lines[i]),
    ensures
        solid(lines) == solid(lines.take(n)).push(lines[n]),
{
    let a = lines.take(n);
    let c = lines.skip(n + 1);
    assert(lines =~= a.push(lines[n]) + c);
    lemma_solid_concat(a.push(lines[n]), c);
    assert forall|i: int| 0 <= i < c.len() implies is_blank(#[trigger] c[i]) by {
        assert(c[i] == lines[n + 1 + i]);
    }
    lemma_solid_blank(c);
    assert(a.push(lines[n]).drop_last() =~= a);
    assert(solid(a.push(lines[n])) + solid(c) =~= solid(a).push(lines[n]));
}

// ---------------------------------------------------------------------------------
// Sections that are created

/// A new section's heading has the section's name.
pub proof fn lemma_new_heading_named(name: Seq<char>)
    requires
        trim(name) == name,
    ensures
        heading_named(new_heading(name), name),
{
    reveal_strlit("## ");
    reveal_strlit(" ");
    lemma_new_heading(name);
    let l = new_heading(name);
    let p = |c: char| c != '#';
    lemma_first_from_is(l, 0, p, 2);
    assert(l.skip(2) =~= " "@ + name);
    lemma_lead_space(name);
}

pub proof fn lemma_trimmed(name: Seq<char>)
    requires
        name.len() > 0,
        !is_space(name[0]),
        !is_space(name.last()),
    ensures
        trim(name) == name,
{
    let p = |c: char| !is_space(c);
    lemma_first_from_is(name, 0, p, 0);
    lemma_back_from_is(name, name.len() as int, p, name.len() as int);
    assert(name.subrange(0, name.len() as int) =~= name);
}

/// The section that was placed is the first with its name.
pub open spec fn first_named(p: Placed, name: Seq<char>) -> bool {
    &&& 0 <= p.at < p.lines.len()
    &&& heading_named(p.lines[p.at], name)
    &&& forall|i: int| 0 <= i < p.at ==> !heading_named(#[trigger] p.lines[i], name)
}

pub proof fn lemma_first_named(lines: Seq<Seq<char>>, name: Seq<char>)
    requires
        trim(name) == name,
    ensures
        first_named(ensured(lines, name), name),
        first_named(created(lines, name), name),
{
    let q = |l: Seq<char>| heading_named(l, name);
    lemma_first_from(lines, 0, q);
    lemma_new_heading_named(name);
    lemma_heading_index(lines, "done"@);
    lemma_heading_index(lines, "later"@);
    if !has_heading(lines, name) {
        let e = ensured(lines, name);
        assert forall|i: int| 0 <= i < e.at implies !heading_named(#[trigger] e.lines[i], name) by {
            if i < lines.len() {
                assert(e.lines[i] == lines[i]);
                assert(!q(lines[i]));
            }
        }
        let c = created(lines, name);
        assert forall|i: int| 0 <= i < c.at implies !heading_named(#[trigger] c.lines[i], name) by {
            assert(c.lines[i] == lines[i]);
            assert(!q(lines[i]));
        }
    } else {
        assert forall|i: int| 0 <= i < heading_index(lines, name) implies !heading_named(
            #[trigger] lines[i],
            name,
        ) by {
            assert(!q(lines[i]));
        }
    }
}

// ---------------------------------------------------------------------------------
// Done and Todo

/// Whether a list, as far as its lines are not blank, is `a`, a block, and `c`.
pub open spec fn set_between(
    lines: Seq<Seq<char>>,
    a: Seq<Seq<char>>,
    block: Seq<Seq<char>>,
    c: Seq<Seq<char>>,
) -> bool {
    solid(lines) == a + solid(block) + c
}

/// Whether the last of the lines is the first heading with this name among them.
pub open spec fn ends_in_heading(a: Seq<Seq<char>>, name: Seq<char>) -> bool {
    &&& a.len() > 0
    &&& heading_named(a.last(), name)
    &&& forall|i: int| 0 <= i < a.len() - 1 ==> !heading_named(#[trigger] a[i], name)
}

/// The block of an item, its task's line replaced.
pub open spec fn block_with(
    lines: Seq<Seq<char>>,
    it: ItemModel,
    l: Seq<char>,
) -> Seq<Seq<char>> {
    lines.update(it.start, l).subrange(it.start, it.start + it.len)
}

/// What comes before a block that moves to right under the first heading with a name.
pub proof fn lemma_under_heading(p: Placed, start: int, end: int, name: Seq<char>)
    requires
        is_block(p.lines, start, end),
        first_named(p, name),
    ensures
        ({
            let dest = past_blanks(p.lines, p.at);
            &&& dest <= start || dest >= end
            &&& 0 <= dest <= p.lines.len()
            &&& ends_in_heading(solid(moved_before(p.lines, start, end, dest)), name)
        }),
{
    let h = p.at;
    let len = end - start;
    let dest = past_blanks(p.lines, h);
    let q = |l: Seq<char>| !is_blank(l);
    lemma_past_clear(p.lines, start, end, h);
    lemma_clear_of_block(p.lines, start, end, h);
    lemma_first_from(p.lines, h + 1, q);
    lemma_heading_not_blank(p.lines[h]);
    lemma_top_not_blank(p.lines[start]);
    let before = moved_before(p.lines, start, end, dest);
    let a = solid(before);
    let other = |l: Seq<char>| !heading_named(l, name);
    let k = if dest <= start {
        h
    } else {
        h - len
    };
    if dest > start && h < start {
        assert(!q(p.lines[start]));
    }
    assert(before[k] == p.lines[h]);
    assert forall|i: int| k < i < before.len() implies is_blank(#[trigger] before[i]) by {
        let j = if dest <= start {
            i
        } else {
            i + len
        };
        assert(before[i] == p.lines[j]);
        assert(!q(p.lines[j]));
    }
    lemma_solid_last(before, k);
    let front = before.take(k);
    assert forall|i: int| 0 <= i < front.len() implies other(#[trigger] front[i]) by {
        let j = if dest <= start || i < start {
            i
        } else {
            i + len
        };
        assert(front[i] == p.lines[j]);
    }
    lemma_solid_all(front, other);
    assert forall|i: int| 0 <= i < a.len() - 1 implies !heading_named(#[trigger] a[i], name) by {
        assert(a[i] == solid(front)[i]);
        assert(other(solid(front)[i]));
    }
}

pub proof fn lemma_completed_on_top(lines: Seq<Seq<char>>, it: ItemModel, stamp: Seq<char>)
    requires
        is_block(lines, it.start, it.start + it.len),
    ensures
        ({
            let u = lines.update(it.start, completed(lines[it.start], stamp));
            let p = ensured(u, "Done"@);
            let dest = past_blanks(p.lines, p.at);
            let a = solid(moved_before(p.lines, it.start, it.start + it.len, dest));
            let c = solid(moved_after(p.lines, it.start, it.start + it.len, dest));
            let block = block_with(lines, it, completed(lines[it.start], stamp));
            &&& set_between(lines_completed(lines, it, stamp), a, block, c)
            &&& ends_in_heading(a, "Done"@)
            &&& a + c == solid(without(p.lines, it.start, it.start + it.len))
        }),
{
    reveal_strlit("Done");
    reveal_strlit("later");
    let start = it.start;
    let end = it.start + it.len;
    let l = completed(lines[start], stamp);
    let u = lines.update(start, l);
    let p = ensured(u, "Done"@);
    lemma_completed(lines[start], stamp);
    lemma_block_updated(lines, start, end, l);
    lemma_block_ensured(u, start, end, "Done"@);
    lemma_trimmed("Done"@);
    lemma_first_named(u, "Done"@);
    lemma_under_heading(p, start, end, "Done"@);
    assert(p.lines.subrange(start, end) =~= u.subrange(start, end));
    lemma_moved_solid(p.lines, start, end, past_blanks(p.lines, p.at));
}

/// Completing a task stamps its line and sets it, with its block, right under the Done
/// heading, above all that stood there: Done is newest-first. Where there is no Done
/// section one is created; nothing else changes.
pub proof fn law_completed_on_top_of_done(s: State, stamp: Seq<char>)
    requires
        item_under(s) is Some,
        !is_done(s.lines[item_under(s)->0.start]),
    ensures
        ({
            let it = item_under(s)->0;
            let l = completed(s.lines[it.start], stamp);
            exists|a: Seq<Seq<char>>, c: Seq<Seq<char>>|
                {
                    &&& #[trigger] set_between(
                        toggled(s, stamp).lines,
                        a,
                        block_with(s.lines, it, l),
                        c,
                    )
                    &&& ends_in_heading(a, "Done"@)
                    &&& a + c == solid(
                        without(
                            ensured(s.lines.update(it.start, l), "Done"@).lines,
                            it.start,
                            it.start + it.len,
                        ),
                    )
                }
        }),
{
    lemma_item_is_block(s);
    let it = item_under(s)->0;
    let l = completed(s.lines[it.start], stamp);
    lemma_completed_on_top(s.lines, it, stamp);
    let p = ensured(s.lines.update(it.start, l), "Done"@);
    let dest = past_blanks(p.lines, p.at);
    assert(set_between(
        toggled(s, stamp).lines,
        solid(moved_before(p.lines, it.start, it.start + it.len, dest)),
        block_with(s.lines, it, l),
        solid(moved_after(p.lines, it.start, it.start + it.len, dest)),
    ));
}

/// Whether a block between `a` and `c` ends Todo: no heading in `a` ends it, and `c` starts with
/// one that does.
pub open spec fn ends_top(a: Seq<Seq<char>>, c: Seq<Seq<char>>) -> bool {
    &&& forall|i: int| 0 <= i < a.len() ==> !ends_todo(#[trigger] a[i])
    &&& c.len() > 0 ==> ends_todo(c[0])
}

/// The lines of Todo, without a block among them or behind them.
pub proof fn lemma_ends_top(lines: Seq<Seq<char>>, start: int, end: int)
    requires
        is_block(lines, start, end),
    ensures
        ({
            let dest = top_end(lines);
            &&& dest <= start || dest >= end
            &&& 0 <= dest <= lines.len()
            &&& ends_top(
                solid(moved_before(lines, start, end, dest)),
                solid(moved_after(lines, start, end, dest)),
            )
        }),
{
    let n = next_stop(lines, 0);
    let dest = top_end(lines);
    let q = |l: Seq<char>| !is_blank(l);
    let sec = |l: Seq<char>| ends_todo(l);
    let none = |l: Seq<char>| !ends_todo(l);
    lemma_next_stop(lines, 0);
    lemma_first_from(lines, 0, sec);
    lemma_clear_of_block(lines, start, end, n);
    lemma_back_from(lines, n, q);
    lemma_top_not_blank(lines[start]);
    let before = moved_before(lines, start, end, dest);
    let after = moved_after(lines, start, end, dest);
    if dest <= start && start < n {
        assert(!q(lines[start]));
    }
    assert forall|i: int| 0 <= i < before.len() implies none(#[trigger] before[i]) by {
        let j = if dest <= start || i < start {
            i
        } else {
            i + (end - start)
        };
        assert(before[i] == lines[j]);
        assert(!sec(lines[j]));
    }
    lemma_solid_all(before, none);
    assert forall|i: int| 0 <= i < solid(before).len() implies !ends_todo(
        #[trigger] solid(before)[i],
    ) by {
        assert(none(solid(before)[i]));
    }
    assert forall|i: int| 0 <= i < n - dest implies is_blank(#[trigger] after[i]) by {
        assert(after[i] == lines[dest + i]);
        assert(!q(lines[dest + i]));
    }
    if n < lines.len() {
        lemma_heading_not_blank(lines[n]);
        assert(after[n - dest] == lines[n]);
    }
    lemma_solid_first(after, n - dest);
}

/// Opening a done task takes its stamp away and sets it, with its block, at the end of
/// Todo: behind all else that stands before the first heading that ends it. Nothing else
/// changes.
pub proof fn law_reopened_at_end_of_todo(s: State, stamp: Seq<char>)
    requires
        item_under(s) is Some,
        is_done(s.lines[item_under(s)->0.start]),
    ensures
        ({
            let it = item_under(s)->0;
            exists|a: Seq<Seq<char>>, c: Seq<Seq<char>>|
                {
                    &&& #[trigger] set_between(
                        toggled(s, stamp).lines,
                        a,
                        block_with(s.lines, it, reopened(s.lines[it.start])),
                        c,
                    )
                    &&& ends_top(a, c)
                    &&& a + c == solid(without(s.lines, it.start, it.start + it.len))
                }
        }),
{
    lemma_item_is_block(s);
    let it = item_under(s)->0;
    let start = it.start;
    let end = it.start + it.len;
    let l = reopened(s.lines[start]);
    let u = s.lines.update(start, l);
    lemma_reopened(s.lines[start]);
    lemma_block_updated(s.lines, start, end, l);
    lemma_ends_top(u, start, end);
    let dest = top_end(u);
    lemma_moved_solid(u, start, end, dest);
    assert(without(u, start, end) =~= without(s.lines, start, end));
    let a = solid(moved_before(u, start, end, dest));
    let c = solid(moved_after(u, start, end, dest));
    assert(set_between(toggled(s, stamp).lines, a, block_with(s.lines, it, l), c));
}

// ---------------------------------------------------------------------------------
// Other sections

/// Whether a block between `a` and `c` ends the first section with this name.
pub open spec fn ends_section(a: Seq<Seq<char>>, c: Seq<Seq<char>>, name: Seq<char>) -> bool {
    &&& exists|k: int|
        {
            &&& 0 <= k < a.len()
            &&& #[trigger] ends_in_heading(a.take(k + 1), name)
            &&& forall|i: int| k < i < a.len() ==> !ends_todo(#[trigger] a[i])
        }
    &&& c.len() > 0 ==> ends_todo(c[0])
}

pub proof fn lemma_ends_section(p: Placed, start: int, end: int, name: Seq<char>)
    requires
        is_block(p.lines, start, end),
        first_named(p, name),
    ensures
        ({
            let dest = end_of_section(p.lines, p.at);
            &&& dest <= start || dest >= end
            &&& 0 <= dest <= p.lines.len()
            &&& ends_section(
                solid(moved_before(p.lines, start, end, dest)),
                solid(moved_after(p.lines, start, end, dest)),
                name,
            )
        }),
{
    let lines = p.lines;
    let h = p.at;
    let n = next_stop(lines, h + 1);
    let dest = end_of_section(lines, h);
    let q = |l: Seq<char>| !is_blank(l);
    let sec = |l: Seq<char>| ends_todo(l);
    let none = |l: Seq<char>| !ends_todo(l);
    let other = |l: Seq<char>| !heading_named(l, name);
    lemma_next_stop(lines, h + 1);
    lemma_first_from(lines, h + 1, sec);
    lemma_clear_of_block(lines, start, end, n);
    lemma_clear_of_block(lines, start, end, h);
    lemma_back_from(lines, n, q);
    lemma_top_not_blank(lines[start]);
    lemma_heading_not_blank(lines[h]);
    if dest <= h {
        assert(!q(lines[h]));
    }
    if dest <= start && start < n {
        assert(!q(lines[start]));
    }
    let before = moved_before(lines, start, end, dest);
    let after = moved_after(lines, start, end, dest);
    let len = end - start;
    // The heading, and the lines before and behind it.
    let g = if dest <= start || h < start {
        h
    } else {
        h - len
    };
    assert(before[g] == lines[h]);
    let front = before.take(g);
    let rest = before.skip(g + 1);
    assert(before =~= front.push(before[g]) + rest);
    assert forall|i: int| 0 <= i < front.len() implies other(#[trigger] front[i]) by {
        let j = if dest <= start || i < start {
            i
        } else {
            i + len
        };
        assert(front[i] == lines[j]);
    }
    assert forall|i: int| 0 <= i < rest.len() implies none(#[trigger] rest[i]) by {
        let j = if dest <= start || g + 1 + i < start {
            g + 1 + i
        } else {
            g + 1 + i + len
        };
        assert(rest[i] == lines[j]);
        assert(!sec(lines[j]));
    }
    lemma_solid_all(front, other);
    lemma_solid_all(rest, none);
    lemma_solid_concat(front.push(before[g]), rest);
    lemma_solid_push(front, before[g]);
    let a = solid(before);
    let k = solid(front).len() as int;
    let head = a.take(k + 1);
    assert(head =~= solid(front).push(lines[h]));
    assert forall|i: int| 0 <= i < head.len() - 1 implies !heading_named(
        #[trigger] head[i],
        name,
    ) by {
        assert(other(solid(front)[i]));
    }
    assert(ends_in_heading(a.take(k + 1), name));
    assert forall|i: int| k < i < a.len() implies !ends_todo(#[trigger] a[i]) by {
        assert(a[i] == solid(rest)[i - k - 1]);
        assert(none(solid(rest)[i - k - 1]));
    }
    assert forall|i: int| 0 <= i < n - dest implies is_blank(#[trigger] after[i]) by {
        assert(after[i] == lines[dest + i]);
        assert(!q(lines[dest + i]));
    }
    if n < lines.len() {
        lemma_heading_not_blank(lines[n]);
        assert(after[n - dest] == lines[n]);
    }
    lemma_solid_first(after, n - dest);
}

/// Whether a list is another one with the block of an item taken out and set at the end of
/// the first section with this name.
pub open spec fn appended_to(
    lines: Seq<Seq<char>>,
    from: Seq<Seq<char>>,
    block: Seq<Seq<char>>,
    name: Seq<char>,
) -> bool {
    exists|a: Seq<Seq<char>>, c: Seq<Seq<char>>|
        #[trigger] set_between(lines, a, block, c) && ends_section(a, c, name) && a + c == solid(
            from,
        )
}

proof fn lemma_appended(p: Placed, it: ItemModel, block: Seq<Seq<char>>, name: Seq<char>)
    requires
        is_block(p.lines, shifted(it.start, p), shifted(it.start, p) + it.len),
        first_named(p, name),
        block == p.lines.subrange(shifted(it.start, p), shifted(it.start, p) + it.len),
    ensures
        appended_to(
            lines_moved(p, it),
            without(p.lines, shifted(it.start, p), shifted(it.start, p) + it.len),
            block,
            name,
        ),
{
    let start = shifted(it.start, p);
    let end = start + it.len;
    lemma_ends_section(p, start, end, name);
    let dest = end_of_section(p.lines, p.at);
    lemma_moved_solid(p.lines, start, end, dest);
    assert(set_between(
        lines_moved(p, it),
        solid(moved_before(p.lines, start, end, dest)),
        block,
        solid(moved_after(p.lines, start, end, dest)),
    ));
}

/// The lines with the block of an item taken out, after a section was placed.
pub open spec fn placed_without(p: Placed, it: ItemModel) -> Seq<Seq<char>> {
    without(p.lines, shifted(it.start, p), shifted(it.start, p) + it.len)
}

/// The block of an item.
pub open spec fn own_block(lines: Seq<Seq<char>>, it: ItemModel) -> Seq<Seq<char>> {
    lines.subrange(it.start, it.start + it.len)
}

/// A task that is moved to a section of the user's stands, with its block, at the end of
/// that section, which is created if missing. Nothing else changes.
pub proof fn law_moved_to_end_of_section(s: State, name: Seq<char>)
    requires
        movable(s),
        trim(name) == name,
    ensures
        ({
            let it = item_under(s)->0;
            appended_to(
                moved_to(s, DestModel::Section(name)).lines,
                placed_without(created(s.lines, name), it),
                own_block(s.lines, it),
                name,
            )
        }),
{
    lemma_item_is_block(s);
    let it = item_under(s)->0;
    let p = created(s.lines, name);
    lemma_block_created(s.lines, it.start, it.start + it.len, name);
    lemma_first_named(s.lines, name);
    lemma_same_block_created(s.lines, it, name);
    lemma_appended(p, it, own_block(s.lines, it), name);
}

/// A task that is moved to Later stands, with its block, at the end of the Later section,
/// which is created before Done if missing. Nothing else changes.
pub proof fn law_moved_to_end_of_later(s: State)
    requires
        movable(s),
    ensures
        ({
            let it = item_under(s)->0;
            appended_to(
                moved_to(s, DestModel::Later).lines,
                placed_without(ensured(s.lines, "Later"@), it),
                own_block(s.lines, it),
                "Later"@,
            )
        }),
        ({
            let it = item_under(s)->0;
            kind_at(s.lines, it.start) != SectionKind::Later
                ==> appended_to(
                later_cycled(s).lines,
                placed_without(ensured(s.lines, "Later"@), it),
                own_block(s.lines, it),
                "Later"@,
            )
        }),
{
    reveal_strlit("Later");
    lemma_item_is_block(s);
    let it = item_under(s)->0;
    let p = ensured(s.lines, "Later"@);
    lemma_block_ensured(s.lines, it.start, it.start + it.len, "Later"@);
    lemma_trimmed("Later"@);
    lemma_first_named(s.lines, "Later"@);
    lemma_same_block_ensured(s.lines, it, "Later"@);
    lemma_appended(p, it, own_block(s.lines, it), "Later"@);
}

/// A task that is moved to Todo, from Later or from any other section, stands with its
/// block at the end of Todo. Nothing else changes.
pub proof fn law_moved_to_end_of_todo(s: State)
    requires
        movable(s),
    ensures
        ({
            let it = item_under(s)->0;
            exists|a: Seq<Seq<char>>, c: Seq<Seq<char>>|
                {
                    &&& #[trigger] set_between(
                        lines_to_top(s.lines, it),
                        a,
                        own_block(s.lines, it),
                        c,
                    )
                    &&& ends_top(a, c)
                    &&& a + c == solid(without(s.lines, it.start, it.start + it.len))
                }
        }),
        moved_to(s, DestModel::Todo).lines == lines_to_top(s.lines, item_under(s)->0),
        kind_at(s.lines, item_under(s)->0.start)
            == SectionKind::Later ==> later_cycled(s).lines == lines_to_top(
            s.lines,
            item_under(s)->0,
        ),
{
    lemma_item_is_block(s);
    let it = item_under(s)->0;
    let start = it.start;
    let end = it.start + it.len;
    lemma_ends_top(s.lines, start, end);
    let dest = top_end(s.lines);
    lemma_moved_solid(s.lines, start, end, dest);
    assert(set_between(
        lines_to_top(s.lines, it),
        solid(moved_before(s.lines, start, end, dest)),
        own_block(s.lines, it),
        solid(moved_after(s.lines, start, end, dest)),
    ));
}

pub proof fn lemma_same_block_created(lines: Seq<Seq<char>>, it: ItemModel, name: Seq<char>)
    requires
        is_block(lines, it.start, it.start + it.len),
    ensures
        ({
            let p = created(lines, name);
            p.lines.subrange(shifted(it.start, p), shifted(it.start, p) + it.len) == own_block(
                lines,
                it,
            )
        }),
{
    let p = created(lines, name);
    lemma_heading_index(lines, name);
    lemma_heading_index(lines, "done"@);
    lemma_heading_index(lines, "later"@);
    if !has_heading(lines, name) {
        lemma_clear_of_block(lines, it.start, it.start + it.len, p.at);
    }
    assert(p.lines.subrange(shifted(it.start, p), shifted(it.start, p) + it.len) =~= own_block(
        lines,
        it,
    ));
}

pub proof fn lemma_same_block_ensured(lines: Seq<Seq<char>>, it: ItemModel, name: Seq<char>)
    requires
        is_block(lines, it.start, it.start + it.len),
    ensures
        ({
            let p = ensured(lines, name);
            p.lines.subrange(shifted(it.start, p), shifted(it.start, p) + it.len) == own_block(
                lines,
                it,
            )
        }),
{
    let p = ensured(lines, name);
    lemma_heading_index(lines, name);
    lemma_heading_index(lines, "done"@);
    if !has_heading(lines, name) && same_letters(name, "later"@) && has_heading(lines, "done"@) {
        lemma_clear_of_block(lines, it.start, it.start + it.len, p.at);
    }
    assert(p.lines.subrange(shifted(it.start, p), shifted(it.start, p) + it.len) =~= own_block(
        lines,
        it,
    ));
}

} // verus!
