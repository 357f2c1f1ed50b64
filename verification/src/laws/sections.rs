//! The sections: which of them the menu offers, where a new one is created, and which one a
//! line stands in.
use crate::app::{entries_of, item_under, DestModel, State};
use crate::blocks::{
    is_block, lemma_block_updated, lemma_clear_of_block, lemma_completed, lemma_heading_index,
    lemma_item_is_block, lemma_new_heading,
};
use crate::laws::entries::{holds_task, law_selected_line, law_what_can_be_moved, stands_under};
use crate::laws::markdown::{law_special_names, spelled};
use crate::laws::moves::{
    block_with, ends_in_heading, ends_section, ends_top, law_completed_on_top_of_done,
    law_moved_to_end_of_later, law_moved_to_end_of_section, law_moved_to_end_of_todo,
    law_reopened_at_end_of_todo, lemma_new_heading_named, lemma_solid_first, lemma_trimmed,
    own_block, placed_without, set_between,
};
use crate::laws::tidy::{lemma_solid_concat, lemma_solid_from, lemma_solid_push, solid};
use crate::laws::toggle::lemma_one_heading_cut;
use crate::lines::without;
use crate::moves::{
    custom_dests, later_cycled, menu_opened, menu_options, moved_to, sections_of, sections_upto,
};
use crate::outline::{
    created, custom_place, ensured, has_heading, heading_index, kind_at, lemma_heading_not_blank,
    lemma_top_not_blank, with_section_at, with_section_last, ItemModel, Placed,
};
use crate::prompt::lemma_entries_same;
use crate::search::{back_from, lemma_back_from, lemma_first_from};
use crate::task::{
    completed, ends_todo, heading, heading_name, heading_named, is_done, kind_of, reopened,
    SectionKind,
};
use crate::text::{is_blank, same_letters, trim};
use crate::toggle::toggled;
use vstd::prelude::*;

verus! {

// ---------------------------------------------------------------------------------
// The menu

/// Whether a line heads a section of the user's: two hashes and no third, and a name other
/// than those of Later and Done.
pub open spec fn heads_own(l: Seq<char>) -> bool {
    &&& l.len() >= 2 && l[0] == '#' && l[1] == '#'
    &&& l.len() >= 3 ==> l[2] != '#'
    &&& !spelled(heading_name(l), "later"@, "LATER"@)
    &&& !spelled(heading_name(l), "done"@, "DONE"@)
}

/// Whether `at` are the headings of the user's sections in the first `n` lines, in their
/// order.
pub open spec fn own_headings(lines: Seq<Seq<char>>, n: int, at: Seq<int>) -> bool {
    &&& forall|k: int| 0 <= k < at.len() ==> 0 <= #[trigger] at[k] < n && heads_own(lines[at[k]])
    &&& forall|j: int, k: int| 0 <= j < k < at.len() ==> #[trigger] at[j] < #[trigger] at[k]
    &&& forall|i: int| 0 <= i < n && heads_own(#[trigger] lines[i]) ==> at.contains(i)
}

/// Whether the options are Todo, then the sections with these headings by their names, then
/// Later, then a new section.
pub open spec fn offers(lines: Seq<Seq<char>>, options: Seq<DestModel>, at: Seq<int>) -> bool {
    &&& options.len() == at.len() + 3
    &&& options[0] == DestModel::Todo
    &&& forall|k: int|
        0 <= k < at.len() ==> options[k + 1] == DestModel::Section(
            heading_name(lines[#[trigger] at[k]]),
        )
    &&& options[at.len() as int + 1] == DestModel::Later
    &&& options[at.len() as int + 2] == DestModel::NewSection
}

/// The lines of the sections' headings that are the user's own, among the first `n` sections.
spec fn own_lines(sections: Seq<(int, Seq<char>)>, n: int) -> Seq<int>
    decreases n,
{
    if n <= 0 {
        Seq::empty()
    } else if kind_of(sections[n - 1].1) == SectionKind::Todo {
        own_lines(sections, n - 1).push(sections[n - 1].0)
    } else {
        own_lines(sections, n - 1)
    }
}

proof fn lemma_own_lines_prefix(a: Seq<(int, Seq<char>)>, b: Seq<(int, Seq<char>)>, n: int)
    requires
        n <= a.len(),
        a.is_prefix_of(b),
    ensures
        own_lines(a, n) == own_lines(b, n),
        custom_dests(a, n) == custom_dests(b, n),
    decreases n,
{
    if n > 0 {
        lemma_own_lines_prefix(a, b, n - 1);
        assert(a[n - 1] == b[n - 1]);
    }
}

proof fn lemma_own_headings(lines: Seq<Seq<char>>, n: int)
    requires
        0 <= n <= lines.len(),
    ensures
        ({
            let all = sections_upto(lines, n);
            let at = own_lines(all, all.len() as int);
            let dests = custom_dests(all, all.len() as int);
            &&& own_headings(lines, n, at)
            &&& dests.len() == at.len()
            &&& forall|k: int|
                0 <= k < at.len() ==> dests[k] == DestModel::Section(
                    heading_name(lines[#[trigger] at[k]]),
                )
        }),
    decreases n,
{
    if n > 0 {
        lemma_own_headings(lines, n - 1);
        let l = lines[n - 1];
        law_special_names(heading_name(l));
        let a = sections_upto(lines, n - 1);
        let b = sections_upto(lines, n);
        let at = own_lines(a, a.len() as int);
        let bt = own_lines(b, b.len() as int);
        if b.len() > a.len() {
            assert(a =~= b.subrange(0, a.len() as int));
            lemma_own_lines_prefix(a, b, a.len() as int);
            assert(b[b.len() - 1] == (n - 1, heading_name(l)));
        }
        assert(heads_own(l) ==> bt == at.push(n - 1));
        assert(!heads_own(l) ==> bt == at);
        assert forall|i: int| 0 <= i < n && heads_own(#[trigger] lines[i]) implies bt.contains(
            i,
        ) by {
            if i < n - 1 {
                assert(at.contains(i));
                let k = choose|k: int| 0 <= k < at.len() && at[k] == i;
                assert(bt[k] == i);
            } else {
                assert(bt[bt.len() - 1] == i);
            }
        }
        assert forall|j: int, k: int| 0 <= j < k < bt.len() implies #[trigger] bt[j]
            < #[trigger] bt[k] by {
            assert(bt[j] == at[j]);
            if k < at.len() {
                assert(bt[k] == at[k]);
            }
        }
        assert forall|k: int| 0 <= k < bt.len() implies 0 <= #[trigger] bt[k] < n && heads_own(
            lines[bt[k]],
        ) by {
            if k < at.len() {
                assert(bt[k] == at[k]);
            }
        }
        let da = custom_dests(a, a.len() as int);
        let db = custom_dests(b, b.len() as int);
        assert forall|k: int| 0 <= k < bt.len() implies db[k] == DestModel::Section(
            heading_name(lines[#[trigger] bt[k]]),
        ) by {
            if k < at.len() {
                assert(bt[k] == at[k]);
                assert(db[k] == da[k]);
            }
        }
    }
}

/// The menu for an open task offers Todo, every section of the user's by its name, as many as
/// there are and in the order of the file, then Later and a new section. Todo is chosen at
/// first, and nothing else changes.
pub proof fn law_menu_offers_every_section(s: State, it: ItemModel)
    requires
        holds_task(s, s.cursor, it),
        s.sub is None,
        !is_done(s.lines[it.start]),
    ensures
        ({
            let t = menu_opened(s);
            &&& t.move_menu matches Some(menu) && menu.sel == 0 && exists|at: Seq<int>|
                #[trigger] own_headings(s.lines, s.lines.len() as int, at) && offers(
                    s.lines,
                    menu.options,
                    at,
                )
            &&& t == (State { move_menu: t.move_menu, ..s })
        }),
{
    law_what_can_be_moved(s, it, 0, it);
    let n = s.lines.len() as int;
    let all = sections_of(s.lines);
    let at = own_lines(all, all.len() as int);
    lemma_own_headings(s.lines, n);
    let options = menu_options(s.lines);
    assert(own_headings(s.lines, n, at));
    assert forall|k: int| 0 <= k < at.len() implies options[k + 1] == DestModel::Section(
        heading_name(s.lines[#[trigger] at[k]]),
    ) by {
        assert(options[k + 1] == custom_dests(all, all.len() as int)[k]);
    }
    assert(offers(s.lines, options, at));
}

/// No menu is opened for a subtask or a collapsed section, nor for a done task, of which that
/// is said.
pub proof fn law_menu_needs_an_open_task(s: State, it: ItemModel)
    ensures
        s.sub is Some || !holds_task(s, s.cursor, it) && (forall|x: ItemModel|
            !#[trigger] holds_task(s, s.cursor, x)) ==> menu_opened(s) == s,
        s.sub is None && holds_task(s, s.cursor, it) && is_done(s.lines[it.start])
            ==> menu_opened(s) == (State { status: "item is done — untick it first"@, ..s }),
{
    law_what_can_be_moved(s, it, 0, it);
    if let Some(x) = item_under(s) {
        assert(holds_task(s, s.cursor, x));
    }
}

// ---------------------------------------------------------------------------------
// The section of a line

/// A line stands in the section of the last heading at or before it, and in Todo where there
/// is none; beyond the last line is where the last line is.
pub proof fn law_section_of_line(lines: Seq<Seq<char>>, i: int, h: int)
    requires
        0 <= i < lines.len(),
    ensures
        stands_under(lines, i + 1, h) ==> kind_at(lines, i) == kind_of(heading_name(lines[h])),
        (forall|j: int| 0 <= j <= i ==> !heading(#[trigger] lines[j])) ==> kind_at(lines, i)
            == SectionKind::Todo,
        forall|k: int| k >= lines.len() ==> #[trigger] kind_at(lines, k) == kind_at(
            lines,
            lines.len() - 1,
        ),
{
    let q = |l: Seq<char>| heading(l);
    lemma_back_from(lines, i + 1, q);
    let p = back_from(lines, i + 1, q);
    if p > 0 {
        assert(q(lines[p - 1]));
    }
    if stands_under(lines, i + 1, h) {
        if p - 1 > h {
            assert(!heading(lines[p - 1]));
        } else if p - 1 < h {
            assert(!q(lines[h]));
        }
    }
}

// ---------------------------------------------------------------------------------
// Tasks that move to a section

/// Whether a heading with this name is among the lines.
pub open spec fn named_in(lines: Seq<Seq<char>>, name: Seq<char>) -> bool {
    exists|h: int| 0 <= h < lines.len() && heading_named(#[trigger] lines[h], name)
}

/// Whether a line heads Later or Done.
pub open spec fn heads_special(l: Seq<char>) -> bool {
    heading_named(l, "later"@) || heading_named(l, "done"@)
}

/// The lines beside an item's block that are not blank.
pub open spec fn rest_of(lines: Seq<Seq<char>>, it: ItemModel) -> Seq<Seq<char>> {
    solid(lines.take(it.start)) + solid(lines.skip(it.start + it.len))
}

proof fn lemma_named_in(lines: Seq<Seq<char>>, name: Seq<char>)
    ensures
        named_in(lines, name) == has_heading(lines, name),
        has_heading(lines, name) ==> 0 <= heading_index(lines, name) < lines.len(),
        forall|i: int|
            0 <= i < heading_index(lines, name) && i < lines.len() ==> !heading_named(
                #[trigger] lines[i],
                name,
            ),
{
    let q = |l: Seq<char>| heading_named(l, name);
    lemma_first_from(lines, 0, q);
    assert forall|i: int| 0 <= i < heading_index(lines, name) && i < lines.len() implies
        !heading_named(#[trigger] lines[i], name) by {
        assert(!q(lines[i]));
    }
    if has_heading(lines, name) {
        assert(heading_named(lines[heading_index(lines, name)], name));
    }
}

/// The lines beside a block after a section's heading was put in before line `p`.
proof fn lemma_heading_put_in(
    lines: Seq<Seq<char>>,
    it: ItemModel,
    p: int,
    name: Seq<char>,
) -> (r: (Seq<Seq<char>>, Seq<Seq<char>>))
    requires
        is_block(lines, it.start, it.start + it.len),
        0 <= p <= lines.len(),
        p < lines.len() ==> heading(lines[p]),
    ensures
        ({
            let placed = Placed { lines: with_section_at(lines, p, name), at: p, moved: p };
            let (x, z) = r;
            &&& x + z == rest_of(lines, it)
            &&& solid(placed_without(placed, it)) == x.push("## "@ + name) + z
            &&& forall|i: int|
                0 <= i < x.len() ==> exists|j: int| 0 <= j < p && lines[j] == #[trigger] x[i]
            &&& p < lines.len() ==> z.len() > 0 && z[0] == lines[p]
            &&& p == lines.len() ==> z.len() == 0
        }),
{
    let (start, end) = (it.start, it.start + it.len);
    let placed = Placed { lines: with_section_at(lines, p, name), at: p, moved: p };
    let h = "## "@ + name;
    lemma_clear_of_block(lines, start, end, p);
    lemma_new_heading(name);
    lemma_heading_not_blank(h);
    if p < lines.len() {
        lemma_heading_not_blank(lines[p]);
    }
    let front = if start >= p {
        lines.take(p)
    } else {
        lines.take(start) + lines.subrange(end, p)
    };
    let back = if start >= p {
        lines.subrange(p, start) + lines.skip(end)
    } else {
        lines.skip(p)
    };
    let gap = seq![h, Seq::<char>::empty()];
    assert(placed_without(placed, it) =~= front + gap + back);
    assert(front + back =~= lines.take(start) + lines.skip(end));
    lemma_solid_concat(lines.take(start), lines.skip(end));
    lemma_solid_concat(front, back);
    lemma_solid_concat(front + gap, back);
    assert(front + gap =~= front.push(h).push(Seq::empty()));
    assert(is_blank(Seq::<char>::empty()));
    lemma_solid_push(front.push(h), Seq::empty());
    lemma_solid_push(front, h);
    let x = solid(front);
    let z = solid(back);
    assert forall|i: int| 0 <= i < x.len() implies exists|j: int|
        0 <= j < p && lines[j] == #[trigger] x[i] by {
        lemma_solid_from(front, i);
        let k = choose|k: int| 0 <= k < front.len() && front[k] == x[i];
        let j = if start >= p || k < start {
            k
        } else {
            k + it.len
        };
        assert(lines[j] == x[i]);
    }
    if p < lines.len() {
        assert(start != p);
        assert(back[0] == lines[p]);
    } else {
        assert(back =~= Seq::empty());
    }
    lemma_solid_first(back, 0);
    (x, z)
}

/// A block at the end of a section that was created empty stands right under its heading.
proof fn lemma_under_new_heading(
    a: Seq<Seq<char>>,
    c: Seq<Seq<char>>,
    x: Seq<Seq<char>>,
    h: Seq<char>,
    z: Seq<Seq<char>>,
    name: Seq<char>,
)
    requires
        ends_section(a, c, name),
        a + c == x.push(h) + z,
        heading_named(h, name),
        forall|i: int| 0 <= i < x.len() ==> !heading_named(#[trigger] x[i], name),
        z.len() > 0 ==> ends_todo(z[0]),
    ensures
        a == x.push(h),
        c == z,
{
    let k = choose|k: int|
        {
            &&& 0 <= k < a.len()
            &&& #[trigger] ends_in_heading(a.take(k + 1), name)
            &&& forall|i: int| k < i < a.len() ==> !ends_todo(#[trigger] a[i])
        };
    let front = a.take(k + 1);
    let back = a.skip(k + 1);
    assert(a =~= front + back);
    assert(front + (back + c) =~= a + c);
    assert(ends_in_heading(x.push(h), name));
    lemma_one_heading_cut(front, back + c, x.push(h), z, name);
    if back.len() > 0 {
        assert((back + c)[0] == a[k + 1]);
    }
    assert(back =~= Seq::empty());
    assert(back + c =~= c);
    assert(front + back =~= front);
}

/// Whether `to` is `from` with an item's block moved to the end of the section with this
/// name. A section that is missing is created, with the block in it, behind `x` and before
/// `z`; nothing else changes.
pub open spec fn sent_to(
    from: Seq<Seq<char>>,
    it: ItemModel,
    to: Seq<Seq<char>>,
    name: Seq<char>,
    x: Seq<Seq<char>>,
    z: Seq<Seq<char>>,
) -> bool {
    &&& if named_in(from, name) {
        solid(to) == x + solid(own_block(from, it)) + z && ends_section(x, z, name)
    } else {
        solid(to) == x + seq!["## "@ + name] + solid(own_block(from, it)) + z
    }
    &&& x + z == rest_of(from, it)
}

/// Moving an open task to a section of the user's sets its block at the end of that section.
/// A section that is missing is created right before the first heading of Later or Done, or
/// at the end.
pub proof fn law_task_goes_to_own_section(s: State, it: ItemModel, name: Seq<char>)
    requires
        holds_task(s, s.cursor, it),
        s.sub is None,
        !is_done(s.lines[it.start]),
        trim(name) == name,
    ensures
        exists|x: Seq<Seq<char>>, z: Seq<Seq<char>>|
            {
                &&& #[trigger] sent_to(
                    s.lines,
                    it,
                    moved_to(s, DestModel::Section(name)).lines,
                    name,
                    x,
                    z,
                )
                &&& !named_in(s.lines, name) ==> {
                    &&& forall|i: int| 0 <= i < x.len() ==> !heads_special(#[trigger] x[i])
                    &&& z.len() > 0 ==> heads_special(z[0])
                }
            },
{
    law_what_can_be_moved(s, it, 0, it);
    law_moved_to_end_of_section(s, name);
    lemma_item_is_block(s);
    let lines = s.lines;
    let to = moved_to(s, DestModel::Section(name)).lines;
    let block = own_block(lines, it);
    let placed = created(lines, name);
    let from = placed_without(placed, it);
    let (a, c) = choose|a: Seq<Seq<char>>, c: Seq<Seq<char>>|
        #[trigger] set_between(to, a, block, c) && ends_section(a, c, name) && a + c == solid(from);
    lemma_named_in(lines, name);
    lemma_named_in(lines, "later"@);
    lemma_named_in(lines, "done"@);
    if named_in(lines, name) {
        lemma_solid_concat(lines.take(it.start), lines.skip(it.start + it.len));
        assert(from =~= lines.take(it.start) + lines.skip(it.start + it.len));
        assert(sent_to(lines, it, to, name, a, c));
    } else {
        let p = custom_place(lines);
        lemma_heading_index(lines, "later"@);
        lemma_heading_index(lines, "done"@);
        let (x, z) = lemma_heading_put_in(lines, it, p, name);
        let h = "## "@ + name;
        lemma_new_heading_named(name);
        assert forall|i: int| 0 <= i < x.len() implies !heading_named(#[trigger] x[i], name)
            && !heads_special(x[i]) by {
            let j = choose|j: int| 0 <= j < p && lines[j] == x[i];
            assert(!heading_named(lines[j], name));
            assert(!heading_named(lines[j], "later"@));
            assert(!heading_named(lines[j], "done"@));
        }
        if z.len() > 0 {
            lemma_special_ends_todo(z[0]);
        }
        lemma_under_new_heading(a, c, x, h, z, name);
        assert(x.push(h) + solid(block) + z =~= x + seq![h] + solid(block) + z);
        assert(sent_to(lines, it, to, name, x, z));
    }
}

proof fn lemma_special_ends_todo(l: Seq<char>)
    requires
        heads_special(l),
    ensures
        ends_todo(l),
{
    if !same_letters(heading_name(l), "later"@) {
        assert(kind_of(heading_name(l)) == SectionKind::Done);
    }
}

/// Moving an open task to Later sets its block at the end of Later. A Later section that is
/// missing is created right before the first heading of Done, or at the end.
pub proof fn law_task_goes_to_later(s: State, it: ItemModel)
    requires
        holds_task(s, s.cursor, it),
        s.sub is None,
        !is_done(s.lines[it.start]),
    ensures
        ({
            let to = moved_to(s, DestModel::Later).lines;
            &&& kind_at(s.lines, it.start) != SectionKind::Later ==> later_cycled(s).lines == to
            &&& exists|x: Seq<Seq<char>>, z: Seq<Seq<char>>|
                {
                    &&& #[trigger] sent_to(s.lines, it, to, "Later"@, x, z)
                    &&& !named_in(s.lines, "Later"@) ==> {
                        &&& forall|i: int|
                            0 <= i < x.len() ==> !heading_named(#[trigger] x[i], "done"@)
                        &&& z.len() > 0 ==> heading_named(z[0], "done"@)
                    }
                }
        }),
{
    reveal_strlit("Later");
    reveal_strlit("later");
    let name = "Later"@;
    law_what_can_be_moved(s, it, 0, it);
    law_moved_to_end_of_later(s);
    lemma_item_is_block(s);
    let lines = s.lines;
    let to = moved_to(s, DestModel::Later).lines;
    let block = own_block(lines, it);
    let placed = ensured(lines, name);
    let from = placed_without(placed, it);
    let (a, c) = choose|a: Seq<Seq<char>>, c: Seq<Seq<char>>|
        #[trigger] set_between(to, a, block, c) && ends_section(a, c, name) && a + c == solid(from);
    lemma_named_in(lines, name);
    lemma_named_in(lines, "done"@);
    lemma_heading_index(lines, "done"@);
    assert(same_letters(name, "later"@));
    lemma_trimmed(name);
    lemma_new_heading_named(name);
    let h = "## "@ + name;
    if named_in(lines, name) {
        lemma_solid_concat(lines.take(it.start), lines.skip(it.start + it.len));
        assert(from =~= lines.take(it.start) + lines.skip(it.start + it.len));
        assert(sent_to(lines, it, to, name, a, c));
    } else {
        let p = heading_index(lines, "done"@);
        let (x, z) = lemma_heading_put_in(lines, it, p, name);
        if !has_heading(lines, "done"@) {
            // At the end it makes no difference but for a blank line.
            let last = Placed { lines: with_section_at(lines, p, name), at: p, moved: p };
            let b = placed_without(last, it);
            lemma_solid_at_end(lines, it, name);
            assert(solid(from) == solid(b));
        }
        assert forall|i: int| 0 <= i < x.len() implies !heading_named(#[trigger] x[i], name)
            && !heading_named(x[i], "done"@) by {
            let j = choose|j: int| 0 <= j < p && lines[j] == x[i];
            assert(!heading_named(lines[j], name));
            assert(!heading_named(lines[j], "done"@));
        }
        if z.len() > 0 {
            lemma_special_ends_todo(z[0]);
        }
        lemma_under_new_heading(a, c, x, h, z, name);
        assert(x.push(h) + solid(block) + z =~= x + seq![h] + solid(block) + z);
        assert(sent_to(lines, it, to, name, x, z));
    }
}

/// A section created at the end stands behind all lines, whichever way.
proof fn lemma_solid_at_end(lines: Seq<Seq<char>>, it: ItemModel, name: Seq<char>)
    requires
        is_block(lines, it.start, it.start + it.len),
    ensures
        ({
            let n = lines.len() as int;
            let a = Placed { lines: with_section_last(lines, name), at: n + 1, moved: n };
            let b = Placed { lines: with_section_at(lines, n, name), at: n, moved: n };
            &&& solid(placed_without(a, it)) == solid(placed_without(b, it))
            &&& solid(placed_without(a, it)) == rest_of(lines, it).push("## "@ + name)
        }),
{
    let n = lines.len() as int;
    let a = Placed { lines: with_section_last(lines, name), at: n + 1, moved: n };
    let b = Placed { lines: with_section_at(lines, n, name), at: n, moved: n };
    let h = "## "@ + name;
    let empty = Seq::<char>::empty();
    let rest = lines.take(it.start) + lines.skip(it.start + it.len);
    lemma_new_heading(name);
    lemma_heading_not_blank(h);
    assert(is_blank(empty));
    assert(placed_without(a, it) =~= rest.push(empty).push(h).push(empty));
    assert(placed_without(b, it) =~= rest.push(h).push(empty));
    lemma_solid_concat(lines.take(it.start), lines.skip(it.start + it.len));
    lemma_solid_push(rest.push(empty).push(h), empty);
    lemma_solid_push(rest.push(empty), h);
    lemma_solid_push(rest, empty);
    lemma_solid_push(rest.push(h), empty);
    lemma_solid_push(rest, h);
}

/// Moving an open task to Todo, or from Later back to it, sets its block at the end of Todo:
/// before the first heading that ends it, behind all else there. Nothing else changes.
pub proof fn law_task_goes_to_todo(s: State, it: ItemModel)
    requires
        holds_task(s, s.cursor, it),
        s.sub is None,
        !is_done(s.lines[it.start]),
    ensures
        ({
            let to = moved_to(s, DestModel::Todo).lines;
            &&& kind_at(s.lines, it.start) == SectionKind::Later ==> later_cycled(s).lines == to
            &&& exists|x: Seq<Seq<char>>, z: Seq<Seq<char>>|
                {
                    &&& #[trigger] set_between(to, x, own_block(s.lines, it), z)
                    &&& ends_top(x, z)
                    &&& x + z == rest_of(s.lines, it)
                }
        }),
{
    law_what_can_be_moved(s, it, 0, it);
    law_moved_to_end_of_todo(s);
    lemma_item_is_block(s);
    let to = moved_to(s, DestModel::Todo).lines;
    let block = own_block(s.lines, it);
    let (a, c) = choose|a: Seq<Seq<char>>, c: Seq<Seq<char>>|
        {
            &&& #[trigger] set_between(to, a, block, c)
            &&& ends_top(a, c)
            &&& a + c == solid(without(s.lines, it.start, it.start + it.len))
        };
    lemma_solid_concat(s.lines.take(it.start), s.lines.skip(it.start + it.len));
    assert(set_between(to, a, block, c));
}

/// A task that is moved to another section leaves everything but the lines, what undo
/// remembers, the status and the selection as it is; a subtask, a done task and a collapsed
/// section are not moved at all.
pub proof fn law_only_open_tasks_move(s: State, it: ItemModel, dest: DestModel)
    ensures
        ({
            let t = moved_to(s, dest);
            t == (State { lines: t.lines, undo: t.undo, status: t.status, cursor: t.cursor, sub:
                t.sub, ..s })
        }),
        s.sub is Some ==> moved_to(s, dest) == s && later_cycled(s) == s,
        (forall|x: ItemModel| !#[trigger] holds_task(s, s.cursor, x)) ==> moved_to(s, dest) == s
            && later_cycled(s) == s,
        holds_task(s, s.cursor, it) && s.sub is None && is_done(s.lines[it.start]) ==> {
            let told = State { status: "item is done — untick it first"@, ..s };
            moved_to(s, dest) == told && later_cycled(s) == told
        },
{
    law_what_can_be_moved(s, it, 0, it);
    if let Some(x) = item_under(s) {
        assert(holds_task(s, s.cursor, x));
    }
}

// ---------------------------------------------------------------------------------
// Done

/// Completing an open task sets its block, its line checked and stamped, right under the
/// first Done heading. Where there is none, one is created at the end. Nothing else changes.
pub proof fn law_task_goes_on_top_of_done(s: State, it: ItemModel, stamp: Seq<char>)
    requires
        holds_task(s, s.cursor, it),
        !is_done(s.lines[it.start]),
    ensures
        exists|x: Seq<Seq<char>>, z: Seq<Seq<char>>|
            {
                &&& #[trigger] set_between(
                    toggled(s, stamp).lines,
                    x,
                    seq![completed(s.lines[it.start], stamp)] + own_block(s.lines, it).skip(1),
                    z,
                )
                &&& ends_in_heading(x, "Done"@)
                &&& named_in(s.lines, "Done"@) ==> x + z == rest_of(s.lines, it)
                &&& !named_in(s.lines, "Done"@) ==> x == rest_of(s.lines, it).push("## Done"@)
                    && z.len() == 0
            },
{
    reveal_strlit("Done");
    reveal_strlit("later");
    reveal_strlit("## ");
    reveal_strlit("## Done");
    law_selected_line(s, it, it.start);
    law_completed_on_top_of_done(s, stamp);
    lemma_item_is_block(s);
    let lines = s.lines;
    let name = "Done"@;
    let l = completed(lines[it.start], stamp);
    let to = toggled(s, stamp).lines;
    let block = block_with(lines, it, l);
    let u = lines.update(it.start, l);
    let placed = ensured(u, name);
    let (start, end) = (it.start, it.start + it.len);
    let (a, c) = choose|a: Seq<Seq<char>>, c: Seq<Seq<char>>|
        {
            &&& #[trigger] set_between(to, a, block, c)
            &&& ends_in_heading(a, name)
            &&& a + c == solid(without(placed.lines, start, end))
        };
    assert(block =~= seq![l] + own_block(lines, it).skip(1));
    lemma_completed(lines[start], stamp);
    lemma_block_updated(lines, start, end, l);
    lemma_named_in(lines, name);
    lemma_named_in(u, name);
    lemma_top_not_blank(l);
    lemma_top_not_blank(lines[start]);
    // The task's line is no heading, before and after.
    assert(named_in(u, name) == named_in(lines, name)) by {
        if named_in(lines, name) {
            let h = choose|h: int| 0 <= h < lines.len() && heading_named(#[trigger] lines[h], name);
            assert(u[h] == lines[h]);
        }
        if named_in(u, name) {
            let h = choose|h: int| 0 <= h < u.len() && heading_named(#[trigger] u[h], name);
            assert(u[h] == lines[h]);
        }
    }
    assert(rest_of(u, it) == rest_of(lines, it)) by {
        assert(u.take(start) =~= lines.take(start));
        assert(u.skip(end) =~= lines.skip(end));
    }
    if named_in(lines, name) {
        lemma_solid_concat(u.take(start), u.skip(end));
        assert(a + c == rest_of(lines, it));
    } else {
        lemma_solid_at_end(u, it, name);
        let rest = rest_of(lines, it);
        assert("## "@ + name =~= "## Done"@);
        let h = "## Done"@;
        assert(without(placed.lines, start, end) == placed_without(placed, it));
        assert(a + c == rest.push(h));
        lemma_trimmed(name);
        lemma_new_heading_named(name);
        assert forall|i: int| 0 <= i < rest.len() implies !heading_named(
            #[trigger] rest[i],
            name,
        ) by {
            let w = lines.take(start) + lines.skip(end);
            lemma_solid_concat(lines.take(start), lines.skip(end));
            lemma_solid_from(w, i);
            let k = choose|k: int| 0 <= k < w.len() && w[k] == rest[i];
            let j = if k < start {
                k
            } else {
                k + it.len
            };
            assert(lines[j] == rest[i]);
        }
        assert(ends_in_heading(rest.push(h), name));
        let none = Seq::<Seq<char>>::empty();
        assert(rest.push(h) + none =~= rest.push(h));
        lemma_one_heading_cut(a, c, rest.push(h), none, name);
    }
    assert(set_between(to, a, seq![l] + own_block(lines, it).skip(1), c));
}

/// Opening a done task sets its block, its line opened again, at the end of Todo. Nothing
/// else changes.
pub proof fn law_task_comes_back_to_todo(s: State, it: ItemModel, stamp: Seq<char>)
    requires
        holds_task(s, s.cursor, it),
        is_done(s.lines[it.start]),
    ensures
        exists|x: Seq<Seq<char>>, z: Seq<Seq<char>>|
            {
                &&& #[trigger] set_between(
                    toggled(s, stamp).lines,
                    x,
                    seq![reopened(s.lines[it.start])] + own_block(s.lines, it).skip(1),
                    z,
                )
                &&& ends_top(x, z)
                &&& x + z == rest_of(s.lines, it)
            },
{
    law_selected_line(s, it, it.start);
    law_reopened_at_end_of_todo(s, stamp);
    lemma_item_is_block(s);
    let l = reopened(s.lines[it.start]);
    let to = toggled(s, stamp).lines;
    let block = block_with(s.lines, it, l);
    let (a, c) = choose|a: Seq<Seq<char>>, c: Seq<Seq<char>>|
        {
            &&& #[trigger] set_between(to, a, block, c)
            &&& ends_top(a, c)
            &&& a + c == solid(without(s.lines, it.start, it.start + it.len))
        };
    assert(block =~= seq![l] + own_block(s.lines, it).skip(1));
    lemma_solid_concat(s.lines.take(it.start), s.lines.skip(it.start + it.len));
    assert(set_between(to, a, seq![l] + own_block(s.lines, it).skip(1), c));
}

/// Completing or opening a task leaves everything but the lines, what undo remembers, the
/// status and a selection out of range as it is; without a task under the cursor nothing
/// changes.
pub proof fn law_toggle_keeps_the_rest(s: State, stamp: Seq<char>)
    requires
        s.cursor >= 0,
    ensures
        ({
            let t = toggled(s, stamp);
            &&& t == (State { lines: t.lines, undo: t.undo, status: t.status, cursor: t.cursor, sub:
                t.sub, ..s })
            &&& s.cursor < entries_of(t).len() ==> t.cursor == s.cursor
            &&& (forall|x: ItemModel| !#[trigger] holds_task(s, s.cursor, x)) ==> t == s
        }),
{
    let t = toggled(s, stamp);
    if let Some(it) = item_under(s) {
        assert(holds_task(s, s.cursor, it));
        let bare = State {
            lines: t.lines,
            undo: t.undo,
            status: t.status,
            ..s
        };
        lemma_entries_same(bare, t, t.lines.len() as int);
    }
}

} // verus!
