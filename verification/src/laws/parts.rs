//! Sections that are looked for and created, lines that are moved, and how an application
//! starts.
use crate::app::{entries_of, entry_line, initial, reloaded, State, UNDO_DEPTH};
use crate::laws::entries::{holds_task, law_entries_are_what_is_shown, law_what_can_be_moved};
use crate::laws::moves::own_block;
use crate::laws::places::law_first_heading;
use crate::laws::sections::{heads_special, named_in};
use crate::moves::{reordered, sections_of, sections_upto};
use crate::outline::{
    created, ensured, heading_index, lemma_top_not_blank, moved, tidied, ItemModel,
};
use crate::search::lemma_first_from;
use crate::task::{heading_name, heading_named};
use crate::text::same_letters;
use vstd::prelude::*;

verus! {

// ---------------------------------------------------------------------------------
// Sections

/// The sections are the headings with two hashes, all of them, no others, each with its name,
/// in the order of the file.
pub proof fn law_sections_of_a_file(lines: Seq<Seq<char>>)
    ensures
        forall|k: int|
            0 <= k < sections_of(lines).len() ==> {
                let (i, name) = #[trigger] sections_of(lines)[k];
                0 <= i < lines.len() && two_hashes(lines[i]) && name == heading_name(lines[i])
            },
        forall|j: int, k: int|
            0 <= j < k < sections_of(lines).len() ==> (#[trigger] sections_of(lines)[j]).0 < (
            #[trigger] sections_of(lines)[k]).0,
        forall|i: int|
            0 <= i < lines.len() && two_hashes(#[trigger] lines[i]) ==> exists|k: int|
                0 <= k < sections_of(lines).len() && (#[trigger] sections_of(lines)[k]).0 == i,
{
    let all = sections_of(lines);
    lemma_sections(lines, lines.len() as int);
    assert forall|i: int| 0 <= i < lines.len() && two_hashes(#[trigger] lines[i]) implies exists|
        k: int,
    |
        0 <= k < all.len() && (#[trigger] all[k]).0 == i by {
        let k = choose|k: int|
            0 <= k < sections_upto(lines, lines.len() as int).len() && (#[trigger] sections_upto(
                lines,
                lines.len() as int,
            )[k]).0 == i;
        assert(all[k].0 == i);
    }
}

/// Whether a line starts with two hashes and no more.
pub open spec fn two_hashes(l: Seq<char>) -> bool {
    l.len() >= 2 && l[0] == '#' && l[1] == '#' && (l.len() > 2 ==> l[2] != '#')
}

proof fn lemma_sections(lines: Seq<Seq<char>>, n: int)
    requires
        0 <= n <= lines.len(),
    ensures
        forall|k: int|
            0 <= k < sections_upto(lines, n).len() ==> {
                let (i, name) = #[trigger] sections_upto(lines, n)[k];
                0 <= i < n && two_hashes(lines[i]) && name == heading_name(lines[i])
            },
        forall|j: int, k: int|
            0 <= j < k < sections_upto(lines, n).len() ==> (#[trigger] sections_upto(
                lines,
                n,
            )[j]).0 < (#[trigger] sections_upto(lines, n)[k]).0,
        forall|i: int|
            0 <= i < n && two_hashes(#[trigger] lines[i]) ==> exists|k: int|
                0 <= k < sections_upto(lines, n).len() && (#[trigger] sections_upto(
                    lines,
                    n,
                )[k]).0 == i,
    decreases n,
{
    if n > 0 {
        lemma_sections(lines, n - 1);
        let all = sections_upto(lines, n);
        let rest = sections_upto(lines, n - 1);
        assert forall|i: int| 0 <= i < n && two_hashes(#[trigger] lines[i]) implies exists|k: int|
            0 <= k < all.len() && (#[trigger] all[k]).0 == i by {
            if i < n - 1 {
                let k = choose|k: int| 0 <= k < rest.len() && (#[trigger] rest[k]).0 == i;
                assert(all[k].0 == i);
            } else {
                assert(all[all.len() - 1].0 == i);
            }
        }
    }
}

/// A section that is there is found at its first heading, and nothing is created.
pub proof fn law_section_that_is_there(lines: Seq<Seq<char>>, name: Seq<char>, h: int)
    requires
        0 <= h < lines.len(),
        heading_named(lines[h], name),
        forall|i: int| 0 <= i < h ==> !heading_named(#[trigger] lines[i], name),
    ensures
        ensured(lines, name).lines == lines,
        ensured(lines, name).at == h,
        created(lines, name).lines == lines,
        created(lines, name).at == h,
{
    law_first_heading(lines, name, h);
}

/// Later is created right before the first heading of Done. Any other section, and Later
/// where there is no Done, is created at the end, between blank lines.
pub proof fn law_section_is_ensured(lines: Seq<Seq<char>>, name: Seq<char>, d: int)
    requires
        !named_in(lines, name),
    ensures
        ({
            let p = ensured(lines, name);
            let later = same_letters(name, "later"@);
            let done = 0 <= d < lines.len() && heading_named(lines[d], "done"@) && forall|i: int|
                0 <= i < d ==> !heading_named(#[trigger] lines[i], "done"@);
            &&& later && done ==> p.at == d && p.lines == lines.take(d) + seq![
                "## "@ + name,
                Seq::empty(),
            ] + lines.skip(d)
            &&& !later || !named_in(lines, "done"@) ==> p.at == lines.len() + 1 && p.lines == lines
                + seq![Seq::empty(), "## "@ + name, Seq::empty()]
        }),
{
    law_first_heading(lines, name, 0);
    law_first_heading(lines, "done"@, d);
    assert forall|i: int| 0 <= i < lines.len() implies !heading_named(
        #[trigger] lines[i],
        name,
    ) by {}
    let p = ensured(lines, name);
    let done = 0 <= d < lines.len() && heading_named(lines[d], "done"@) && forall|i: int|
        0 <= i < d ==> !heading_named(#[trigger] lines[i], "done"@);
    if same_letters(name, "later"@) && done {
        assert(p.lines =~= lines.take(d) + seq!["## "@ + name, Seq::empty()] + lines.skip(d));
    }
    if !same_letters(name, "later"@) || !named_in(lines, "done"@) {
        if !named_in(lines, "done"@) {
            assert forall|i: int| 0 <= i < lines.len() implies !heading_named(
                #[trigger] lines[i],
                "done"@,
            ) by {}
        }
        assert(p.lines =~= lines + seq![Seq::empty(), "## "@ + name, Seq::empty()]);
    }
}

/// A section of the user's is created right before the first heading of Later or Done, or at
/// the end.
pub proof fn law_section_is_created(lines: Seq<Seq<char>>, name: Seq<char>, p: int)
    requires
        !named_in(lines, name),
        0 <= p <= lines.len(),
        forall|i: int| 0 <= i < p ==> !heads_special(#[trigger] lines[i]),
        p < lines.len() ==> heads_special(lines[p]),
    ensures
        created(lines, name).at == p,
        created(lines, name).lines == lines.take(p) + seq!["## "@ + name, Seq::empty()]
            + lines.skip(p),
{
    law_first_heading(lines, name, 0);
    assert forall|i: int| 0 <= i < lines.len() implies !heading_named(
        #[trigger] lines[i],
        name,
    ) by {}
    let a = |l: Seq<char>| heading_named(l, "later"@);
    let b = |l: Seq<char>| heading_named(l, "done"@);
    lemma_first_from(lines, 0, a);
    lemma_first_from(lines, 0, b);
    let x = heading_index(lines, "later"@);
    let y = heading_index(lines, "done"@);
    if x < lines.len() {
        assert(a(lines[x]));
        assert(heads_special(lines[x]));
    }
    if y < lines.len() {
        assert(b(lines[y]));
        assert(heads_special(lines[y]));
    }
    if p < x && p < y {
        assert(!a(lines[p]) && !b(lines[p]));
    }
    assert(created(lines, name).lines =~= lines.take(p) + seq!["## "@ + name, Seq::empty()]
        + lines.skip(p));
}

// ---------------------------------------------------------------------------------
// Moved lines

/// Lines that are moved stand where they were to go, the others in their order around them.
pub proof fn law_lines_are_moved(lines: Seq<Seq<char>>, start: int, len: int, dest: int)
    requires
        0 <= start,
        0 <= len,
        start + len <= lines.len(),
        0 <= dest <= lines.len(),
    ensures
        ({
            let block = lines.subrange(start, start + len);
            &&& dest <= start ==> moved(lines, start, len, dest) == lines.take(dest) + block
                + lines.subrange(dest, start) + lines.skip(start + len)
            &&& dest >= start + len ==> moved(lines, start, len, dest) == lines.take(start)
                + lines.subrange(start + len, dest) + block + lines.skip(dest)
        }),
{
    let block = lines.subrange(start, start + len);
    if dest <= start {
        assert(moved(lines, start, len, dest) =~= lines.take(dest) + block + lines.subrange(
            dest,
            start,
        ) + lines.skip(start + len));
    }
    if dest >= start + len {
        assert(moved(lines, start, len, dest) =~= lines.take(start) + lines.subrange(
            start + len,
            dest,
        ) + block + lines.skip(dest));
    }
}

/// A task moves past as many entries as asked for: up before the task there, down behind it
/// with its block. The cursor goes with it.
pub proof fn law_task_moves_past_several(s: State, cur: ItemModel, tgt: ItemModel, delta: int)
    requires
        s.sub is None,
        holds_task(s, s.cursor, cur),
        holds_task(s, s.cursor + delta, tgt),
        delta != 0,
    ensures
        ({
            let t = reordered(s, delta);
            &&& delta < 0 ==> tgt.start < cur.start && t.lines == tidied(
                s.lines.take(tgt.start) + own_block(s.lines, cur) + s.lines.subrange(
                    tgt.start,
                    cur.start,
                ) + s.lines.skip(cur.start + cur.len),
            )
            &&& delta > 0 ==> cur.start + cur.len <= tgt.start && t.lines == tidied(
                s.lines.take(cur.start) + s.lines.subrange(
                    cur.start + cur.len,
                    tgt.start + tgt.len,
                ) + own_block(s.lines, cur) + s.lines.skip(tgt.start + tgt.len),
            )
            &&& t.cursor == s.cursor + delta
            &&& t == (State { lines: t.lines, undo: t.undo, cursor: t.cursor, ..s })
        }),
{
    law_what_can_be_moved(s, cur, delta, tgt);
    law_entries_are_what_is_shown(s);
    let all = entries_of(s);
    let a = all[s.cursor];
    let b = all[s.cursor + delta];
    if delta < 0 {
        assert(entry_line(b) < entry_line(a));
        law_lines_are_moved(s.lines, cur.start, cur.len, tgt.start);
    } else {
        assert(entry_line(a) < entry_line(b));
        lemma_top_not_blank(s.lines[tgt.start]);
        assert(cur.start + cur.len <= tgt.start);
        law_lines_are_moved(s.lines, cur.start, cur.len, tgt.start + tgt.len);
    }
}

// ---------------------------------------------------------------------------------
// The start

/// An application starts with the lines of the file, the first entry selected, nothing open,
/// nothing hidden, folded or said, and nothing to undo. Undo goes back a hundred times.
pub proof fn law_start(text: Seq<char>)
    ensures
        ({
            let t = reloaded(initial(), text);
            &&& t.cursor == 0
            &&& t.sub is None
            &&& !t.expand_all && !t.show_help && !t.hide_done
            &&& t.status.len() == 0
            &&& t.notes is None && t.input is None && t.move_menu is None
            &&& t.history is None && t.quit_confirm is None
            &&& t.collapsed == Set::<Seq<char>>::empty()
            &&& t.undo.len() == 0
        }),
        UNDO_DEPTH == 100,
{
}

} // verus!
