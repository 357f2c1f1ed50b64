//! The blank lines between lines that stay are kept where they are, but for what tidying does.
use crate::app::{lemma_item_under, DestModel, State};
use crate::blocks::{
    is_block, lemma_block_created, lemma_block_ensured, lemma_block_updated, lemma_clear_of_block,
    lemma_completed, lemma_heading_index, lemma_item_is_block, lemma_reopened,
};
use crate::laws::entries::{holds_task, law_selected_line, law_what_can_be_moved};
use crate::laws::moves::{
    law_move_carries_block, lemma_ends_section, lemma_ends_top, lemma_first_named,
    lemma_same_block_created, lemma_same_block_ensured, lemma_trimmed, lemma_under_heading,
    moved_after, moved_before, own_block, placed_without,
};
use crate::laws::sections::named_in;
use crate::laws::tidy::{is_tidy, law_tidied_is_tidy};
use crate::lines::without;
use crate::moves::{later_cycled, moved_to};
use crate::outline::{
    created, end_of_section, ensured, has_heading, heading_index, lemma_top_not_blank, moved,
    past_blanks, shifted, tidied, top_end, ItemModel,
};
use crate::prompt::{added, deleted, new_task};
use crate::search::lemma_first_from;
use crate::task::{completed, heading_named, is_done, reopened};
use crate::text::{same_letters, trim};
use crate::toggle::toggled;
use vstd::prelude::*;

verus! {

/// Whether lines are a block with `b` before it and `a` behind it, tidied.
pub open spec fn put_between(
    to: Seq<Seq<char>>,
    b: Seq<Seq<char>>,
    block: Seq<Seq<char>>,
    a: Seq<Seq<char>>,
) -> bool {
    to == tidied(b + block + a)
}

/// Whether lines are others with the heading of a section put in, and blank lines beside it.
pub open spec fn headed(rest: Seq<Seq<char>>, lines: Seq<Seq<char>>, name: Seq<char>) -> bool {
    let h = "## "@ + name;
    let empty = Seq::<char>::empty();
    ||| lines == rest + seq![empty, h, empty]
    ||| exists|p: int|
        0 <= p <= rest.len() && lines == #[trigger] rest.take(p) + seq![h, empty] + rest.skip(p)
}

/// The lines beside an item's block, blank ones and all.
pub open spec fn beside_block(lines: Seq<Seq<char>>, it: ItemModel) -> Seq<Seq<char>> {
    lines.take(it.start) + lines.skip(it.start + it.len)
}

/// Whether `to` is `from` with an item's block taken out and another put in somewhere, tidied,
/// and where there is no heading with this name, with one put in.
pub open spec fn only_moves(
    from: Seq<Seq<char>>,
    it: ItemModel,
    to: Seq<Seq<char>>,
    block: Seq<Seq<char>>,
    name: Option<Seq<char>>,
) -> bool {
    exists|b: Seq<Seq<char>>, a: Seq<Seq<char>>|
        {
            &&& #[trigger] put_between(to, b, block, a)
            &&& name is None || named_in(from, name->0) ==> b + a == beside_block(from, it)
            &&& name is Some && !named_in(from, name->0) ==> headed(
                beside_block(from, it),
                b + a,
                name->0,
            )
        }
}

proof fn lemma_named(lines: Seq<Seq<char>>, name: Seq<char>)
    ensures
        named_in(lines, name) == has_heading(lines, name),
{
    let q = |l: Seq<char>| heading_named(l, name);
    lemma_first_from(lines, 0, q);
    if has_heading(lines, name) {
        assert(heading_named(lines[heading_index(lines, name)], name));
    } else if named_in(lines, name) {
        let h = choose|h: int| 0 <= h < lines.len() && heading_named(#[trigger] lines[h], name);
        assert(!q(lines[h]));
    }
}

/// The lines beside a block after a section was looked for and, if missing, created.
proof fn lemma_placed(lines: Seq<Seq<char>>, it: ItemModel, name: Seq<char>)
    requires
        is_block(lines, it.start, it.start + it.len),
    ensures
        ({
            let rest = beside_block(lines, it);
            &&& named_in(lines, name) ==> placed_without(created(lines, name), it) == rest
                && placed_without(ensured(lines, name), it) == rest
            &&& !named_in(lines, name) ==> headed(
                rest,
                placed_without(created(lines, name), it),
                name,
            ) && headed(rest, placed_without(ensured(lines, name), it), name)
        }),
{
    lemma_named(lines, name);
    let rest = beside_block(lines, it);
    let (start, end) = (it.start, it.start + it.len);
    let h = "## "@ + name;
    let empty = Seq::<char>::empty();
    lemma_heading_index(lines, name);
    lemma_heading_index(lines, "done"@);
    lemma_heading_index(lines, "later"@);
    let c = created(lines, name);
    let e = ensured(lines, name);
    if named_in(lines, name) {
        assert(placed_without(c, it) =~= rest);
        assert(placed_without(e, it) =~= rest);
    } else {
        lemma_clear_of_block(lines, start, end, c.at);
        let p = if start >= c.at {
            c.at
        } else {
            c.at - it.len
        };
        assert(placed_without(c, it) =~= rest.take(p) + seq![h, empty] + rest.skip(p));
        if same_letters(name, "later"@) && has_heading(lines, "done"@) {
            lemma_clear_of_block(lines, start, end, e.at);
            let q = if start >= e.at {
                e.at
            } else {
                e.at - it.len
            };
            assert(placed_without(e, it) =~= rest.take(q) + seq![h, empty] + rest.skip(q));
        } else {
            assert(placed_without(e, it) =~= rest + seq![empty, h, empty]);
        }
    }
}

proof fn lemma_carried(
    from: Seq<Seq<char>>,
    it: ItemModel,
    lines: Seq<Seq<char>>,
    start: int,
    dest: int,
    to: Seq<Seq<char>>,
    block: Seq<Seq<char>>,
    name: Option<Seq<char>>,
)
    requires
        0 < it.len,
        0 <= start,
        start + it.len <= lines.len(),
        0 <= dest <= lines.len(),
        dest <= start || dest >= start + it.len,
        to == tidied(moved(lines, start, it.len, dest)),
        block == lines.subrange(start, start + it.len),
        name is None || named_in(from, name->0) ==> without(lines, start, start + it.len)
            == beside_block(from, it),
        name is Some && !named_in(from, name->0) ==> headed(
            beside_block(from, it),
            without(lines, start, start + it.len),
            name->0,
        ),
    ensures
        only_moves(from, it, to, block, name),
{
    let end = start + it.len;
    law_move_carries_block(lines, start, end, dest);
    let b = moved_before(lines, start, end, dest);
    let a = moved_after(lines, start, end, dest);
    assert(put_between(to, b, block, a));
}

/// Moving an open task to Todo, to Later or to a section of the user's takes its block out and
/// puts it in elsewhere; all other lines stay, the blank ones between them too, but for what
/// tidying does, and for the heading of a section that is created.
pub proof fn law_moves_keep_blank_lines(s: State, it: ItemModel, name: Seq<char>)
    requires
        holds_task(s, s.cursor, it),
        s.sub is None,
        !is_done(s.lines[it.start]),
        trim(name) == name,
    ensures
        only_moves(
            s.lines,
            it,
            moved_to(s, DestModel::Todo).lines,
            own_block(s.lines, it),
            None,
        ),
        only_moves(
            s.lines,
            it,
            moved_to(s, DestModel::Later).lines,
            own_block(s.lines, it),
            Some("Later"@),
        ),
        only_moves(
            s.lines,
            it,
            moved_to(s, DestModel::Section(name)).lines,
            own_block(s.lines, it),
            Some(name),
        ),
{
    reveal_strlit("Later");
    reveal_strlit("later");
    law_what_can_be_moved(s, it, 0, it);
    lemma_item_is_block(s);
    let lines = s.lines;
    let (start, end) = (it.start, it.start + it.len);
    let block = own_block(lines, it);
    lemma_ends_top(lines, start, end);
    lemma_carried(
        lines,
        it,
        lines,
        start,
        top_end(lines),
        moved_to(s, DestModel::Todo).lines,
        block,
        None,
    );
    let later = "Later"@;
    lemma_trimmed(later);
    lemma_placed(lines, it, later);
    lemma_placed(lines, it, name);
    lemma_block_ensured(lines, start, end, later);
    lemma_first_named(lines, later);
    lemma_same_block_ensured(lines, it, later);
    let p = ensured(lines, later);
    let at = shifted(start, p);
    lemma_ends_section(p, at, at + it.len, later);
    lemma_carried(
        lines,
        it,
        p.lines,
        at,
        end_of_section(p.lines, p.at),
        moved_to(s, DestModel::Later).lines,
        block,
        Some(later),
    );
    lemma_block_created(lines, start, end, name);
    lemma_first_named(lines, name);
    lemma_same_block_created(lines, it, name);
    let q = created(lines, name);
    let st = shifted(start, q);
    lemma_ends_section(q, st, st + it.len, name);
    lemma_carried(
        lines,
        it,
        q.lines,
        st,
        end_of_section(q.lines, q.at),
        moved_to(s, DestModel::Section(name)).lines,
        block,
        Some(name),
    );
}

/// Completing a task, or opening it again, takes its block out and puts it in elsewhere, its
/// line changed; all other lines stay, the blank ones between them too, but for what tidying
/// does, and for the Done heading where it is created.
pub proof fn law_toggle_keeps_blank_lines(s: State, it: ItemModel, stamp: Seq<char>)
    requires
        holds_task(s, s.cursor, it),
    ensures
        !is_done(s.lines[it.start]) ==> only_moves(
            s.lines,
            it,
            toggled(s, stamp).lines,
            seq![completed(s.lines[it.start], stamp)] + own_block(s.lines, it).skip(1),
            Some("Done"@),
        ),
        is_done(s.lines[it.start]) ==> only_moves(
            s.lines,
            it,
            toggled(s, stamp).lines,
            seq![reopened(s.lines[it.start])] + own_block(s.lines, it).skip(1),
            None,
        ),
{
    reveal_strlit("Done");
    reveal_strlit("later");
    law_selected_line(s, it, it.start);
    lemma_item_is_block(s);
    let lines = s.lines;
    let (start, end) = (it.start, it.start + it.len);
    let done = is_done(lines[start]);
    let l = if done {
        reopened(lines[start])
    } else {
        completed(lines[start], stamp)
    };
    lemma_reopened(lines[start]);
    lemma_completed(lines[start], stamp);
    lemma_block_updated(lines, start, end, l);
    let u = lines.update(start, l);
    let block = seq![l] + own_block(lines, it).skip(1);
    assert(u.subrange(start, end) =~= block);
    assert(beside_block(u, it) =~= beside_block(lines, it));
    let to = toggled(s, stamp).lines;
    if done {
        lemma_ends_top(u, start, end);
        lemma_carried(lines, it, u, start, top_end(u), to, block, None);
    } else {
        let name = "Done"@;
        lemma_trimmed(name);
        lemma_block_ensured(u, start, end, name);
        lemma_first_named(u, name);
        lemma_placed(u, it, name);
        lemma_same_block_ensured(u, it, name);
        lemma_top_not_blank(l);
        lemma_top_not_blank(lines[start]);
        assert(named_in(u, name) == named_in(lines, name)) by {
            if named_in(lines, name) {
                let h = choose|h: int|
                    0 <= h < lines.len() && heading_named(#[trigger] lines[h], name);
                assert(u[h] == lines[h]);
            }
            if named_in(u, name) {
                let h = choose|h: int| 0 <= h < u.len() && heading_named(#[trigger] u[h], name);
                assert(u[h] == lines[h]);
            }
        }
        let p = ensured(u, name);
        lemma_under_heading(p, start, end, name);
        lemma_carried(
            lines,
            it,
            p.lines,
            start,
            past_blanks(p.lines, p.at),
            to,
            block,
            Some(name),
        );
    }
}

/// After a task was moved, completed, opened, added, reordered or deleted with its block, the
/// blank lines of the file are in order.
pub proof fn law_changes_leave_tidy_lines(
    s: State,
    it: ItemModel,
    stamp: Seq<char>,
    text: Seq<char>,
    dest: DestModel,
)
    requires
        holds_task(s, s.cursor, it),
        s.sub is None,
    ensures
        is_tidy(toggled(s, stamp).lines),
        is_tidy(added(s, text).lines),
        is_tidy(deleted(s).lines),
        !is_done(s.lines[it.start]) && dest != DestModel::NewSection ==> is_tidy(
            moved_to(s, dest).lines,
        ),
        !is_done(s.lines[it.start]) ==> is_tidy(later_cycled(s).lines),
{
    law_selected_line(s, it, it.start);
    law_what_can_be_moved(s, it, 0, it);
    lemma_item_under(s);
    let lines = s.lines;
    let l = completed(lines[it.start], stamp);
    let r = reopened(lines[it.start]);
    let p = ensured(lines.update(it.start, l), "Done"@);
    law_tidied_is_tidy(
        moved(p.lines, it.start, it.len, past_blanks(p.lines, p.at)),
    );
    let u = lines.update(it.start, r);
    law_tidied_is_tidy(moved(u, it.start, it.len, top_end(u)));
    law_tidied_is_tidy(lines.insert(top_end(lines), new_task(text)));
    law_tidied_is_tidy(without(lines, it.start, it.start + it.len));
    law_tidied_is_tidy(moved(lines, it.start, it.len, top_end(lines)));
    let later = ensured(lines, "Later"@);
    law_tidied_is_tidy(
        moved(
            later.lines,
            shifted(it.start, later),
            it.len,
            end_of_section(later.lines, later.at),
        ),
    );
    if let DestModel::Section(name) = dest {
        let q = created(lines, name);
        law_tidied_is_tidy(
            moved(
                q.lines,
                shifted(it.start, q),
                it.len,
                end_of_section(q.lines, q.at),
            ),
        );
    }
}

} // verus!
