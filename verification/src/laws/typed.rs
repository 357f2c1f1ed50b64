//! What is typed as the notes of a task stands under that task, indented, and nowhere else.
use crate::app::{
    entries_of, entry_at, entry_line, item_under, lemma_entries, lemma_item_under, State,
};
use crate::blocks::is_block;
use crate::bytes::{byte_len, cut_from, indent_bytes, lemma_byte_len_push, width};
use crate::laws::entries::{holds_task, law_selected_line};
use crate::laws::moves::own_block;
use crate::laws::notes::{lemma_cut_in_lead, lemma_line_comes_back, lemma_source};
use crate::laws::reorder::{lemma_before_task, lemma_entry_by_count};
use crate::laws::sections::rest_of;
use crate::laws::tidy::{
    law_tidy_keeps_lines, lemma_solid_blank, lemma_solid_concat, lemma_solid_from, lemma_solid_push,
    solid,
};
use crate::laws::toggle::{ends_block, lemma_behind_block, lemma_one_block};
use crate::notes::{
    block_indent, common_front, dedented, indented_line, least_indent, margin_of, notes_closed,
    notes_of, notes_openable, notes_opened, source_of, typed_block, with_block,
};
use crate::outline::{
    block_end, item_at, lemma_block_end, lemma_top_not_blank, tidied, under, ItemModel,
};
use crate::search::{back_from, lemma_back_from, lemma_first_from};
use crate::task::{behind_box, title_of};
use crate::text::{is_blank, is_space, lead, repeat};
use vstd::prelude::*;

verus! {

/// Whether `n` is the indentation of an item's block, in bytes: the least of those of its
/// lines that are not blank, or two where there is none.
pub open spec fn indents_by(lines: Seq<Seq<char>>, it: ItemModel, n: int) -> bool {
    &&& forall|j: int|
        it.start < j < it.start + it.len && !is_blank(#[trigger] lines[j]) ==> n <= indent_bytes(
            lines[j],
        )
    &&& {
        ||| exists|j: int|
            it.start < j < it.start + it.len && !is_blank(#[trigger] lines[j]) && n == indent_bytes(
                lines[j],
            )
        ||| {
            &&& n == 2
            &&& forall|j: int|
                it.start < j < it.start + it.len ==> is_blank(#[trigger] lines[j])
        }
    }
}

proof fn lemma_least(lines: Seq<Seq<char>>, from: int, to: int)
    requires
        from <= to,
    ensures
        match least_indent(lines, from, to) {
            Some(n) => {
                &&& forall|j: int|
                    from <= j < to && !is_blank(#[trigger] lines[j]) ==> n <= indent_bytes(lines[j])
                &&& exists|j: int|
                    from <= j < to && !is_blank(#[trigger] lines[j]) && n == indent_bytes(lines[j])
            },
            None => forall|j: int| from <= j < to ==> is_blank(#[trigger] lines[j]),
        },
    decreases to - from,
{
    if from < to {
        lemma_least(lines, from, to - 1);
        let l = lines[to - 1];
        if !is_blank(l) {
            if let Some(m) = least_indent(lines, from, to - 1) {
                let j = choose|j: int|
                    from <= j < to - 1 && !is_blank(#[trigger] lines[j]) && m == indent_bytes(
                        lines[j],
                    );
                assert(!is_blank(lines[j]));
            }
        }
    }
}

proof fn lemma_width(c: char)
    ensures
        width(c) >= 1,
{
}

proof fn lemma_bytes_at_least(s: Seq<char>)
    ensures
        byte_len(s) >= s.len(),
    decreases s.len(),
{
    if s.len() > 0 {
        let rest = s.drop_last();
        lemma_bytes_at_least(rest);
        lemma_byte_len_push(rest, s.last());
        lemma_width(s.last());
        assert(s =~= rest.push(s.last()));
    }
}

/// The indentation of a block is at least one: its lines are indented.
pub proof fn lemma_indent(lines: Seq<Seq<char>>, it: ItemModel)
    requires
        0 < it.len,
        forall|j: int| it.start < j < it.start + it.len ==> under(#[trigger] lines[j]),
    ensures
        indents_by(lines, it, block_indent(lines, it)),
        block_indent(lines, it) >= 1,
{
    let (from, to) = (it.start + 1, it.start + it.len);
    lemma_least(lines, from, to);
    if let Some(n) = least_indent(lines, from, to) {
        let j = choose|j: int|
            from <= j < to && !is_blank(#[trigger] lines[j]) && n == indent_bytes(lines[j]);
        let l = lines[j];
        assert(under(l));
        let q = |c: char| !is_space(c);
        lemma_first_from(l, 0, q);
        if lead(l) == 0 {
            assert(l.len() > 0);
            assert(q(l[0]));
        }
        lemma_bytes_at_least(l.take(lead(l)));
    }
}

/// What is taken away from an indented line is whitespace, and not nothing.
proof fn lemma_margin(l: Seq<char>, n: int)
    requires
        !is_blank(l),
        1 <= n <= indent_bytes(l),
    ensures
        is_blank(margin_of(l, n)),
        margin_of(l, n).len() > 0,
{
    let q = |c: char| !is_space(c);
    lemma_first_from(l, 0, q);
    lemma_cut_in_lead(l, n, 0);
    assert(l.take(0) =~= Seq::<char>::empty());
    assert(byte_len(Seq::<char>::empty()) == 0);
    assert(l.len() > 0);
    assert(cut_from(l, n, 0) == cut_from(l, n, 1));
    if lead(l) == 0 {
        assert(l.take(lead(l)) =~= Seq::<char>::empty());
    }
    lemma_cut_in_lead(l, n, 1);
    let m = margin_of(l, n);
    assert forall|i: int| 0 <= i < m.len() implies is_space(#[trigger] m[i]) by {
        assert(!q(l[i]));
    }
}

/// What the editor holds when the notes of a task are opened: its block, each line without the
/// block's indentation, and over it the task's title. Nothing else changes.
pub proof fn law_editor_holds_the_block(s: State, it: ItemModel)
    requires
        holds_task(s, s.cursor, it),
        notes_openable(s),
    ensures
        ({
            let t = notes_opened(s);
            let notes = t.notes->0;
            &&& t.notes is Some
            &&& t == (State { notes: t.notes, ..s })
            &&& notes.title == title_of(behind_box(s.lines[it.start]))
            &&& notes.text.len() == it.len - 1
            &&& forall|i: int|
                0 <= i < notes.text.len() ==> cut_off(
                    s.lines,
                    it,
                    s.lines[it.start + 1 + i],
                    #[trigger] notes.text[i],
                )
        }),
{
    law_selected_line(s, it, it.start);
    lemma_item_under(s);
    lemma_block_end(s.lines, it.start);
    lemma_indent(s.lines, it);
    let notes = notes_of(s.lines, it);
    let n = block_indent(s.lines, it);
    assert forall|i: int| 0 <= i < notes.text.len() implies cut_off(
        s.lines,
        it,
        s.lines[it.start + 1 + i],
        #[trigger] notes.text[i],
    ) by {
        let l = s.lines[it.start + 1 + i];
        lemma_line_comes_back(l, n);
        assert(notes.text[i] == dedented(l, n));
        if !is_blank(l) {
            assert(n <= indent_bytes(l));
            lemma_margin(l, n);
            assert(byte_len(margin_of(l, n)) == n);
        }
        assert(removed(l, notes.text[i], margin_of(l, n)));
    }
}

/// Whether a line is another one with `w` before it.
pub open spec fn removed(l: Seq<char>, rest: Seq<char>, w: Seq<char>) -> bool {
    l == w + rest
}

/// Whether `rest` is a line of an item's block without the block's indentation; of a blank
/// line it is some part.
pub open spec fn cut_off(
    lines: Seq<Seq<char>>,
    it: ItemModel,
    l: Seq<char>,
    rest: Seq<char>,
) -> bool {
    exists|w: Seq<char>|
        #[trigger] removed(l, rest, w) && (!is_blank(l) ==> is_blank(w) && indents_by(
            lines,
            it,
            byte_len(w) as int,
        ))
}

/// Whether a line is one that was typed, behind this whitespace.
pub open spec fn indented(l: Seq<char>, typed: Seq<char>, w: Seq<char>) -> bool {
    l == w + typed && w.len() > 0 && is_blank(w)
}

/// Whether a line is a typed one as it is to stand under a task: either it is a line that was
/// in the block before, or it stands behind as many blanks as the block is indented by.
pub open spec fn stands_for(
    lines: Seq<Seq<char>>,
    it: ItemModel,
    l: Seq<char>,
    typed: Seq<char>,
) -> bool {
    exists|w: Seq<char>|
        {
            &&& #[trigger] indented(l, typed, w)
            &&& {
                ||| indents_by(lines, it, w.len() as int) && forall|i: int|
                    0 <= i < w.len() ==> #[trigger] w[i] == ' '
                ||| exists|j: int| it.start < j < it.start + it.len && #[trigger] lines[j] == l
            }
            &&& it.len == 1 ==> w == seq![' ', ' ']
        }
}

/// Whether a block is what was typed, line for line, up to the last line that is not blank:
/// a blank line is empty there, any other stands indented.
pub open spec fn stands_typed(
    lines: Seq<Seq<char>>,
    it: ItemModel,
    typed: Seq<Seq<char>>,
    block: Seq<Seq<char>>,
) -> bool {
    &&& block.len() <= typed.len()
    &&& block.len() > 0 ==> !is_blank(typed[block.len() - 1])
    &&& forall|i: int| block.len() <= i < typed.len() ==> is_blank(#[trigger] typed[i])
    &&& forall|i: int|
        0 <= i < block.len() ==> if is_blank(typed[i]) {
            (#[trigger] block[i]).len() == 0
        } else {
            stands_for(lines, it, block[i], typed[i])
        }
}

proof fn lemma_typed_line(s: State, it: ItemModel, typed: Seq<Seq<char>>, i: int)
    requires
        holds_task(s, s.cursor, it),
        0 <= i < typed.len(),
        !is_blank(typed[i]),
    ensures
        stands_for(
            s.lines,
            it,
            indented_line(notes_of(s.lines, it), typed, i),
            typed[i],
        ),
{
    law_selected_line(s, it, it.start);
    lemma_item_under(s);
    lemma_block_end(s.lines, it.start);
    lemma_indent(s.lines, it);
    let notes = notes_of(s.lines, it);
    let n = block_indent(s.lines, it);
    let k = source_of(notes.text, typed, i);
    let l = indented_line(notes, typed, i);
    lemma_source(notes.text, typed, i);
    if k < notes.text.len() {
        let old = s.lines[it.start + 1 + k];
        lemma_line_comes_back(old, n);
        assert(notes.text[k] == dedented(old, n));
        assert(notes.margin[k] == margin_of(old, n));
        let w = margin_of(old, n);
        if is_blank(old) {
            let d = dedented(old, n);
            assert forall|j: int| 0 <= j < d.len() implies is_space(#[trigger] d[j]) by {
                assert(old[old.len() - d.len() + j] == d[j]);
            }
        }
        assert(n <= indent_bytes(old));
        lemma_margin(old, n);
        assert(l == old);
        assert(indented(l, typed[i], w));
        assert(s.lines[it.start + 1 + k] == l);
    } else {
        let w = repeat(' ', n as nat);
        assert(w.len() == n);
        assert forall|j: int| 0 <= j < w.len() implies is_space(#[trigger] w[j]) by {}
        assert(indented(l, typed[i], w));
        if it.len == 1 {
            assert(w =~= seq![' ', ' ']);
        }
    }
}

pub proof fn lemma_front(a: Seq<Seq<char>>, b: Seq<Seq<char>>, n: int, i: int)
    requires
        0 <= i <= n <= a.len(),
        n <= b.len(),
        forall|j: int| 0 <= j < n ==> #[trigger] a[j] == b[j],
    ensures
        common_front(a, b, i) >= n,
    decreases n - i,
{
    if i < n {
        lemma_front(a, b, n, i + 1);
    } else {
        lemma_front_up(a, b, i);
    }
}

proof fn lemma_front_up(a: Seq<Seq<char>>, b: Seq<Seq<char>>, i: int)
    ensures
        common_front(a, b, i) >= i,
    decreases a.len() - i,
{
    if i < a.len() && i < b.len() && a[i] == b[i] {
        lemma_front_up(a, b, i + 1);
    }
}

/// The lines above the first that was edited stand as they stood, whatever they are indented
/// with.
pub proof fn law_lines_above_an_edit_stay(
    s: State,
    it: ItemModel,
    typed: Seq<Seq<char>>,
    n: int,
)
    requires
        holds_task(s, s.cursor, it),
        notes_openable(s),
        0 <= n <= typed.len(),
        n <= notes_opened(s).notes->0.text.len(),
        forall|j: int|
            0 <= j < n ==> #[trigger] typed[j] == notes_opened(s).notes->0.text[j],
    ensures
        exists|block: Seq<Seq<char>>|
            {
                &&& #[trigger] stands_typed(s.lines, it, typed, block)
                &&& notes_closed(notes_opened(s), typed).lines == tidied(
                    s.lines.take(it.start + 1) + block + s.lines.skip(it.start + it.len),
                )
                &&& forall|j: int|
                    0 <= j < n && j < block.len() && !is_blank(typed[j]) ==> #[trigger] block[j]
                        == s.lines[it.start + 1 + j]
            },
{
    law_selected_line(s, it, it.start);
    lemma_item_under(s);
    let notes = notes_of(s.lines, it);
    let block = typed_block(notes, typed);
    lemma_written(s, it, typed);
    lemma_front(notes.text, typed, n, 0);
    assert forall|j: int| 0 <= j < n && j < block.len() && !is_blank(typed[j]) implies
        #[trigger] block[j] == s.lines[it.start + 1 + j] by {
        let l = s.lines[it.start + 1 + j];
        let p = |l: Seq<char>| !is_blank(l);
        let raw = Seq::new(typed.len(), |i: int| indented_line(notes, typed, i));
        lemma_back_from(raw, raw.len() as int, p);
        assert(block[j] == raw[j]);
        lemma_line_comes_back(l, notes.indent);
        assert(notes.text[j] == dedented(l, notes.indent));
        assert(notes.margin[j] == margin_of(l, notes.indent));
    }
}

/// Closing the notes of a task writes what was typed under that task: each line that is not
/// blank behind whitespace, in the order typed, in place of the block that was there. Where
/// there was no block the whitespace is two blanks. Nothing else changes but blank lines.
pub proof fn law_typed_notes_are_written(s: State, it: ItemModel, typed: Seq<Seq<char>>)
    requires
        holds_task(s, s.cursor, it),
        notes_openable(s),
    ensures
        ({
            let t = notes_closed(notes_opened(s), typed);
            &&& exists|block: Seq<Seq<char>>|
                {
                    &&& #[trigger] stands_typed(s.lines, it, typed, block)
                    &&& t.lines == tidied(
                        s.lines.take(it.start + 1) + block + s.lines.skip(it.start + it.len),
                    )
                }
            &&& t == (State { lines: t.lines, undo: t.undo, notes: None, ..s })
        }),
{
    lemma_written(s, it, typed);
}

pub proof fn lemma_written(s: State, it: ItemModel, typed: Seq<Seq<char>>)
    requires
        holds_task(s, s.cursor, it),
    ensures
        ({
            let block = typed_block(notes_of(s.lines, it), typed);
            &&& stands_typed(s.lines, it, typed, block)
            &&& notes_closed(notes_opened(s), typed).lines == tidied(
                s.lines.take(it.start + 1) + block + s.lines.skip(it.start + it.len),
            )
            &&& notes_opened(s).notes == Some(notes_of(s.lines, it))
        }),
{
    law_selected_line(s, it, it.start);
    lemma_item_under(s);
    let notes = notes_of(s.lines, it);
    let raw = Seq::new(typed.len(), |i: int| indented_line(notes, typed, i));
    let p = |l: Seq<char>| !is_blank(l);
    lemma_back_from(raw, raw.len() as int, p);
    let n = back_from(raw, raw.len() as int, p);
    let block = typed_block(notes, typed);
    assert(block == raw.take(n));
    assert forall|i: int| 0 <= i < typed.len() implies is_blank(#[trigger] raw[i]) == is_blank(
        typed[i],
    ) by {
        if !is_blank(typed[i]) {
            lemma_typed_line(s, it, typed, i);
            let w = choose|w: Seq<char>| #[trigger] indented(raw[i], typed[i], w);
            if is_blank(raw[i]) {
                assert forall|j: int| 0 <= j < typed[i].len() implies is_space(
                    #[trigger] typed[i][j],
                ) by {
                    assert(raw[i][w.len() + j] == typed[i][j]);
                }
            }
        }
    }
    assert forall|i: int| 0 <= i < block.len() implies if is_blank(typed[i]) {
        (#[trigger] block[i]).len() == 0
    } else {
        stands_for(s.lines, it, block[i], typed[i])
    } by {
        assert(block[i] == raw[i]);
        if !is_blank(typed[i]) {
            lemma_typed_line(s, it, typed, i);
        }
    }
    if block.len() > 0 {
        assert(p(raw[n - 1]));
    }
    assert forall|i: int| block.len() <= i < typed.len() implies is_blank(#[trigger] typed[i]) by {
        assert(!p(raw[i]));
    }
    assert(stands_typed(s.lines, it, typed, block));
    assert(with_block(s.lines, notes, block) =~= s.lines.take(it.start + 1) + block
        + s.lines.skip(it.start + it.len));
}

/// Whether a line is one that was typed, behind some whitespace.
pub open spec fn behind_blanks(l: Seq<char>, typed: Seq<char>) -> bool {
    exists|w: Seq<char>| #[trigger] indented(l, typed, w)
}

/// Whether lines are those that were typed and are not blank, in the order typed, each behind
/// some whitespace.
pub open spec fn typed_under(lines: Seq<Seq<char>>, typed: Seq<Seq<char>>) -> bool {
    &&& lines.len() == solid(typed).len()
    &&& forall|k: int|
        0 <= k < lines.len() ==> behind_blanks(#[trigger] lines[k], solid(typed)[k])
}

proof fn lemma_typed_under(
    lines: Seq<Seq<char>>,
    it: ItemModel,
    typed: Seq<Seq<char>>,
    block: Seq<Seq<char>>,
    n: int,
)
    requires
        stands_typed(lines, it, typed, block),
        0 <= n <= block.len(),
    ensures
        typed_under(solid(block.take(n)), typed.take(n)),
    decreases n,
{
    let b = block.take(n);
    let t = typed.take(n);
    if n > 0 {
        lemma_typed_under(lines, it, typed, block, n - 1);
        let b0 = block.take(n - 1);
        let t0 = typed.take(n - 1);
        assert(b =~= b0.push(block[n - 1]));
        assert(t =~= t0.push(typed[n - 1]));
        lemma_solid_push(b0, block[n - 1]);
        lemma_solid_push(t0, typed[n - 1]);
        let l = block[n - 1];
        if is_blank(typed[n - 1]) {
            assert(l.len() == 0);
            assert(is_blank(l));
        } else {
            assert(stands_for(lines, it, l, typed[n - 1]));
            let w = choose|w: Seq<char>| #[trigger] indented(l, typed[n - 1], w);
            if is_blank(l) {
                assert forall|j: int| 0 <= j < typed[n - 1].len() implies is_space(
                    #[trigger] typed[n - 1][j],
                ) by {
                    assert(l[w.len() + j] == typed[n - 1][j]);
                }
            }
            assert(solid(b) == solid(b0).push(l));
            assert(solid(t) == solid(t0).push(typed[n - 1]));
            assert(behind_blanks(l, typed[n - 1]));
            assert forall|k: int| 0 <= k < solid(b).len() implies behind_blanks(
                #[trigger] solid(b)[k],
                solid(t)[k],
            ) by {
                if k < solid(b0).len() {
                    assert(solid(b)[k] == solid(b0)[k]);
                    assert(solid(t)[k] == solid(t0)[k]);
                }
            }
        }
    } else {
        assert(solid(b).len() == 0 && solid(t).len() == 0);
    }
}

/// After the notes of a task are closed, the task is still the one under the cursor, and its
/// block is what was typed: every line that is not blank, in the order typed, behind some
/// whitespace, and nothing else. The lines beside the block stay.
pub proof fn law_typed_notes_stand_under_their_task(
    s: State,
    it: ItemModel,
    typed: Seq<Seq<char>>,
)
    requires
        holds_task(s, s.cursor, it),
        notes_openable(s),
    ensures
        ({
            let t = notes_closed(notes_opened(s), typed);
            exists|now: ItemModel|
                {
                    &&& #[trigger] holds_task(t, t.cursor, now)
                    &&& t.lines[now.start] == s.lines[it.start]
                    &&& typed_under(solid(own_block(t.lines, now).skip(1)), typed)
                    &&& rest_of(t.lines, now) == rest_of(s.lines, it)
                }
        }),
{
    law_selected_line(s, it, it.start);
    lemma_item_under(s);
    law_typed_notes_are_written(s, it, typed);
    let t = notes_closed(notes_opened(s), typed);
    let block = choose|block: Seq<Seq<char>>|
        {
            &&& #[trigger] stands_typed(s.lines, it, typed, block)
            &&& t.lines == tidied(
                s.lines.take(it.start + 1) + block + s.lines.skip(it.start + it.len),
            )
        };
    let l = s.lines[it.start];
    let x = s.lines.take(it.start);
    let z = s.lines.skip(it.start + it.len);
    lemma_top_not_blank(l);
    let raw = s.lines.take(it.start + 1) + block + z;
    law_tidy_keeps_lines(raw);
    lemma_solid_concat(s.lines.take(it.start + 1) + block, z);
    lemma_solid_concat(s.lines.take(it.start + 1), block);
    assert(s.lines.take(it.start + 1) =~= x.push(l));
    lemma_solid_push(x, l);
    let y = solid(block) + solid(z);
    assert(solid(t.lines) =~= solid(x).push(l) + y);
    lemma_before_task(s, s.cursor, it);
    lemma_entry_by_count(t, solid(x), l, y, s.cursor);
    let e = entry_line(entries_of(t)[s.cursor]);
    lemma_entries(t, t.lines.len() as int);
    let entry = entries_of(t)[s.cursor];
    assert(entry_at(t, e) == Some(entry));
    let now = entry->Task_0;
    assert(now == item_at(t.lines, e));
    assert(holds_task(t, t.cursor, now));
    // Its block ends where what was typed ends.
    lemma_block_end(t.lines, e);
    let d = block_end(t.lines, e);
    assert(is_block(t.lines, e, d));
    lemma_behind_block(t.lines, e);
    let own = t.lines.subrange(e, d);
    let after = t.lines.skip(d);
    assert(t.lines.skip(e) =~= own + after);
    lemma_solid_concat(own, after);
    let b = seq![l] + solid(block);
    assert(b + solid(z) =~= seq![l] + y);
    // What is written is under the task, and what follows is not.
    assert forall|i: int| 0 < i < b.len() implies under(#[trigger] b[i]) by {
        assert(b[i] == solid(block)[i - 1]);
        lemma_solid_from(block, i - 1);
        let k = choose|k: int| 0 <= k < block.len() && block[k] == b[i];
        if is_blank(typed[k]) {
            assert(block[k].len() == 0);
        } else {
            assert(stands_for(s.lines, it, block[k], typed[k]));
            let w = choose|w: Seq<char>| #[trigger] indented(block[k], typed[k], w);
            assert(block[k][0] == w[0]);
        }
    }
    lemma_block_end(s.lines, it.start);
    assert(is_block(s.lines, it.start, it.start + it.len));
    lemma_behind_block(s.lines, it.start);
    assert(ends_block(b, solid(z)));
    lemma_one_block(b, solid(z), solid(own), solid(after));
    // The task's line aside.
    let none = Seq::<Seq<char>>::empty();
    assert(own =~= seq![l] + own.skip(1));
    lemma_solid_concat(seq![l], own.skip(1));
    lemma_solid_push(none, l);
    assert(seq![l] =~= none.push(l));
    assert(solid(none) =~= none);
    assert(solid(own) == seq![l] + solid(own.skip(1)));
    assert(solid(own.skip(1)) =~= solid(own).skip(1));
    assert(solid(block) =~= b.skip(1));
    assert(own == own_block(t.lines, now));
    // What was typed behind the last line that is not blank is blank.
    lemma_typed_under(s.lines, it, typed, block, block.len() as int);
    assert(block.take(block.len() as int) =~= block);
    let tail = typed.skip(block.len() as int);
    assert(typed =~= typed.take(block.len() as int) + tail);
    assert forall|i: int| 0 <= i < tail.len() implies is_blank(#[trigger] tail[i]) by {
        assert(tail[i] == typed[block.len() + i]);
    }
    lemma_solid_concat(typed.take(block.len() as int), tail);
    lemma_solid_blank(tail);
    assert(solid(typed) =~= solid(typed.take(block.len() as int)));
    assert(rest_of(t.lines, now) == rest_of(s.lines, it));
    assert(typed_under(solid(own_block(t.lines, now).skip(1)), typed));
}

/// Where no task is under the cursor no notes are opened, and where none are open none are
/// written.
pub proof fn law_notes_need_a_task(s: State, typed: Seq<Seq<char>>)
    ensures
        (forall|it: ItemModel| !#[trigger] holds_task(s, s.cursor, it)) ==> notes_opened(s) == s,
        s.notes is None ==> notes_closed(s, typed) == s,
{
    if let Some(it) = item_under(s) {
        assert(holds_task(s, s.cursor, it));
    }
}

} // verus!
