//! Blocks: a task and the lines under it, and the places that no block stands across.
use crate::app::{item_under, lemma_item_under, State};
use crate::outline::{
    before_blanks, created, custom_place, ensured, has_heading, heading_index, lemma_block_end,
    lemma_heading_not_blank, lemma_top_not_blank, new_heading, next_section, next_stop, past_blanks,
    shifted, under, with_section_at, with_section_last,
};
use crate::search::{lemma_back_from, lemma_first_from, lemma_first_from_is};
use crate::task::{
    completed, ends_todo, heading, heading_named, is_done, is_task, is_top, lemma_stamp_span,
    mark_pos, reopened, section, stamp_span, unstamped, with_mark,
};
use crate::text::{is_blank, is_space, lead, same_letters, tail};
use vstd::prelude::*;

verus! {

/// Whether the lines from `start` up to `end` are a task and the block under it.
pub open spec fn is_block(lines: Seq<Seq<char>>, start: int, end: int) -> bool {
    &&& 0 <= start < end <= lines.len()
    &&& is_top(lines[start])
    &&& !is_blank(lines[end - 1])
    &&& forall|j: int| start < j < end ==> under(#[trigger] lines[j])
}

/// A heading, and the end of the file, are no place inside a block, and neither is the
/// end of the blank lines before them.
pub proof fn lemma_clear_of_block(lines: Seq<Seq<char>>, start: int, end: int, b: int)
    requires
        is_block(lines, start, end),
        0 <= b <= lines.len(),
        b < lines.len() ==> heading(lines[b]),
    ensures
        b <= start || b >= end,
        before_blanks(lines, b) <= start || before_blanks(lines, b) >= end,
        before_blanks(lines, b) <= b,
{
    let p = |l: Seq<char>| !is_blank(l);
    lemma_back_from(lines, b, p);
    if start < b < end {
        lemma_heading_not_blank(lines[b]);
    }
    if b >= end && before_blanks(lines, b) < end {
        assert(!p(lines[end - 1]));
    }
}

/// The first line after a heading that is not blank is no place inside a block.
pub proof fn lemma_past_clear(lines: Seq<Seq<char>>, start: int, end: int, h: int)
    requires
        is_block(lines, start, end),
        0 <= h < lines.len(),
        heading(lines[h]),
    ensures
        past_blanks(lines, h) <= start || past_blanks(lines, h) >= end,
        past_blanks(lines, h) <= lines.len(),
{
    let p = |l: Seq<char>| !is_blank(l);
    lemma_first_from(lines, h + 1, p);
    lemma_clear_of_block(lines, start, end, h);
    lemma_top_not_blank(lines[start]);
    if h < start && past_blanks(lines, h) > start {
        assert(!p(lines[start]));
    }
}

/// What heads the next section is a heading or the end.
pub proof fn lemma_next_section(lines: Seq<Seq<char>>, i: int)
    requires
        0 <= i <= lines.len(),
    ensures
        i <= next_section(lines, i) <= lines.len(),
        next_section(lines, i) < lines.len() ==> heading(lines[next_section(lines, i)]),
{
    lemma_first_from(lines, i, |l: Seq<char>| section(l));
}

/// What ends a part of Todo is a heading or the end.
pub proof fn lemma_next_stop(lines: Seq<Seq<char>>, i: int)
    requires
        0 <= i <= lines.len(),
    ensures
        i <= next_stop(lines, i) <= lines.len(),
        next_stop(lines, i) < lines.len() ==> heading(lines[next_stop(lines, i)]),
{
    lemma_first_from(lines, i, |l: Seq<char>| ends_todo(l));
}

/// Where a named heading stands.
pub proof fn lemma_heading_index(lines: Seq<Seq<char>>, name: Seq<char>)
    ensures
        0 <= heading_index(lines, name) <= lines.len(),
        has_heading(lines, name) ==> heading_named(lines[heading_index(lines, name)], name),
{
    lemma_first_from(lines, 0, |l: Seq<char>| heading_named(l, name));
}

/// A heading of a new section is a heading.
pub proof fn lemma_new_heading(name: Seq<char>)
    ensures
        heading(new_heading(name)),
        section(new_heading(name)),
{
    reveal_strlit("## ");
}

/// A block is still one, two lines further down where they come before it, after a
/// section's heading was put in before a heading or at the end.
pub proof fn lemma_block_shifts(
    lines: Seq<Seq<char>>,
    start: int,
    end: int,
    at: int,
    name: Seq<char>,
)
    requires
        is_block(lines, start, end),
        0 <= at <= lines.len(),
        at < lines.len() ==> heading(lines[at]),
    ensures
        start >= at ==> is_block(with_section_at(lines, at, name), start + 2, end + 2),
        start < at ==> is_block(with_section_at(lines, at, name), start, end),
        heading(with_section_at(lines, at, name)[at]),
{
    lemma_clear_of_block(lines, start, end, at);
    lemma_new_heading(name);
    let t = with_section_at(lines, at, name);
    if start >= at {
        assert forall|j: int| start + 2 < j < end + 2 implies under(#[trigger] t[j]) by {
            assert(t[j] == lines[j - 2]);
        }
        assert(t[start + 2] == lines[start]);
        assert(t[end + 1] == lines[end - 1]);
    } else {
        assert forall|j: int| start < j < end implies under(#[trigger] t[j]) by {
            assert(t[j] == lines[j]);
        }
        assert(t[start] == lines[start]);
        assert(t[end - 1] == lines[end - 1]);
    }
}

/// A block stays one when lines are added at the end.
pub proof fn lemma_block_stays(lines: Seq<Seq<char>>, start: int, end: int, name: Seq<char>)
    requires
        is_block(lines, start, end),
    ensures
        is_block(with_section_last(lines, name), start, end),
        heading(with_section_last(lines, name)[lines.len() as int + 1]),
{
    lemma_new_heading(name);
    let t = with_section_last(lines, name);
    assert forall|j: int| start < j < end implies under(#[trigger] t[j]) by {
        assert(t[j] == lines[j]);
    }
    assert(t[start] == lines[start]);
    assert(t[end - 1] == lines[end - 1]);
}

/// A block is found again after a section was looked for or created.
pub proof fn lemma_block_ensured(lines: Seq<Seq<char>>, start: int, end: int, name: Seq<char>)
    requires
        is_block(lines, start, end),
    ensures
        ({
            let p = ensured(lines, name);
            &&& is_block(p.lines, shifted(start, p), shifted(start, p) + (end - start))
            &&& 0 <= p.at < p.lines.len()
            &&& heading(p.lines[p.at])
            &&& !same_letters(name, "later"@) ==> shifted(start, p) == start
        }),
{
    lemma_heading_index(lines, name);
    lemma_heading_index(lines, "done"@);
    if !has_heading(lines, name) {
        if same_letters(name, "later"@) && has_heading(lines, "done"@) {
            lemma_block_shifts(lines, start, end, heading_index(lines, "done"@), name);
        } else {
            lemma_block_stays(lines, start, end, name);
        }
    }
}

/// A block is found again after a section of the user's was looked for or created.
pub proof fn lemma_block_created(lines: Seq<Seq<char>>, start: int, end: int, name: Seq<char>)
    requires
        is_block(lines, start, end),
    ensures
        ({
            let p = created(lines, name);
            &&& is_block(p.lines, shifted(start, p), shifted(start, p) + (end - start))
            &&& 0 <= p.at < p.lines.len()
            &&& heading(p.lines[p.at])
        }),
{
    lemma_heading_index(lines, name);
    lemma_heading_index(lines, "done"@);
    lemma_heading_index(lines, "later"@);
    if !has_heading(lines, name) {
        lemma_block_shifts(lines, start, end, custom_place(lines), name);
    }
}

/// The item under the cursor is a block.
pub proof fn lemma_item_is_block(s: State)
    ensures
        item_under(s) matches Some(it) ==> is_block(s.lines, it.start, it.start + it.len),
{
    lemma_item_under(s);
    if let Some(it) = item_under(s) {
        lemma_block_end(s.lines, it.start);
    }
}

/// Changing a task's mark, or what stands behind its box, leaves it a task.
pub proof fn lemma_task_kept(l: Seq<char>, m: Seq<char>)
    requires
        is_task(l),
        m.len() >= mark_pos(l) + 2,
        forall|i: int| 0 <= i < mark_pos(l) ==> #[trigger] m[i] == l[i],
        m[mark_pos(l)] == ' ' || m[mark_pos(l)] == 'x' || m[mark_pos(l)] == 'X',
        m[mark_pos(l) + 1] == ']',
    ensures
        is_task(m),
        lead(m) == lead(l),
        is_done(m) == (m[mark_pos(l)] != ' '),
{
    let p = |c: char| !is_space(c);
    let k = lead(l);
    lemma_first_from(l, 0, p);
    assert forall|j: int| 0 <= j < k implies !p(#[trigger] m[j]) by {
        assert(m[j] == l[j]);
        assert(!p(l[j]));
    }
    assert(m[k] == l[k]);
    assert(p(m[k]));
    lemma_first_from_is(m, 0, p, k);
    assert(m[k + 1] == l[k + 1]);
    assert(m[k + 2] == l[k + 2]);
}

pub proof fn lemma_with_mark(l: Seq<char>, done: bool)
    requires
        is_task(l),
    ensures
        is_task(with_mark(l, done)),
        lead(with_mark(l, done)) == lead(l),
        is_done(with_mark(l, done)) == done,
{
    lemma_first_from(l, 0, |c: char| !is_space(c));
    lemma_task_kept(l, with_mark(l, done));
}

pub proof fn lemma_completed(l: Seq<char>, stamp: Seq<char>)
    requires
        is_task(l),
    ensures
        is_task(completed(l, stamp)),
        is_done(completed(l, stamp)),
        lead(completed(l, stamp)) == lead(l),
{
    lemma_first_from(l, 0, |c: char| !is_space(c));
    let m = completed(l, stamp);
    let w = with_mark(l, true);
    assert forall|i: int| 0 <= i < w.len() implies #[trigger] m[i] == w[i] by {}
    lemma_task_kept(l, m);
}

pub proof fn lemma_reopened(l: Seq<char>)
    requires
        is_task(l),
    ensures
        is_task(reopened(l)),
        !is_done(reopened(l)),
        lead(reopened(l)) == lead(l),
{
    lemma_first_from(l, 0, |c: char| !is_space(c));
    let w = with_mark(l, false);
    let k = lead(l);
    lemma_with_mark(l, false);
    lemma_stamp_span(w);
    reveal_strlit("@done(");
    if let Some((p, e)) = stamp_span(w) {
        // A stamp starts with `@`, which no character of the box and before it is.
        if p < k + 5 {
            let sub = w.subrange(p, p + 6);
            assert(sub[0] == w[p]);
            assert(w[p] == '@');
            if p < k {
                let q = |c: char| !is_space(c);
                lemma_first_from(w, 0, q);
                assert(!q(w[p]));
            }
            assert(w[k] == l[k] && w[k + 1] == l[k + 1] && w[k + 2] == l[k + 2] && w[k + 4] == l[k
                + 4]);
            assert(false);
        }
    }
    let u = unstamped(w);
    assert forall|i: int| 0 <= i < k + 5 implies #[trigger] u[i] == w[i] by {}
    let q = |c: char| !is_space(c);
    lemma_back_from(u, u.len() as int, q);
    let n = tail(u);
    if n < k + 5 {
        assert(u[k + 4] == ']');
        assert(!q(u[k + 4]));
    }
    let m = reopened(l);
    assert forall|i: int| 0 <= i < k + 5 implies #[trigger] m[i] == w[i] by {
        assert(m[i] == u[i]);
    }
    lemma_task_kept(l, m);
}

/// A block stays one when its task's line is replaced by another task's.
pub proof fn lemma_block_updated(lines: Seq<Seq<char>>, start: int, end: int, l: Seq<char>)
    requires
        is_block(lines, start, end),
        is_top(l),
    ensures
        is_block(lines.update(start, l), start, end),
{
    let t = lines.update(start, l);
    lemma_top_not_blank(l);
    assert forall|j: int| start < j < end implies under(#[trigger] t[j]) by {
        assert(t[j] == lines[j]);
    }
}

} // verus!
