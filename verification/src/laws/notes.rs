//! Notes survive being opened and closed, and closing them touches nothing else.
use crate::app::{item_under, lemma_item_under, State};
use crate::bytes::{byte_len, cut_at, cut_from, indent_bytes};
use crate::laws::tidy::{law_tidy_keeps_lines, lemma_solid_concat, solid};
use crate::notes::{
    alike, common_back, common_front, cut_bytes, dedented, indented_line, kept_back, kept_front,
    margin_of, notes_closed, notes_in_range, notes_of, notes_openable, notes_opened, nth_alike,
    source_of, typed_block, with_block,
};
use crate::outline::{drop_blank_end, tidied};
use crate::search::{back_from, lemma_first_from};
use crate::text::{is_blank, is_space, lead};
use vstd::prelude::*;

verus! {

/// What `n` bytes of a line's indentation hold is whitespace.
pub proof fn lemma_cut_in_lead(l: Seq<char>, n: int, k: int)
    requires
        0 <= k <= lead(l),
        n <= indent_bytes(l),
    ensures
        k <= cut_from(l, n, k) <= lead(l),
    decreases lead(l) - k,
{
    lemma_first_from(l, 0, |c: char| !is_space(c));
    if k < lead(l) && byte_len(l.take(k)) < n {
        lemma_cut_in_lead(l, n, k + 1);
    }
}

/// A line is what was taken away from it and what was left; it is blank if that is.
pub proof fn lemma_line_comes_back(l: Seq<char>, indent: int)
    ensures
        margin_of(l, indent) + dedented(l, indent) == l,
        is_blank(dedented(l, indent)) ==> is_blank(l),
{
    let q = |c: char| !is_space(c);
    lemma_first_from(l, 0, q);
    lemma_cut_in_lead(l, cut_bytes(l, indent), 0);
    let k = cut_at(l, cut_bytes(l, indent));
    let d = dedented(l, indent);
    assert(margin_of(l, indent) + d =~= l);
    if is_blank(d) {
        assert forall|i: int| 0 <= i < l.len() implies is_space(#[trigger] l[i]) by {
            if i < k {
                assert(!q(l[i]));
            } else {
                assert(d[i - k] == l[i]);
            }
        }
    }
}

/// A text shares all its lines with itself.
proof fn lemma_all_kept(text: Seq<Seq<char>>, i: int)
    requires
        0 <= i <= text.len(),
    ensures
        common_front(text, text, i) == text.len(),
    decreases text.len() - i,
{
    if i < text.len() {
        lemma_all_kept(text, i + 1);
    }
}

/// What the editor holds when it is opened on some text: at least one line, an empty one if
/// there is no text.
pub open spec fn in_editor(text: Seq<Seq<char>>) -> Seq<Seq<char>> {
    if text.len() == 0 {
        seq![Seq::empty()]
    } else {
        text
    }
}

/// Opening the notes of a task and closing them again, with nothing typed, leaves the
/// lines as they were, tidied, however they are indented. The block's blank lines are empty.
pub proof fn law_notes_round_trip(s: State)
    requires
        item_under(s) is Some,
        notes_openable(s),
        ({
            let it = item_under(s)->0;
            forall|i: int|
                it.start < i < it.start + it.len && is_blank(#[trigger] s.lines[i])
                    ==> s.lines[i].len() == 0
        }),
    ensures
        ({
            let open = notes_opened(s);
            notes_closed(open, in_editor(open.notes->0.text)).lines == tidied(s.lines)
        }),
{
    lemma_item_under(s);
    let it = item_under(s)->0;
    let notes = notes_of(s.lines, it);
    let from = it.start + 1;
    let to = it.start + it.len;
    let typed = in_editor(notes.text);
    let block = s.lines.subrange(from, to);
    let back = Seq::new(typed.len(), |i: int| indented_line(notes, typed, i));
    let p = |l: Seq<char>| !is_blank(l);
    if it.len == 1 {
        assert(is_blank(Seq::<char>::empty()));
        assert(drop_blank_end(back) =~= block) by {
            reveal_with_fuel(back_from, 2);
        }
    } else {
        assert(back =~= block) by {
            lemma_all_kept(typed, 0);
            assert forall|i: int| 0 <= i < back.len() implies back[i] == block[i] by {
                let l = s.lines[from + i];
                lemma_line_comes_back(l, notes.indent);
                assert(typed[i] == dedented(l, notes.indent));
                assert(notes.margin[i] == margin_of(l, notes.indent));
                if is_blank(typed[i]) {
                    assert(l =~= Seq::empty());
                }
            }
        }
        assert(!is_blank(block.last()));
        assert(p(block[block.len() - 1]));
        assert(drop_blank_end(block) =~= block);
    }
    assert(with_block(s.lines, notes, block) =~= s.lines);
}

proof fn lemma_common_front(a: Seq<Seq<char>>, b: Seq<Seq<char>>, i: int)
    requires
        0 <= i <= a.len(),
        i <= b.len(),
    ensures
        i <= common_front(a, b, i) <= a.len(),
        common_front(a, b, i) <= b.len(),
        forall|j: int| i <= j < common_front(a, b, i) ==> #[trigger] a[j] == b[j],
    decreases a.len() - i,
{
    if i < a.len() && i < b.len() && a[i] == b[i] {
        lemma_common_front(a, b, i + 1);
    }
}

proof fn lemma_common_back(a: Seq<Seq<char>>, b: Seq<Seq<char>>, n: int, k: int)
    requires
        0 <= k <= n <= a.len(),
        n <= b.len(),
    ensures
        k <= common_back(a, b, n, k) <= n,
        forall|j: int|
            b.len() - common_back(a, b, n, k) <= j < b.len() - k ==> #[trigger] b[j] == a[a.len()
                + j - b.len()],
    decreases n - k,
{
    if k < n && a[a.len() - 1 - k] == b[b.len() - 1 - k] {
        lemma_common_back(a, b, n, k + 1);
    }
}

/// A line of the block that stands before what was edited, or behind it, is written as it
/// was, however it is indented; a blank one becomes empty.
pub proof fn law_unedited_lines_stay(s: State, typed: Seq<Seq<char>>, i: int)
    requires
        item_under(s) is Some,
        notes_openable(s),
        0 <= i < typed.len(),
        ({
            let text = notes_opened(s).notes->0.text;
            i < kept_front(text, typed) || i >= typed.len() - kept_back(text, typed)
        }),
    ensures
        ({
            let notes = notes_opened(s).notes->0;
            let l = s.lines[notes.start + 1 + source_of(notes.text, typed, i)];
            &&& 0 <= source_of(notes.text, typed, i) < notes.child_len
            &&& indented_line(notes, typed, i) == if is_blank(l) {
                Seq::empty()
            } else {
                l
            }
        }),
{
    lemma_item_under(s);
    let it = item_under(s)->0;
    let notes = notes_of(s.lines, it);
    let text = notes.text;
    let least = if text.len() <= typed.len() {
        text.len()
    } else {
        typed.len()
    };
    lemma_common_front(text, typed, 0);
    lemma_common_back(text, typed, least - kept_front(text, typed), 0);
    let k = source_of(text, typed, i);
    assert(text[k] == typed[i]);
    let l = s.lines[it.start + 1 + k];
    lemma_line_comes_back(l, notes.indent);
    assert(text[k] == dedented(l, notes.indent));
    assert(notes.margin[k] == margin_of(l, notes.indent));
    if is_blank(l) {
        assert forall|j: int| 0 <= j < typed[i].len() implies is_space(
            #[trigger] typed[i][j],
        ) by {
            assert(l[l.len() - typed[i].len() + j] == typed[i][j]);
        }
    }
}

proof fn lemma_alike_grows(lines: Seq<Seq<char>>, l: Seq<char>, from: int, i: int, j: int)
    requires
        from <= i < j,
        lines[i] == l,
    ensures
        alike(lines, l, from, i) < alike(lines, l, from, j),
        0 <= alike(lines, l, from, i),
    decreases j - i,
{
    lemma_alike(lines, l, from, i);
    if i < j - 1 {
        lemma_alike_grows(lines, l, from, i, j - 1);
    }
}

proof fn lemma_alike(lines: Seq<Seq<char>>, l: Seq<char>, from: int, to: int)
    requires
        from <= to,
    ensures
        0 <= alike(lines, l, from, to),
    decreases to - from,
{
    if from < to {
        lemma_alike(lines, l, from, to - 1);
    }
}

/// Lines counted from one further down.
proof fn lemma_alike_first(lines: Seq<Seq<char>>, l: Seq<char>, from: int, to: int)
    requires
        from < to,
    ensures
        alike(lines, l, from, to) == alike(lines, l, from + 1, to) + (if lines[from] == l {
            1int
        } else {
            0
        }),
    decreases to - from,
{
    if from < to - 1 {
        lemma_alike_first(lines, l, from, to - 1);
    } else {
        assert(alike(lines, l, from, from) == 0);
        assert(alike(lines, l, from + 1, to) == 0);
    }
}

proof fn lemma_nth_alike(lines: Seq<Seq<char>>, l: Seq<char>, n: int, from: int, to: int)
    requires
        0 <= n,
        0 <= from <= to <= lines.len(),
    ensures
        ({
            let k = nth_alike(lines, l, n, from, to);
            ||| k == lines.len()
            ||| from <= k < to && lines[k] == l && alike(lines, l, from, k) == n
        }),
    decreases to - from,
{
    if from < to {
        let k = nth_alike(lines, l, n, from, to);
        if lines[from] != l {
            lemma_nth_alike(lines, l, n, from + 1, to);
        } else if n > 0 {
            lemma_nth_alike(lines, l, n - 1, from + 1, to);
        }
        if k < lines.len() && k > from {
            lemma_alike_first(lines, l, from, k);
        }
    }
}

/// Where a typed line comes from, if it is not new: a line that reads the same, in the part
/// of the block where it stands.
pub proof fn lemma_source(text: Seq<Seq<char>>, typed: Seq<Seq<char>>, i: int)
    requires
        0 <= i < typed.len(),
    ensures
        ({
            let front = kept_front(text, typed);
            let back = kept_back(text, typed);
            let k = source_of(text, typed, i);
            &&& 0 <= front
            &&& 0 <= back
            &&& front + back <= text.len()
            &&& front + back <= typed.len()
            &&& 0 <= k <= text.len()
            &&& k < text.len() ==> text[k] == typed[i]
            &&& k < text.len() ==> (k < front) == (i < front)
            &&& k < text.len() ==> (k >= text.len() - back) == (i >= typed.len() - back)
            &&& k < text.len() && front <= i < typed.len() - back ==> alike(
                text,
                typed[i],
                front,
                k,
            ) == alike(typed, typed[i], front, i)
        }),
{
    let least = if text.len() <= typed.len() {
        text.len()
    } else {
        typed.len()
    };
    let front = kept_front(text, typed);
    let back = kept_back(text, typed);
    lemma_common_front(text, typed, 0);
    lemma_common_back(text, typed, least - front, 0);
    if front <= i < typed.len() - back {
        lemma_alike(typed, typed[i], front, i);
        lemma_nth_alike(
            text,
            typed[i],
            alike(typed, typed[i], front, i),
            front,
            text.len() - back,
        );
    }
}

/// Each line of the block gives what was taken away from it to at most one typed line, and
/// that reads the same: a line typed once more is new.
pub proof fn law_margins_are_given_once(
    text: Seq<Seq<char>>,
    typed: Seq<Seq<char>>,
    i: int,
    j: int,
)
    requires
        0 <= i < j < typed.len(),
    ensures
        source_of(text, typed, i) < text.len() ==> {
            &&& text[source_of(text, typed, i)] == typed[i]
            &&& source_of(text, typed, i) != source_of(text, typed, j)
        },
{
    lemma_source(text, typed, i);
    lemma_source(text, typed, j);
    let front = kept_front(text, typed);
    let back = kept_back(text, typed);
    let k = source_of(text, typed, i);
    if k < text.len() && k == source_of(text, typed, j) && front <= i && j < typed.len() - back {
        lemma_alike_grows(typed, typed[i], front, i, j);
    }
}

/// Closing the notes replaces the block under the task and changes nothing else.
pub proof fn law_notes_change_only_their_block(s: State, typed: Seq<Seq<char>>)
    requires
        s.notes is Some,
        notes_in_range(s),
    ensures
        ({
            let notes = s.notes->0;
            solid(notes_closed(s, typed).lines) == solid(s.lines.take(notes.start + 1)) + solid(
                typed_block(notes, typed),
            ) + solid(s.lines.skip(notes.start + 1 + notes.child_len))
        }),
{
    let notes = s.notes->0;
    let a = s.lines.take(notes.start + 1);
    let b = typed_block(notes, typed);
    let c = s.lines.skip(notes.start + 1 + notes.child_len);
    assert(with_block(s.lines, notes, b) =~= a + b + c);
    law_tidy_keeps_lines(a + b + c);
    lemma_solid_concat(a + b, c);
    lemma_solid_concat(a, b);
}

} // verus!
