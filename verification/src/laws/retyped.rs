//! Lines of notes that were not edited, and whose notes can be edited at all.
use crate::app::{lemma_item_under, State};
use crate::bytes::{byte_len, lemma_byte_len_push, splits_at, width};
use crate::laws::entries::{holds_task, law_selected_line};
use crate::laws::notes::{lemma_line_comes_back, lemma_source};
use crate::laws::typed::{lemma_indent, lemma_written, stands_typed};
use crate::laws::words::law_cut;
use crate::notes::{
    alike, block_indent, common_back, common_front, cut_bytes, dedented, indented_line, kept_back,
    kept_front, margin_of, notes_closed, notes_of, notes_openable, notes_opened, nth_alike,
    source_of, typed_block,
};
use crate::outline::{lemma_block_end, tidied, ItemModel};
use crate::search::{lemma_back_from, lemma_first_from};
use crate::text::{is_blank, is_space, lead};
use vstd::prelude::*;

verus! {

/// A typed line that was a line of the block stands as that line stood.
proof fn lemma_stands_as_it_stood(s: State, it: ItemModel, typed: Seq<Seq<char>>, i: int)
    requires
        holds_task(s, s.cursor, it),
        0 <= i < typed.len(),
        !is_blank(typed[i]),
        source_of(notes_of(s.lines, it).text, typed, i) < it.len - 1,
        i < typed_block(notes_of(s.lines, it), typed).len(),
    ensures
        ({
            let notes = notes_of(s.lines, it);
            let k = source_of(notes.text, typed, i);
            &&& 0 <= k
            &&& typed_block(notes, typed)[i] == s.lines[it.start + 1 + k]
        }),
{
    law_selected_line(s, it, it.start);
    lemma_item_under(s);
    let notes = notes_of(s.lines, it);
    let k = source_of(notes.text, typed, i);
    lemma_source(notes.text, typed, i);
    let l = s.lines[it.start + 1 + k];
    let p = |l: Seq<char>| !is_blank(l);
    let raw = Seq::new(typed.len(), |i: int| indented_line(notes, typed, i));
    lemma_back_from(raw, raw.len() as int, p);
    assert(typed_block(notes, typed)[i] == raw[i]);
    lemma_line_comes_back(l, notes.indent);
    assert(notes.text[k] == dedented(l, notes.indent));
    assert(notes.margin[k] == margin_of(l, notes.indent));
}

proof fn lemma_front_ends(a: Seq<Seq<char>>, b: Seq<Seq<char>>, n: int, i: int)
    requires
        0 <= i <= n <= a.len(),
        n <= b.len(),
        forall|j: int| 0 <= j < n ==> #[trigger] a[j] == b[j],
        n < a.len() && n < b.len() ==> a[n] != b[n],
    ensures
        common_front(a, b, i) == n,
    decreases n - i,
{
    if i < n {
        lemma_front_ends(a, b, n, i + 1);
    }
}

proof fn lemma_back_reaches(a: Seq<Seq<char>>, b: Seq<Seq<char>>, n: int, m: int, k: int)
    requires
        0 <= k <= m <= n <= a.len(),
        n <= b.len(),
        forall|j: int|
            0 <= j < m ==> #[trigger] a[a.len() - 1 - j] == b[b.len() - 1 - j],
    ensures
        common_back(a, b, n, k) >= m,
    decreases n - k,
{
    if k < m {
        assert(a[a.len() - 1 - k] == b[b.len() - 1 - k]);
        lemma_back_reaches(a, b, n, m, k + 1);
    } else {
        lemma_back_up(a, b, n, k);
    }
}

proof fn lemma_back_up(a: Seq<Seq<char>>, b: Seq<Seq<char>>, n: int, k: int)
    ensures
        common_back(a, b, n, k) >= k,
    decreases n - k,
{
    if k < n && a[a.len() - 1 - k] == b[b.len() - 1 - k] {
        lemma_back_up(a, b, n, k + 1);
    }
}

/// The lines below the last that was edited stand as they stood, whatever they are indented
/// with. What is edited starts at line `n`, and the last `m` lines are not.
pub proof fn law_lines_below_an_edit_stay(
    s: State,
    it: ItemModel,
    typed: Seq<Seq<char>>,
    n: int,
    m: int,
)
    requires
        holds_task(s, s.cursor, it),
        notes_openable(s),
        ({
            let text = notes_opened(s).notes->0.text;
            &&& 0 <= n && 0 <= m
            &&& n + m <= typed.len()
            &&& n + m <= text.len()
            &&& forall|j: int| 0 <= j < n ==> #[trigger] text[j] == typed[j]
            &&& n < text.len() && n < typed.len() ==> text[n] != typed[n]
            &&& forall|j: int|
                0 <= j < m ==> #[trigger] text[text.len() - 1 - j] == typed[typed.len() - 1 - j]
        }),
    ensures
        exists|block: Seq<Seq<char>>|
            {
                &&& #[trigger] stands_typed(s.lines, it, typed, block)
                &&& notes_closed(notes_opened(s), typed).lines == tidied(
                    s.lines.take(it.start + 1) + block + s.lines.skip(it.start + it.len),
                )
                &&& forall|i: int|
                    typed.len() - m <= i < block.len() && !is_blank(typed[i])
                        ==> #[trigger] block[i] == s.lines[it.start + it.len + i - typed.len()]
            },
{
    law_selected_line(s, it, it.start);
    lemma_item_under(s);
    let notes = notes_of(s.lines, it);
    let text = notes.text;
    let block = typed_block(notes, typed);
    lemma_written(s, it, typed);
    lemma_front_ends(text, typed, n, 0);
    let least = if text.len() <= typed.len() {
        text.len()
    } else {
        typed.len()
    };
    lemma_back_reaches(text, typed, least - n, m, 0);
    assert forall|i: int| typed.len() - m <= i < block.len() && !is_blank(typed[i]) implies
        #[trigger] block[i] == s.lines[it.start + it.len + i - typed.len()] by {
        lemma_source(text, typed, i);
        lemma_stands_as_it_stood(s, it, typed, i);
    }
}

proof fn lemma_only_one(lines: Seq<Seq<char>>, l: Seq<char>, from: int, to: int, k: int)
    requires
        0 <= from <= k < to <= lines.len(),
        lines[k] == l,
        forall|j: int| from <= j < k ==> #[trigger] lines[j] != l,
    ensures
        nth_alike(lines, l, 0, from, to) == k,
    decreases k - from,
{
    if from < k {
        lemma_only_one(lines, l, from + 1, to, k);
    }
}

proof fn lemma_none_alike(lines: Seq<Seq<char>>, l: Seq<char>, from: int, to: int)
    requires
        forall|j: int| from <= j < to ==> #[trigger] lines[j] != l,
    ensures
        alike(lines, l, from, to) == 0,
    decreases to - from,
{
    if from < to {
        lemma_none_alike(lines, l, from, to - 1);
    }
}

/// A line that reads like no other, in the block or among those typed, stands as it stood
/// wherever it is typed, whatever it is indented with.
pub proof fn law_lines_that_move_keep_their_indentation(
    s: State,
    it: ItemModel,
    typed: Seq<Seq<char>>,
    i: int,
    k: int,
)
    requires
        holds_task(s, s.cursor, it),
        notes_openable(s),
        0 <= i < typed.len(),
        !is_blank(typed[i]),
        forall|j: int| 0 <= j < typed.len() && j != i ==> #[trigger] typed[j] != typed[i],
        ({
            let text = notes_opened(s).notes->0.text;
            &&& 0 <= k < text.len()
            &&& text[k] == typed[i]
            &&& forall|j: int| 0 <= j < text.len() && j != k ==> #[trigger] text[j] != typed[i]
        }),
    ensures
        exists|block: Seq<Seq<char>>|
            {
                &&& #[trigger] stands_typed(s.lines, it, typed, block)
                &&& notes_closed(notes_opened(s), typed).lines == tidied(
                    s.lines.take(it.start + 1) + block + s.lines.skip(it.start + it.len),
                )
                &&& i < block.len() && block[i] == s.lines[it.start + 1 + k]
            },
{
    law_selected_line(s, it, it.start);
    lemma_item_under(s);
    let notes = notes_of(s.lines, it);
    let text = notes.text;
    let block = typed_block(notes, typed);
    lemma_written(s, it, typed);
    assert(i < block.len());
    lemma_source(text, typed, i);
    let front = kept_front(text, typed);
    let back = kept_back(text, typed);
    if front <= i < typed.len() - back {
        assert(k >= front) by {
            if k < front {
                lemma_source(text, typed, k);
                assert(typed[k] == text[k]);
            }
        }
        assert(k < text.len() - back) by {
            if k >= text.len() - back {
                let j = typed.len() + k - text.len();
                lemma_source(text, typed, j);
                assert(source_of(text, typed, j) == k);
                assert(typed[j] == text[k]);
            }
        }
        lemma_none_alike(typed, typed[i], front, i);
        lemma_only_one(text, typed[i], front, text.len() - back, k);
    }
    assert(source_of(text, typed, i) == k);
    lemma_stands_as_it_stood(s, it, typed, i);
}

proof fn lemma_one_byte(c: char)
    requires
        (c as int) < 128,
    ensures
        width(c) == 1,
{
    assert(c as u32 <= 0x7F);
}

proof fn lemma_one_byte_each(l: Seq<char>, n: int)
    requires
        0 <= n <= l.len(),
        forall|j: int| 0 <= j < n ==> (#[trigger] l[j] as int) < 128,
    ensures
        byte_len(l.take(n)) == n,
    decreases n,
{
    if n > 0 {
        lemma_one_byte_each(l, n - 1);
        assert(l.take(n) =~= l.take(n - 1).push(l[n - 1]));
        lemma_byte_len_push(l.take(n - 1), l[n - 1]);
        lemma_one_byte(l[n - 1]);
    } else {
        assert(l.take(0) =~= Seq::<char>::empty());
    }
}

/// Notes indented with blanks, tabs or any other characters of a byte can always be edited,
/// and so can those of a task without a block.
pub proof fn law_plain_notes_can_be_edited(s: State, it: ItemModel)
    requires
        holds_task(s, s.cursor, it),
        forall|i: int, j: int|
            it.start < i < it.start + it.len && 0 <= j < s.lines[i].len() && (forall|x: int|
                0 <= x <= j ==> is_space(#[trigger] s.lines[i][x])) ==> (
            #[trigger] s.lines[i][j] as int) < 128,
    ensures
        notes_openable(s),
{
    law_selected_line(s, it, it.start);
    lemma_item_under(s);
    lemma_block_end(s.lines, it.start);
    lemma_indent(s.lines, it);
    let n = block_indent(s.lines, it);
    assert forall|i: int| it.start < i < it.start + it.len implies splits_at(
        #[trigger] s.lines[i],
        cut_bytes(s.lines[i], n),
    ) by {
        let l = s.lines[i];
        let p = |c: char| !is_space(c);
        lemma_first_from(l, 0, p);
        let k = lead(l);
        assert forall|j: int| 0 <= j < k implies (#[trigger] l[j] as int) < 128 by {
            assert forall|x: int| 0 <= x <= j implies is_space(#[trigger] s.lines[i][x]) by {
                assert(!p(l[x]));
            }
            assert((s.lines[i][j] as int) < 128);
        }
        lemma_one_byte_each(l, k);
        let c = cut_bytes(l, n);
        assert(0 <= c <= k);
        lemma_one_byte_each(l, c);
        law_cut(l.take(c), l.skip(c));
        assert(l.take(c) + l.skip(c) =~= l);
    }
}

} // verus!
