//! Blank lines are put in order; nothing else changes.
use crate::outline::{drop_blank_end, tidied, tidy_all, tidy_push};
use crate::search::{back_from, lemma_back_from};
use crate::task::heading;
use crate::text::is_blank;
use vstd::prelude::*;

verus! {

/// The lines that are not blank, in order.
pub open spec fn solid(lines: Seq<Seq<char>>) -> Seq<Seq<char>>
    decreases lines.len(),
{
    if lines.len() == 0 {
        Seq::empty()
    } else if is_blank(lines.last()) {
        solid(lines.drop_last())
    } else {
        solid(lines.drop_last()).push(lines.last())
    }
}

pub proof fn lemma_solid_push(lines: Seq<Seq<char>>, l: Seq<char>)
    ensures
        solid(lines.push(l)) == (if is_blank(l) {
            solid(lines)
        } else {
            solid(lines).push(l)
        }),
{
    assert(lines.push(l).drop_last() =~= lines);
}

pub proof fn lemma_solid_concat(a: Seq<Seq<char>>, b: Seq<Seq<char>>)
    ensures
        solid(a + b) == solid(a) + solid(b),
    decreases b.len(),
{
    if b.len() == 0 {
        assert(a + b =~= a);
        assert(solid(a) + solid(b) =~= solid(a));
    } else {
        assert((a + b).drop_last() =~= a + b.drop_last());
        assert((a + b).last() == b.last());
        lemma_solid_concat(a, b.drop_last());
        if !is_blank(b.last()) {
            assert(solid(a) + solid(b) =~= (solid(a) + solid(b.drop_last())).push(b.last()));
        }
    }
}

/// Lines that are all blank.
pub proof fn lemma_solid_blank(lines: Seq<Seq<char>>)
    requires
        forall|i: int| 0 <= i < lines.len() ==> is_blank(#[trigger] lines[i]),
    ensures
        solid(lines).len() == 0,
    decreases lines.len(),
{
    if lines.len() > 0 {
        assert(is_blank(lines[lines.len() - 1]));
        assert forall|i: int| 0 <= i < lines.drop_last().len() implies is_blank(
            #[trigger] lines.drop_last()[i],
        ) by {
            assert(lines.drop_last()[i] == lines[i]);
        }
        lemma_solid_blank(lines.drop_last());
    }
}

/// Each of the lines that are not blank is one of the lines.
pub proof fn lemma_solid_from(lines: Seq<Seq<char>>, k: int)
    requires
        0 <= k < solid(lines).len(),
    ensures
        !is_blank(solid(lines)[k]),
        lines.contains(solid(lines)[k]),
    decreases lines.len(),
{
    let n = lines.len();
    let rest = lines.drop_last();
    if is_blank(lines.last()) || k < solid(rest).len() {
        lemma_solid_from(rest, k);
        let i = choose|i: int| 0 <= i < rest.len() && rest[i] == solid(rest)[k];
        assert(lines[i] == solid(lines)[k]);
    } else {
        assert(lines[n - 1] == solid(lines)[k]);
    }
}

proof fn lemma_solid_tidy_all(lines: Seq<Seq<char>>)
    ensures
        solid(tidy_all(lines)) == solid(lines),
    decreases lines.len(),
{
    if lines.len() > 0 {
        let out = tidy_all(lines.drop_last());
        let l = lines.last();
        lemma_solid_tidy_all(lines.drop_last());
        lemma_solid_push(out, l);
        lemma_solid_push(out, Seq::empty());
        lemma_solid_push(out.push(Seq::empty()), l);
    }
}

pub proof fn lemma_solid_drop_end(lines: Seq<Seq<char>>)
    ensures
        solid(drop_blank_end(lines)) == solid(lines),
        drop_blank_end(lines).len() > 0 ==> !is_blank(drop_blank_end(lines).last()),
        drop_blank_end(lines).is_prefix_of(lines),
{
    let p = |l: Seq<char>| !is_blank(l);
    lemma_back_from(lines, lines.len() as int, p);
    let n = back_from(lines, lines.len() as int, p);
    let gone = lines.skip(n);
    assert(lines =~= lines.take(n) + gone);
    assert forall|i: int| 0 <= i < gone.len() implies is_blank(#[trigger] gone[i]) by {
        assert(!p(lines[n + i]));
    }
    lemma_solid_blank(gone);
    lemma_solid_concat(lines.take(n), gone);
    assert(solid(lines.take(n)) + solid(gone) =~= solid(lines.take(n)));
}

/// Tidying changes blank lines only: every other line stays as it is, in its order.
pub proof fn law_tidy_keeps_lines(lines: Seq<Seq<char>>)
    ensures
        solid(tidied(lines)) == solid(lines),
{
    lemma_solid_tidy_all(lines);
    lemma_solid_drop_end(tidy_all(lines));
}

/// Whether blank lines are in order, up to the end: none at the start, no two in a row, and
/// one between a heading and any other line.
pub open spec fn tidy_so_far(lines: Seq<Seq<char>>) -> bool {
    &&& lines.len() > 0 ==> !is_blank(lines[0])
    &&& forall|i: int|
        0 < i < lines.len() ==> {
            &&& is_blank(#[trigger] lines[i]) ==> !is_blank(lines[i - 1])
            &&& heading(lines[i]) || heading(lines[i - 1]) ==> is_blank(lines[i]) || is_blank(
                lines[i - 1],
            )
        }
}

/// Whether blank lines are in order.
pub open spec fn is_tidy(lines: Seq<Seq<char>>) -> bool {
    &&& tidy_so_far(lines)
    &&& lines.len() > 0 ==> !is_blank(lines.last())
}

proof fn lemma_tidy_push(out: Seq<Seq<char>>, l: Seq<char>)
    requires
        tidy_so_far(out),
    ensures
        tidy_so_far(tidy_push(out, l)),
{
    let next = tidy_push(out, l);
    let empty = Seq::<char>::empty();
    assert(is_blank(empty));
    assert forall|i: int| 0 < i < next.len() implies {
        &&& is_blank(#[trigger] next[i]) ==> !is_blank(next[i - 1])
        &&& heading(next[i]) || heading(next[i - 1]) ==> is_blank(next[i]) || is_blank(next[i - 1])
    } by {
        if i < out.len() {
            assert(next[i] == out[i] && next[i - 1] == out[i - 1]);
        }
    }
}

proof fn lemma_tidy_all(lines: Seq<Seq<char>>)
    ensures
        tidy_so_far(tidy_all(lines)),
    decreases lines.len(),
{
    if lines.len() > 0 {
        lemma_tidy_all(lines.drop_last());
        lemma_tidy_push(tidy_all(lines.drop_last()), lines.last());
    }
}

/// What was tidied has no blank lines at its start or end, no two of them in a row, and
/// one between a heading and any other line.
pub proof fn law_tidied_is_tidy(lines: Seq<Seq<char>>)
    ensures
        is_tidy(tidied(lines)),
{
    lemma_tidy_all(lines);
    let all = tidy_all(lines);
    let t = tidied(lines);
    lemma_solid_drop_end(all);
    assert forall|i: int| 0 <= i < t.len() implies #[trigger] t[i] == all[i] by {}
}

proof fn lemma_tidy_stays(lines: Seq<Seq<char>>)
    requires
        tidy_so_far(lines),
    ensures
        tidy_all(lines) == lines,
    decreases lines.len(),
{
    if lines.len() > 0 {
        let n = lines.len();
        let rest = lines.drop_last();
        assert forall|i: int| 0 < i < rest.len() implies {
            &&& is_blank(#[trigger] rest[i]) ==> !is_blank(rest[i - 1])
            &&& heading(rest[i]) || heading(rest[i - 1]) ==> is_blank(rest[i]) || is_blank(
                rest[i - 1],
            )
        } by {
            assert(rest[i] == lines[i] && rest[i - 1] == lines[i - 1]);
        }
        lemma_tidy_stays(rest);
        if n > 1 {
            assert(rest.last() == lines[n - 2]);
            assert(is_blank(lines[n - 1]) ==> !is_blank(lines[n - 2]));
        }
        assert(lines =~= rest.push(lines.last()));
    }
}

/// Lines whose blank lines are in order stay as they are.
pub proof fn law_tidy_unchanged(lines: Seq<Seq<char>>)
    requires
        is_tidy(lines),
    ensures
        tidied(lines) == lines,
{
    lemma_tidy_stays(lines);
    let p = |l: Seq<char>| !is_blank(l);
    assert(drop_blank_end(lines) =~= lines);
}

/// Tidying twice is tidying once.
pub proof fn law_tidy_once(lines: Seq<Seq<char>>)
    ensures
        tidied(tidied(lines)) == tidied(lines),
{
    law_tidied_is_tidy(lines);
    law_tidy_unchanged(tidied(lines));
}

proof fn lemma_tidy_goes_on(x: Seq<Seq<char>>, y: Seq<Seq<char>>, c: Seq<Seq<char>>)
    requires
        tidy_all(x) == tidy_all(y),
    ensures
        tidy_all(x + c) == tidy_all(y + c),
    decreases c.len(),
{
    if c.len() == 0 {
        assert(x + c =~= x);
        assert(y + c =~= y);
    } else {
        lemma_tidy_goes_on(x, y, c.drop_last());
        assert((x + c).drop_last() =~= x + c.drop_last());
        assert((y + c).drop_last() =~= y + c.drop_last());
        assert((x + c).last() == c.last());
        assert((y + c).last() == c.last());
    }
}

proof fn lemma_tidy_one_more(a: Seq<Seq<char>>, l: Seq<char>)
    ensures
        tidy_all(a.push(l)) == tidy_push(tidy_all(a), l),
{
    assert(a.push(l).drop_last() =~= a);
}

/// Of two blank lines in a row the second goes.
pub proof fn law_tidy_keeps_one_blank(
    a: Seq<Seq<char>>,
    b: Seq<char>,
    d: Seq<char>,
    c: Seq<Seq<char>>,
)
    requires
        is_blank(b),
        is_blank(d),
    ensures
        tidied(a + seq![b, d] + c) == tidied(a + seq![b] + c),
{
    lemma_tidy_one_more(a, b);
    lemma_tidy_one_more(a.push(b), d);
    assert(a + seq![b] =~= a.push(b));
    assert(a + seq![b, d] =~= a.push(b).push(d));
    lemma_tidy_goes_on(a + seq![b, d], a + seq![b], c);
}

/// A blank line at the start goes, and so does one at the end.
pub proof fn law_tidy_drops_outer_blanks(b: Seq<char>, c: Seq<Seq<char>>)
    requires
        is_blank(b),
    ensures
        tidied(seq![b] + c) == tidied(c),
        tidied(c.push(b)) == tidied(c),
{
    let none = Seq::<Seq<char>>::empty();
    lemma_tidy_one_more(none, b);
    assert(none.push(b) =~= seq![b]);
    assert(tidy_all(none) =~= none);
    lemma_tidy_goes_on(seq![b], none, c);
    assert(none + c =~= c);
    lemma_tidy_one_more(c, b);
    let out = tidy_all(c);
    let p = |l: Seq<char>| !is_blank(l);
    if tidy_all(c.push(b)) != out {
        let more = out.push(b);
        assert(back_from(more, more.len() as int, p) == back_from(more, out.len() as int, p));
        lemma_back_same(more, out, out.len() as int, p);
        lemma_back_from(out, out.len() as int, p);
        assert(drop_blank_end(more) =~= drop_blank_end(out));
    }
}

proof fn lemma_back_same(
    a: Seq<Seq<char>>,
    b: Seq<Seq<char>>,
    n: int,
    p: spec_fn(Seq<char>) -> bool,
)
    requires
        n <= a.len(),
        n <= b.len(),
        forall|i: int| 0 <= i < n ==> a[i] == b[i],
    ensures
        back_from(a, n, p) == back_from(b, n, p),
    decreases n,
{
    if n > 0 {
        lemma_back_same(a, b, n - 1, p);
    }
}

/// Between a heading and the next line that is not blank an empty line is put in.
pub proof fn law_tidy_parts_headings(
    a: Seq<Seq<char>>,
    x: Seq<char>,
    y: Seq<char>,
    c: Seq<Seq<char>>,
)
    requires
        !is_blank(x),
        !is_blank(y),
        heading(x) || heading(y),
    ensures
        tidied(a + seq![x, y] + c) == tidied(a + seq![x, Seq::empty(), y] + c),
{
    let empty = Seq::<char>::empty();
    assert(is_blank(empty));
    let u = a.push(x);
    lemma_tidy_one_more(a, x);
    lemma_tidy_one_more(u, y);
    lemma_tidy_one_more(u, empty);
    lemma_tidy_one_more(u.push(empty), y);
    assert(tidy_all(u).last() == x);
    assert(a + seq![x, y] =~= u.push(y));
    assert(a + seq![x, empty, y] =~= u.push(empty).push(y));
    lemma_tidy_goes_on(a + seq![x, y], a + seq![x, empty, y], c);
}

} // verus!
