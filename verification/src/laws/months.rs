//! The history of done tasks: its months stay in order, and each holds the tasks that were
//! done in it.
use crate::blocks::lemma_next_section;
use crate::laws::moves::{lemma_solid_all, lemma_solid_first};
use crate::laws::tidy::{
    is_tidy, law_tidied_is_tidy, law_tidy_keeps_lines, lemma_solid_blank, lemma_solid_concat,
    lemma_solid_from, lemma_solid_push, solid,
};
use crate::lines::spliced;
use crate::outline::{
    item_at, lemma_block_end, lemma_heading_not_blank, lemma_top_not_blank, next_section, tidied,
    under, ItemModel,
};
use crate::rotate::{
    block_of, done_items, filed, filed_under, heads_month, history_filed, lemma_done_items,
    month_line, month_place,
};
use crate::search::{lemma_first_from, lemma_first_from_is};
use crate::task::{heading, is_top, section};
use crate::text::{before, is_blank};
use vstd::prelude::*;

verus! {

// ---------------------------------------------------------------------------------
// The order of the months

/// The headings in the history.
pub open spec fn months_in(hist: Seq<Seq<char>>) -> Seq<Seq<char>>
    decreases hist.len(),
{
    if hist.len() == 0 {
        Seq::empty()
    } else if "## "@.is_prefix_of(hist.last()) {
        months_in(hist.drop_last()).push(hist.last())
    } else {
        months_in(hist.drop_last())
    }
}

/// Whether no text comes before one that stands above it.
pub open spec fn ascending(months: Seq<Seq<char>>) -> bool {
    forall|i: int, j: int|
        0 <= i < j < months.len() ==> !before(#[trigger] months[j], #[trigger] months[i])
}

/// Whether each text comes before those that stand below it.
pub open spec fn strictly_ascending(months: Seq<Seq<char>>) -> bool {
    forall|i: int, j: int|
        0 <= i < j < months.len() ==> before(#[trigger] months[i], #[trigger] months[j])
}

proof fn lemma_months_concat(a: Seq<Seq<char>>, b: Seq<Seq<char>>)
    ensures
        months_in(a + b) == months_in(a) + months_in(b),
    decreases b.len(),
{
    if b.len() == 0 {
        assert(a + b =~= a);
        assert(months_in(a) + months_in(b) =~= months_in(a));
    } else {
        assert((a + b).drop_last() =~= a + b.drop_last());
        assert((a + b).last() == b.last());
        lemma_months_concat(a, b.drop_last());
        if "## "@.is_prefix_of(b.last()) {
            assert(months_in(a) + months_in(b) =~= (months_in(a) + months_in(b.drop_last())).push(
                b.last(),
            ));
        }
    }
}

proof fn lemma_month_is_heading(l: Seq<char>)
    requires
        "## "@.is_prefix_of(l),
    ensures
        section(l),
        heading(l),
        !is_blank(l),
{
    reveal_strlit("## ");
    let p = l.subrange(0, 3);
    assert(p[0] == l[0] && p[1] == l[1]);
    lemma_heading_not_blank(l);
}

proof fn lemma_months_solid(lines: Seq<Seq<char>>)
    ensures
        months_in(solid(lines)) == months_in(lines),
    decreases lines.len(),
{
    if lines.len() > 0 {
        let rest = lines.drop_last();
        let l = lines.last();
        lemma_months_solid(rest);
        if "## "@.is_prefix_of(l) {
            lemma_month_is_heading(l);
        }
        if !is_blank(l) {
            assert(solid(rest).push(l).drop_last() =~= solid(rest));
        }
    }
}

/// Where all lines are headings, or none, or what is known of those that are.
proof fn lemma_months_from(hist: Seq<Seq<char>>, p: spec_fn(Seq<char>) -> bool)
    requires
        forall|i: int|
            0 <= i < hist.len() && "## "@.is_prefix_of(#[trigger] hist[i]) ==> p(hist[i]),
    ensures
        forall|k: int| 0 <= k < months_in(hist).len() ==> p(#[trigger] months_in(hist)[k]),
    decreases hist.len(),
{
    if hist.len() > 0 {
        let rest = hist.drop_last();
        assert forall|i: int|
            0 <= i < rest.len() && "## "@.is_prefix_of(#[trigger] rest[i]) implies p(rest[i]) by {
            assert(rest[i] == hist[i]);
        }
        lemma_months_from(rest, p);
        let l = hist[hist.len() - 1];
        assert(hist.last() == l);
        assert forall|k: int| 0 <= k < months_in(hist).len() implies p(
            #[trigger] months_in(hist)[k],
        ) by {
            if k < months_in(rest).len() {
                assert(months_in(hist)[k] == months_in(rest)[k]);
            } else {
                assert("## "@.is_prefix_of(l));
                assert(months_in(hist)[k] == l);
            }
        }
    }
}

/// A block of a task holds no heading.
proof fn lemma_block_has_no_month(lines: Seq<Seq<char>>, it: ItemModel)
    requires
        0 <= it.start < lines.len(),
        is_top(lines[it.start]),
        it == item_at(lines, it.start),
    ensures
        months_in(block_of(lines, it)).len() == 0,
{
    lemma_block_end(lines, it.start);
    lemma_top_not_blank(lines[it.start]);
    let b = block_of(lines, it);
    let never = |l: Seq<char>| false;
    assert forall|i: int| 0 <= i < b.len() && "## "@.is_prefix_of(#[trigger] b[i]) implies never(
        b[i],
    ) by {
        lemma_month_is_heading(b[i]);
        lemma_heading_not_blank(b[i]);
        assert(b[i] == lines[it.start + i]);
        if i > 0 {
            assert(under(lines[it.start + i]));
        }
    }
    lemma_months_from(b, never);
    if months_in(b).len() > 0 {
        assert(never(months_in(b)[0]));
    }
}

proof fn lemma_before_transitive(a: Seq<char>, b: Seq<char>, c: Seq<char>)
    requires
        before(a, b),
        before(b, c),
    ensures
        before(a, c),
    decreases a.len(),
{
    if a.len() > 0 && a[0] == b[0] && b[0] == c[0] {
        lemma_before_transitive(a.skip(1), b.skip(1), c.skip(1));
    }
}

/// A month that has a heading in the history keeps it.
proof fn lemma_old_month(hist: Seq<Seq<char>>, month: Seq<char>, block: Seq<Seq<char>>)
    requires
        month_line(hist, month) < hist.len(),
        months_in(block).len() == 0,
    ensures
        months_in(filed_under(hist, month, block)) == months_in(hist),
{
    lemma_first_from(hist, 0, |l: Seq<char>| heads_month(l, month));
    let ml = month_line(hist, month);
    lemma_next_section(hist, ml + 1);
    let at = next_section(hist, ml + 1);
    let a = hist.take(at);
    let c = hist.skip(at);
    assert(hist =~= a + c);
    lemma_months_concat(a, c);
    lemma_months_concat(a + block, c);
    lemma_months_concat(a, block);
    assert(months_in(a) + months_in(block) + months_in(c) =~= months_in(a) + months_in(c));
}

/// A month that has no heading in the history gets one: behind those that do not come after
/// it, before one that does.
proof fn lemma_new_month(hist: Seq<Seq<char>>, month: Seq<char>, block: Seq<Seq<char>>)
    requires
        month_line(hist, month) >= hist.len(),
        "## "@.is_prefix_of(month),
        months_in(block).len() == 0,
    ensures
        ({
            let at = month_place(hist, month);
            let x = months_in(hist.take(at));
            let z = months_in(hist.skip(at));
            &&& months_in(hist) == x + z
            &&& months_in(filed_under(hist, month, block)) == x + seq![month] + z
            &&& forall|i: int|
                0 <= i < x.len() ==> !before(month, #[trigger] x[i]) && x[i] != month
            &&& z.len() > 0 ==> before(month, z[0])
        }),
{
    let heads = |l: Seq<char>| heads_month(l, month);
    let p = |l: Seq<char>| "## "@.is_prefix_of(l) && before(month, l);
    lemma_first_from(hist, 0, heads);
    lemma_first_from(hist, 0, p);
    let at = month_place(hist, month);
    let a = hist.take(at);
    let c = hist.skip(at);
    let new = seq![month, Seq::empty()];
    assert(hist =~= a + c);
    assert(filed_under(hist, month, block) =~= a + new + block + c);
    lemma_months_concat(a, c);
    lemma_months_concat(a + new + block, c);
    lemma_months_concat(a + new, block);
    lemma_months_concat(a, new);
    reveal_strlit("## ");
    assert(new.drop_last() =~= seq![month]);
    assert(new.drop_last().drop_last() =~= Seq::empty());
    assert(months_in(seq![month].drop_last()) =~= Seq::empty());
    assert(months_in(seq![month]) =~= seq![month]);
    assert(months_in(new) =~= seq![month]);
    let x = months_in(a);
    let z = months_in(c);
    assert(months_in(filed_under(hist, month, block)) =~= x + seq![month] + z);
    let above = |l: Seq<char>| !before(month, l) && l != month;
    assert forall|i: int| 0 <= i < a.len() && "## "@.is_prefix_of(#[trigger] a[i]) implies above(
        a[i],
    ) by {
        assert(!p(hist[i]));
        assert(!heads(hist[i]));
    }
    lemma_months_from(a, above);
    assert forall|i: int| 0 <= i < x.len() implies !before(month, #[trigger] x[i]) && x[i]
        != month by {
        assert(above(x[i]));
    }
    if at < hist.len() {
        let one = seq![hist[at]];
        let rest = hist.skip(at + 1);
        assert(c =~= one + rest);
        lemma_months_concat(one, rest);
        assert(one.drop_last() =~= Seq::empty());
        assert(months_in(one.drop_last()) =~= Seq::empty());
        assert(one.last() == hist[at]);
        assert(months_in(one) =~= one);
        assert(z[0] == hist[at]);
    } else {
        assert(c =~= Seq::empty());
    }
}

proof fn lemma_filed_under_ascends(hist: Seq<Seq<char>>, month: Seq<char>, block: Seq<Seq<char>>)
    requires
        ascending(months_in(hist)),
        "## "@.is_prefix_of(month),
        months_in(block).len() == 0,
    ensures
        ascending(months_in(filed_under(hist, month, block))),
{
    if month_line(hist, month) < hist.len() {
        lemma_old_month(hist, month, block);
    } else {
        lemma_new_month(hist, month, block);
        let at = month_place(hist, month);
        let x = months_in(hist.take(at));
        let z = months_in(hist.skip(at));
        let all = x + seq![month] + z;
        let then = x + z;
        let k = x.len() as int;
        assert forall|i: int, j: int| 0 <= i < j < all.len() implies !before(
            #[trigger] all[j],
            #[trigger] all[i],
        ) by {
            if j < k {
                assert(all[j] == then[j] && all[i] == then[i]);
            } else if j == k {
                assert(all[i] == x[i]);
            } else if i < k {
                assert(all[j] == then[j - 1] && all[i] == then[i]);
            } else if i > k {
                assert(all[j] == then[j - 1] && all[i] == then[i - 1]);
            } else if before(all[j], month) {
                lemma_before_transitive(all[j], month, z[0]);
                assert(then[j - 1] == all[j]);
                assert(then[k] == z[0]);
                if j - 1 == k {
                    lemma_before_irreflexive(z[0]);
                }
            }
        }
    }
}

proof fn lemma_filed_under_strictly(hist: Seq<Seq<char>>, month: Seq<char>, block: Seq<Seq<char>>)
    requires
        strictly_ascending(months_in(hist)),
        "## "@.is_prefix_of(month),
        months_in(block).len() == 0,
    ensures
        strictly_ascending(months_in(filed_under(hist, month, block))),
{
    if month_line(hist, month) < hist.len() {
        lemma_old_month(hist, month, block);
    } else {
        lemma_new_month(hist, month, block);
        let at = month_place(hist, month);
        let x = months_in(hist.take(at));
        let z = months_in(hist.skip(at));
        let all = x + seq![month] + z;
        let then = x + z;
        let k = x.len() as int;
        assert forall|i: int, j: int| 0 <= i < j < all.len() implies before(
            #[trigger] all[i],
            #[trigger] all[j],
        ) by {
            if j < k {
                assert(all[j] == then[j] && all[i] == then[i]);
            } else if j == k {
                assert(all[i] == x[i]);
                lemma_before_total(month, x[i]);
            } else if i < k {
                assert(all[j] == then[j - 1] && all[i] == then[i]);
            } else if i > k {
                assert(all[j] == then[j - 1] && all[i] == then[i - 1]);
            } else {
                assert(then[k] == z[0]);
                assert(then[j - 1] == all[j]);
                if j - 1 > k {
                    lemma_before_transitive(month, z[0], all[j]);
                }
            }
        }
    }
}

proof fn lemma_before_total(a: Seq<char>, b: Seq<char>)
    ensures
        a == b || before(a, b) || before(b, a),
    decreases a.len(),
{
    if a.len() > 0 && b.len() > 0 && a[0] == b[0] {
        lemma_before_total(a.skip(1), b.skip(1));
        if a.skip(1) == b.skip(1) {
            assert(a =~= seq![a[0]] + a.skip(1));
            assert(b =~= seq![b[0]] + b.skip(1));
        }
    } else if a.len() == 0 && b.len() == 0 {
        assert(a =~= b);
    }
}

proof fn lemma_before_irreflexive(a: Seq<char>)
    ensures
        !before(a, a),
    decreases a.len(),
{
    if a.len() > 0 {
        lemma_before_irreflexive(a.skip(1));
    }
}

proof fn lemma_filed_ascends(
    hist: Seq<Seq<char>>,
    lines: Seq<Seq<char>>,
    due: Seq<Option<Seq<char>>>,
    n: int,
)
    requires
        0 <= n <= done_items(lines).len(),
        due.len() == done_items(lines).len(),
        forall|i: int|
            0 <= i < due.len() && (#[trigger] due[i]) is Some ==> "## "@.is_prefix_of(due[i]->0),
    ensures
        ascending(months_in(hist)) ==> ascending(
            months_in(filed(hist, lines, done_items(lines), due, n)),
        ),
        strictly_ascending(months_in(hist)) ==> strictly_ascending(
            months_in(filed(hist, lines, done_items(lines), due, n)),
        ),
    decreases n,
{
    if n > 0 {
        lemma_filed_ascends(hist, lines, due, n - 1);
        if let Some(month) = due[n - 1] {
            let its = done_items(lines);
            lemma_done_items(lines);
            assert(is_top(lines[its[n - 1].start]));
            lemma_block_has_no_month(lines, its[n - 1]);
            let so_far = filed(hist, lines, its, due, n - 1);
            if ascending(months_in(hist)) {
                lemma_filed_under_ascends(so_far, month, block_of(lines, its[n - 1]));
            }
            if strictly_ascending(months_in(hist)) {
                lemma_filed_under_strictly(so_far, month, block_of(lines, its[n - 1]));
            }
        }
    }
}

/// The headings of the history stay in ascending order when done tasks roll over. The
/// months' names start as headings do.
pub proof fn law_months_stay_ascending(
    lines: Seq<Seq<char>>,
    due: Seq<Option<Seq<char>>>,
    hist: Seq<Seq<char>>,
)
    requires
        due.len() == done_items(lines).len(),
        ascending(months_in(hist)),
        forall|i: int|
            0 <= i < due.len() && (#[trigger] due[i]) is Some ==> "## "@.is_prefix_of(due[i]->0),
    ensures
        ascending(months_in(history_filed(lines, due, hist))),
{
    let its = done_items(lines);
    let n = its.len() as int;
    lemma_filed_ascends(hist, lines, due, n);
    let f = filed(hist, lines, its, due, n);
    law_tidy_keeps_lines(f);
    lemma_months_solid(f);
    lemma_months_solid(tidied(f));
}

/// The headings of the history stay in strictly ascending order when done tasks roll over:
/// no month gets a second heading. The months' names start as headings do.
pub proof fn law_months_stay_strictly_ascending(
    lines: Seq<Seq<char>>,
    due: Seq<Option<Seq<char>>>,
    hist: Seq<Seq<char>>,
)
    requires
        due.len() == done_items(lines).len(),
        strictly_ascending(months_in(hist)),
        forall|i: int|
            0 <= i < due.len() && (#[trigger] due[i]) is Some ==> "## "@.is_prefix_of(due[i]->0),
    ensures
        strictly_ascending(months_in(history_filed(lines, due, hist))),
{
    let its = done_items(lines);
    let n = its.len() as int;
    lemma_filed_ascends(hist, lines, due, n);
    let f = filed(hist, lines, its, due, n);
    law_tidy_keeps_lines(f);
    lemma_months_solid(f);
    lemma_months_solid(tidied(f));
}

/// Blank lines are in order in a history that done tasks have rolled into; a blank line
/// stands before every heading but one in the first line.
pub proof fn law_history_is_tidy(
    lines: Seq<Seq<char>>,
    due: Seq<Option<Seq<char>>>,
    hist: Seq<Seq<char>>,
)
    ensures
        is_tidy(history_filed(lines, due, hist)),
        forall|i: int|
            0 < i < history_filed(lines, due, hist).len() && heading(
                #[trigger] history_filed(lines, due, hist)[i],
            ) ==> is_blank(history_filed(lines, due, hist)[i - 1]),
{
    let its = done_items(lines);
    law_tidied_is_tidy(filed(hist, lines, its, due, its.len() as int));
    let t = history_filed(lines, due, hist);
    assert forall|i: int| 0 < i < t.len() && heading(#[trigger] t[i]) implies is_blank(
        t[i - 1],
    ) by {
        lemma_heading_not_blank(t[i]);
    }
}

// ---------------------------------------------------------------------------------
// What stands under a month

/// The lines under a month's heading in the history that are not blank.
pub open spec fn under_month(hist: Seq<Seq<char>>, month: Seq<char>) -> Seq<Seq<char>> {
    let ml = month_line(hist, month);
    if ml < hist.len() {
        solid(hist.subrange(ml + 1, next_section(hist, ml + 1)))
    } else {
        Seq::empty()
    }
}

/// The lines that are not blank of those blocks among the first `n` that roll over into this
/// month, in their order.
pub open spec fn rolled_into(
    lines: Seq<Seq<char>>,
    due: Seq<Option<Seq<char>>>,
    month: Seq<char>,
    n: int,
) -> Seq<Seq<char>>
    decreases n,
{
    if n <= 0 {
        Seq::empty()
    } else if due[n - 1] == Some(month) {
        rolled_into(lines, due, month, n - 1) + solid(block_of(lines, done_items(lines)[n - 1]))
    } else {
        rolled_into(lines, due, month, n - 1)
    }
}

/// Whether `hist` is `a`, the month's first heading, what stands under it, and what follows.
spec fn parted(
    hist: Seq<Seq<char>>,
    month: Seq<char>,
    a: Seq<Seq<char>>,
    b: Seq<Seq<char>>,
    c: Seq<Seq<char>>,
) -> bool {
    &&& hist == a + seq![month] + b + c
    &&& forall|i: int| 0 <= i < a.len() ==> #[trigger] a[i] != month
    &&& forall|i: int| 0 <= i < b.len() ==> !section(#[trigger] b[i])
    &&& c.len() > 0 ==> section(c[0])
}

proof fn lemma_parted(hist: Seq<Seq<char>>, month: Seq<char>)
    requires
        month_line(hist, month) < hist.len(),
    ensures
        ({
            let ml = month_line(hist, month);
            let e = next_section(hist, ml + 1);
            &&& 0 <= ml < e <= hist.len()
            &&& parted(hist, month, hist.take(ml), hist.subrange(ml + 1, e), hist.skip(e))
        }),
{
    let heads = |l: Seq<char>| heads_month(l, month);
    let sec = |l: Seq<char>| section(l);
    lemma_first_from(hist, 0, heads);
    let ml = month_line(hist, month);
    lemma_first_from(hist, ml + 1, sec);
    let e = next_section(hist, ml + 1);
    let a = hist.take(ml);
    let b = hist.subrange(ml + 1, e);
    assert(heads(hist[ml]));
    assert(hist =~= a + seq![month] + b + hist.skip(e));
    assert forall|i: int| 0 <= i < a.len() implies #[trigger] a[i] != month by {
        assert(!heads(hist[i]));
    }
    assert forall|i: int| 0 <= i < b.len() implies !section(#[trigger] b[i]) by {
        assert(!sec(hist[ml + 1 + i]));
    }
    if e < hist.len() {
        assert(sec(hist[e]));
    }
}

proof fn lemma_parts(
    hist: Seq<Seq<char>>,
    month: Seq<char>,
    a: Seq<Seq<char>>,
    b: Seq<Seq<char>>,
    c: Seq<Seq<char>>,
)
    requires
        parted(hist, month, a, b, c),
    ensures
        month_line(hist, month) == a.len(),
        month_line(hist, month) < hist.len(),
        next_section(hist, a.len() as int + 1) == a.len() + 1 + b.len(),
        under_month(hist, month) == solid(b),
{
    let heads = |l: Seq<char>| heads_month(l, month);
    let sec = |l: Seq<char>| section(l);
    let n = a.len() as int;
    let e = n + 1 + b.len();
    assert(hist[n] == month);
    assert forall|i: int| 0 <= i < n implies !heads(#[trigger] hist[i]) by {
        assert(hist[i] == a[i]);
    }
    lemma_first_from_is(hist, 0, heads, n);
    assert forall|i: int| n + 1 <= i < e implies !sec(#[trigger] hist[i]) by {
        assert(hist[i] == b[i - n - 1]);
    }
    if e < hist.len() {
        assert(hist[e] == c[0]);
    }
    lemma_first_from_is(hist, n + 1, sec, e);
    assert(hist.subrange(n + 1, e) =~= b);
}

/// No line is the heading of a month that has none.
proof fn lemma_no_month(hist: Seq<Seq<char>>, month: Seq<char>)
    requires
        forall|i: int| 0 <= i < hist.len() ==> #[trigger] hist[i] != month,
    ensures
        month_line(hist, month) == hist.len(),
        under_month(hist, month) == Seq::<Seq<char>>::empty(),
{
    lemma_first_from_is(hist, 0, |l: Seq<char>| heads_month(l, month), hist.len() as int);
}

/// What is put into the history before a month's heading, or behind what stands under it,
/// leaves that as it is.
proof fn lemma_spliced_elsewhere(
    hist: Seq<Seq<char>>,
    at: int,
    new: Seq<Seq<char>>,
    month: Seq<char>,
    a: Seq<Seq<char>>,
    b: Seq<Seq<char>>,
    c: Seq<Seq<char>>,
)
    requires
        parted(hist, month, a, b, c),
        0 <= at <= hist.len(),
        forall|i: int| 0 <= i < new.len() ==> #[trigger] new[i] != month,
        at <= a.len() || at > a.len() + 1 + b.len() || (at == a.len() + 1 + b.len() && new.len() > 0
            && section(new[0])),
    ensures
        under_month(spliced(hist, at, new), month) == solid(b),
{
    let t = spliced(hist, at, new);
    let e = a.len() + 1 + b.len();
    if at <= a.len() {
        let a2 = a.take(at) + new + a.skip(at);
        assert(t =~= a2 + seq![month] + b + c);
        assert forall|i: int| 0 <= i < a2.len() implies #[trigger] a2[i] != month by {
            if i < at {
                assert(a2[i] == a[i]);
            } else if i < at + new.len() {
                assert(a2[i] == new[i - at]);
            } else {
                assert(a2[i] == a[i - new.len()]);
            }
        }
        lemma_parts(t, month, a2, b, c);
    } else {
        let c2 = c.take(at - e) + new + c.skip(at - e);
        assert(t =~= a + seq![month] + b + c2);
        lemma_parts(t, month, a, b, c2);
    }
}

/// A block added to the history stands behind what its month had; other months keep what
/// they had.
proof fn lemma_filed_under_month(
    hist: Seq<Seq<char>>,
    month: Seq<char>,
    block: Seq<Seq<char>>,
    other: Seq<char>,
)
    requires
        "## "@.is_prefix_of(month),
        "## "@.is_prefix_of(other),
        forall|i: int| 0 <= i < block.len() ==> !section(#[trigger] block[i]),
    ensures
        under_month(filed_under(hist, month, block), other) == (if other == month {
            under_month(hist, month) + solid(block)
        } else {
            under_month(hist, other)
        }),
{
    let heads = |l: Seq<char>| heads_month(l, month);
    let others = |l: Seq<char>| heads_month(l, other);
    let f = filed_under(hist, month, block);
    lemma_month_is_heading(month);
    lemma_month_is_heading(other);
    lemma_first_from(hist, 0, heads);
    lemma_first_from(hist, 0, others);
    let ml = month_line(hist, month);
    let ol = month_line(hist, other);
    if ol < hist.len() {
        lemma_parted(hist, other);
    }
    let e2 = next_section(hist, ol + 1);
    if ml < hist.len() {
        lemma_parted(hist, month);
        let at = next_section(hist, ml + 1);
        let a = hist.take(ml);
        let b = hist.subrange(ml + 1, at);
        let c = hist.skip(at);
        if other == month {
            assert(f =~= a + seq![month] + (b + block) + c);
            lemma_parts(f, month, a, b + block, c);
            lemma_solid_concat(b, block);
        } else if ol < hist.len() {
            if ol < ml {
                assert(ml >= e2) by {
                    if ml < e2 {
                        assert(hist.subrange(ol + 1, e2)[ml - ol - 1] == hist[ml]);
                    }
                }
            } else {
                assert(ol >= at) by {
                    if ol < at {
                        assert(b[ol - ml - 1] == hist[ol]);
                    }
                }
            }
            assert forall|i: int| 0 <= i < block.len() implies #[trigger] block[i] != other by {
                assert(!section(block[i]));
            }
            lemma_spliced_elsewhere(
                hist,
                at,
                block,
                other,
                hist.take(ol),
                hist.subrange(ol + 1, e2),
                hist.skip(e2),
            );
        } else {
            assert forall|i: int| 0 <= i < f.len() implies #[trigger] f[i] != other by {
                if i < at {
                    assert(!others(hist[i]));
                } else if i < at + block.len() {
                    assert(f[i] == block[i - at]);
                } else {
                    assert(!others(hist[i - block.len()]));
                }
            }
            lemma_no_month(f, other);
        }
    } else {
        let p = |l: Seq<char>| "## "@.is_prefix_of(l) && before(month, l);
        lemma_first_from(hist, 0, p);
        let at = month_place(hist, month);
        let empty = Seq::<char>::empty();
        let new = seq![month, empty] + block;
        assert(f =~= spliced(hist, at, new));
        if at < hist.len() {
            assert(p(hist[at]));
            lemma_month_is_heading(hist[at]);
        }
        if other == month {
            let a = hist.take(at);
            let b = seq![empty] + block;
            let c = hist.skip(at);
            assert(f =~= a + seq![month] + b + c);
            assert forall|i: int| 0 <= i < a.len() implies #[trigger] a[i] != month by {
                assert(!heads(hist[i]));
            }
            assert forall|i: int| 0 <= i < b.len() implies !section(#[trigger] b[i]) by {
                if i > 0 {
                    assert(b[i] == block[i - 1]);
                }
            }
            lemma_parts(f, month, a, b, c);
            lemma_solid_concat(seq![empty], block);
            assert(is_blank(empty));
            lemma_solid_blank(seq![empty]);
            assert(solid(seq![empty]) + solid(block) =~= solid(block));
            assert(under_month(hist, month) + solid(block) =~= solid(block));
        } else {
            assert forall|i: int| 0 <= i < new.len() implies #[trigger] new[i] != other by {
                if i >= 2 {
                    assert(new[i] == block[i - 2]);
                }
            }
            if ol < hist.len() {
                if at > ol && at < hist.len() {
                    assert(at >= e2) by {
                        if at < e2 {
                            assert(hist.subrange(ol + 1, e2)[at - ol - 1] == hist[at]);
                        }
                    }
                }
                lemma_spliced_elsewhere(
                    hist,
                    at,
                    new,
                    other,
                    hist.take(ol),
                    hist.subrange(ol + 1, e2),
                    hist.skip(e2),
                );
            } else {
                assert forall|i: int| 0 <= i < f.len() implies #[trigger] f[i] != other by {
                    if i < at {
                        assert(!others(hist[i]));
                    } else if i < at + new.len() {
                        assert(f[i] == new[i - at]);
                    } else {
                        assert(!others(hist[i - new.len()]));
                    }
                }
                lemma_no_month(f, other);
            }
        }
    }
}

/// A block of a task holds no section's heading.
proof fn lemma_block_has_no_section(lines: Seq<Seq<char>>, it: ItemModel, i: int)
    requires
        0 <= it.start < lines.len(),
        is_top(lines[it.start]),
        it == item_at(lines, it.start),
        0 <= i < block_of(lines, it).len(),
    ensures
        !section(block_of(lines, it)[i]),
{
    lemma_block_end(lines, it.start);
    let l = block_of(lines, it)[i];
    assert(l == lines[it.start + i]);
    if section(l) {
        lemma_heading_not_blank(l);
        if i > 0 {
            assert(under(lines[it.start + i]));
        }
    }
}

proof fn lemma_filed_months(
    hist: Seq<Seq<char>>,
    lines: Seq<Seq<char>>,
    due: Seq<Option<Seq<char>>>,
    n: int,
    month: Seq<char>,
)
    requires
        0 <= n <= done_items(lines).len(),
        due.len() == done_items(lines).len(),
        forall|i: int|
            0 <= i < due.len() && (#[trigger] due[i]) is Some ==> "## "@.is_prefix_of(due[i]->0),
        "## "@.is_prefix_of(month),
    ensures
        under_month(filed(hist, lines, done_items(lines), due, n), month) == under_month(
            hist,
            month,
        ) + rolled_into(lines, due, month, n),
    decreases n,
{
    let its = done_items(lines);
    let had = under_month(hist, month);
    if n > 0 {
        lemma_filed_months(hist, lines, due, n - 1, month);
        if let Some(m) = due[n - 1] {
            lemma_done_items(lines);
            let it = its[n - 1];
            let block = block_of(lines, it);
            assert(is_top(lines[it.start]));
            assert forall|i: int| 0 <= i < block.len() implies !section(#[trigger] block[i]) by {
                lemma_block_has_no_section(lines, it, i);
            }
            lemma_filed_under_month(filed(hist, lines, its, due, n - 1), m, block, month);
            let so_far = rolled_into(lines, due, month, n - 1);
            assert(had + so_far + solid(block) =~= had + (so_far + solid(block)));
        }
    } else {
        assert(had + Seq::<Seq<char>>::empty() =~= had);
    }
}

/// What stands under a month is told by the lines that are not blank.
proof fn lemma_under_month_solid(hist: Seq<Seq<char>>, month: Seq<char>)
    requires
        "## "@.is_prefix_of(month),
    ensures
        under_month(solid(hist), month) == under_month(hist, month),
{
    let heads = |l: Seq<char>| heads_month(l, month);
    lemma_month_is_heading(month);
    lemma_first_from(hist, 0, heads);
    let ml = month_line(hist, month);
    let s = solid(hist);
    if ml < hist.len() {
        lemma_parted(hist, month);
        let e = next_section(hist, ml + 1);
        let a = hist.take(ml);
        let b = hist.subrange(ml + 1, e);
        let c = hist.skip(e);
        lemma_solid_concat(a + seq![month] + b, c);
        lemma_solid_concat(a + seq![month], b);
        lemma_solid_push(a, month);
        assert(a.push(month) =~= a + seq![month]);
        assert(s =~= solid(a) + seq![month] + solid(b) + solid(c));
        let no_month = |l: Seq<char>| l != month;
        let no_section = |l: Seq<char>| !section(l);
        assert forall|i: int| 0 <= i < a.len() implies no_month(#[trigger] a[i]) by {}
        lemma_solid_all(a, no_month);
        assert forall|i: int| 0 <= i < solid(a).len() implies #[trigger] solid(a)[i] != month by {
            assert(no_month(solid(a)[i]));
        }
        assert forall|i: int| 0 <= i < b.len() implies no_section(#[trigger] b[i]) by {}
        lemma_solid_all(b, no_section);
        assert forall|i: int| 0 <= i < solid(b).len() implies !section(#[trigger] solid(b)[i]) by {
            assert(no_section(solid(b)[i]));
        }
        if c.len() > 0 {
            lemma_heading_not_blank(c[0]);
        }
        lemma_solid_first(c, 0);
        lemma_parts(s, month, solid(a), solid(b), solid(c));
        lemma_solid_twice(b);
    } else {
        assert forall|i: int| 0 <= i < s.len() implies #[trigger] s[i] != month by {
            lemma_solid_from(hist, i);
            let k = choose|k: int| 0 <= k < hist.len() && hist[k] == s[i];
            assert(!heads(hist[k]));
        }
        lemma_no_month(s, month);
    }
}

proof fn lemma_solid_twice(lines: Seq<Seq<char>>)
    ensures
        solid(solid(lines)) == solid(lines),
    decreases lines.len(),
{
    if lines.len() > 0 {
        lemma_solid_twice(lines.drop_last());
        if !is_blank(lines.last()) {
            lemma_solid_push(solid(lines.drop_last()), lines.last());
        }
    }
}

/// Each done task that rolls over stands with its block under the heading of its own month,
/// behind what that month already had, and the tasks of one month in their order. Nothing
/// else comes to stand under a month. The months' names start as headings do.
pub proof fn law_months_hold_their_tasks(
    lines: Seq<Seq<char>>,
    due: Seq<Option<Seq<char>>>,
    hist: Seq<Seq<char>>,
    month: Seq<char>,
)
    requires
        due.len() == done_items(lines).len(),
        forall|i: int|
            0 <= i < due.len() && (#[trigger] due[i]) is Some ==> "## "@.is_prefix_of(due[i]->0),
        "## "@.is_prefix_of(month),
    ensures
        under_month(history_filed(lines, due, hist), month) == under_month(hist, month)
            + rolled_into(lines, due, month, due.len() as int),
{
    let its = done_items(lines);
    let n = its.len() as int;
    let f = filed(hist, lines, its, due, n);
    lemma_filed_months(hist, lines, due, n, month);
    law_tidy_keeps_lines(f);
    lemma_under_month_solid(f, month);
    lemma_under_month_solid(tidied(f), month);
}

} // verus!
