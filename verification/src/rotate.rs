//! What leaves the todo file: done tasks that roll over into the history file, and sections
//! that are archived. Also collapsing sections.
use crate::app::{
    clamped, entries_of, entry_models, entry_under, lemma_item_under, remembered, App, Entry,
    EntryModel, State,
};
use crate::clock::{
    formatted, is_sooner, kept_days_before, month_format, month_heading, on_calendar, parsed,
    rotation_cutoff, sooner, stamp_format, stamp_moment, Moment,
};
use crate::laws::months::{
    ascending, law_months_hold_their_tasks, law_months_stay_ascending,
    law_months_stay_strictly_ascending, months_in, rolled_into, strictly_ascending, under_month,
};
use crate::lines::{
    copy_range, cut_lines, join, joined, put_line, put_lines, spliced, split_lines, texts, to_lines,
    without,
};
use crate::outline::{
    drop_blank_end, find_section, find_stop, has_heading, heading_index, item_at, item_models,
    items, items_of, items_upto, lemma_block_end, lemma_top_not_blank, next_section, next_stop,
    pop_blank_end, tidied, tidy_lines, Item, ItemModel,
};
use crate::search::{back_from, first_from};
use crate::task::{
    behind_box, ends_todo, heading_name, is_section, is_task, is_top, name_in, section, split_stamp,
    stamp_of, stops_todo, task_mark, text_behind,
};
use crate::text::{before, cat, is_before, same, starts_with};
use vstd::prelude::*;

verus! {

// ---------------------------------------------------------------------------------
// The history of done tasks

/// The line before which a month's heading goes in the history: the first heading that
/// comes after it in the order of their text.
pub open spec fn month_place(hist: Seq<Seq<char>>, month: Seq<char>) -> int {
    first_from(hist, 0, |l: Seq<char>| "## "@.is_prefix_of(l) && before(month, l))
}

/// Whether a line is this month's heading.
pub open spec fn heads_month(l: Seq<char>, month: Seq<char>) -> bool {
    l == month
}

/// The line of a month's heading in the history; the number of lines if there is none.
pub open spec fn month_line(hist: Seq<Seq<char>>, month: Seq<char>) -> int {
    first_from(hist, 0, |l: Seq<char>| heads_month(l, month))
}

/// The history with a block of lines added at the end of a month. A month that has no
/// heading yet gets one, months staying in ascending order.
pub open spec fn filed_under(
    hist: Seq<Seq<char>>,
    month: Seq<char>,
    block: Seq<Seq<char>>,
) -> Seq<Seq<char>> {
    if month_line(hist, month) < hist.len() {
        spliced(hist, next_section(hist, month_line(hist, month) + 1), block)
    } else {
        let at = month_place(hist, month);
        spliced(hist.insert(at, month).insert(at + 1, Seq::empty()), at + 2, block)
    }
}

/// Adds a block of lines at the end of a month in the history.
pub fn file_under(hist: &mut Vec<String>, month: &str, block: Vec<String>)
    ensures
        texts(final(hist)@) == filed_under(texts(old(hist)@), month@, texts(block@)),
{
    let ghost t = texts(hist@);
    let n: usize = hist.len();
    let mut p: usize = 0;
    while p < n && !same(hist[p].as_str(), month)
        invariant
            p <= n,
            n == hist@.len(),
            t == texts(hist@),
            first_from(t, p as int, |l: Seq<char>| heads_month(l, month@)) == month_line(t, month@),
        decreases n - p,
    {
        assert(t[p as int] == hist@[p as int]@);
        p += 1;
    }
    if p < n {
        assert(t[p as int] == hist@[p as int]@);
        let at: usize = find_section(hist, p + 1);
        put_lines(hist, at, block);
    } else {
        let mut at: usize = 0;
        while at < n && !(starts_with(hist[at].as_str(), "## ") && is_before(
            month,
            hist[at].as_str(),
        ))
            invariant
                at <= n,
                n == hist@.len(),
                t == texts(hist@),
                first_from(
                    t,
                    at as int,
                    |l: Seq<char>| "## "@.is_prefix_of(l) && before(month@, l),
                ) == month_place(t, month@),
            decreases n - at,
        {
            assert(t[at as int] == hist@[at as int]@);
            at += 1;
        }
        if at < n {
            assert(t[at as int] == hist@[at as int]@);
        }
        put_line(hist, at, month.to_string());
        let one: usize = hist.len();
        assert(one == texts(hist@).len());
        put_line(hist, at + 1, String::new());
        let two: usize = hist.len();
        assert(two == texts(hist@).len());
        put_lines(hist, at + 2, block);
    }
}

/// The end of the Done section: the next heading that ends it.
pub open spec fn done_end(lines: Seq<Seq<char>>) -> int {
    next_stop(lines, heading_index(lines, "done"@) + 1)
}

/// The items in the Done section.
pub open spec fn done_items(lines: Seq<Seq<char>>) -> Seq<ItemModel> {
    items_of(lines).filter(
        |it: ItemModel| heading_index(lines, "done"@) < it.start < done_end(lines),
    )
}

/// The month under which a task that names this moment rolls over, if it does: the task
/// was done before the cutoff.
pub open spec fn due_at(at: Option<Moment>, cutoff: Moment) -> Option<Seq<char>> {
    match at {
        Some(at) => if sooner(at, cutoff) {
            Some(formatted(at, month_format()))
        } else {
            None
        },
        None => None,
    }
}

/// The moment at which a task's line says that it was done.
pub open spec fn done_moment(l: Seq<char>) -> Option<Moment> {
    match stamp_of(behind_box(l)) {
        Some(stamp) => parsed(stamp, stamp_format()),
        None => None,
    }
}

/// For each item in the Done section the month under which it rolls over, if it does.
pub open spec fn due_months(lines: Seq<Seq<char>>, cutoff: Moment) -> Seq<Option<Seq<char>>> {
    let its = done_items(lines);
    Seq::new(its.len(), |i: int| due_at(done_moment(lines[its[i].start]), cutoff))
}

/// What a list of months says.
pub open spec fn month_models(due: Seq<Option<String>>) -> Seq<Option<Seq<char>>> {
    Seq::new(
        due.len(),
        |i: int|
            match due[i] {
                Some(month) => Some(month@),
                None => None,
            },
    )
}

/// The lines without the blocks of the items from the `k`th on that roll over.
pub open spec fn remaining(
    lines: Seq<Seq<char>>,
    its: Seq<ItemModel>,
    due: Seq<Option<Seq<char>>>,
    k: int,
) -> Seq<Seq<char>>
    decreases its.len() - k,
{
    if k >= its.len() {
        lines
    } else {
        let rest = remaining(lines, its, due, k + 1);
        if due[k] is Some {
            without(rest, its[k].start, its[k].start + its[k].len)
        } else {
            rest
        }
    }
}

/// The lines of an item's block.
pub open spec fn block_of(lines: Seq<Seq<char>>, it: ItemModel) -> Seq<Seq<char>> {
    lines.subrange(it.start, it.start + it.len)
}

/// The history with the blocks of those of the first `n` items that roll over.
pub open spec fn filed(
    hist: Seq<Seq<char>>,
    lines: Seq<Seq<char>>,
    its: Seq<ItemModel>,
    due: Seq<Option<Seq<char>>>,
    n: int,
) -> Seq<Seq<char>>
    decreases n,
{
    if n <= 0 {
        hist
    } else {
        let so_far = filed(hist, lines, its, due, n - 1);
        match due[n - 1] {
            Some(month) => filed_under(so_far, month, block_of(lines, its[n - 1])),
            None => so_far,
        }
    }
}

/// Whether any item rolls over.
pub open spec fn any_due(due: Seq<Option<Seq<char>>>) -> bool {
    exists|i: int| 0 <= i < due.len() && (#[trigger] due[i]) is Some
}

/// The state after those done tasks roll over for which a month is given.
pub open spec fn rotated(s: State, due: Seq<Option<Seq<char>>>) -> State {
    if has_heading(s.lines, "done"@) && any_due(due) {
        clamped(State { lines: tidied(remaining(s.lines, done_items(s.lines), due, 0)), ..s })
    } else {
        s
    }
}

/// The lines of the history after done tasks roll over.
pub open spec fn history_filed(
    lines: Seq<Seq<char>>,
    due: Seq<Option<Seq<char>>>,
    hist: Seq<Seq<char>>,
) -> Seq<Seq<char>> {
    let its = done_items(lines);
    tidied(filed(hist, lines, its, due, its.len() as int))
}

/// The text of the history file after done tasks roll over, if any do.
pub open spec fn history_after(
    s: State,
    due: Seq<Option<Seq<char>>>,
    history: Seq<char>,
) -> Option<Seq<char>> {
    if has_heading(s.lines, "done"@) && any_due(due) {
        Some(joined(history_filed(s.lines, due, split_lines(history, 1)), "\n"@) + "\n"@)
    } else {
        None
    }
}

/// Whether the history is kept in order when done tasks roll over: its headings stay in
/// ascending order, or in strictly ascending order, if they were, and each month holds what
/// it held and behind that the tasks that roll over into it.
pub open spec fn keeps_months(
    lines: Seq<Seq<char>>,
    due: Seq<Option<Seq<char>>>,
    history: Seq<char>,
) -> bool {
    let hist = split_lines(history, 1);
    let now = history_filed(lines, due, hist);
    &&& ascending(months_in(hist)) ==> ascending(months_in(now))
    &&& strictly_ascending(months_in(hist)) ==> strictly_ascending(months_in(now))
    &&& forall|month: Seq<char>|
        "## "@.is_prefix_of(month) ==> #[trigger] under_month(now, month) == under_month(
            hist,
            month,
        ) + rolled_into(lines, due, month, due.len() as int)
}

proof fn lemma_keeps_months(
    lines: Seq<Seq<char>>,
    due: Seq<Option<Seq<char>>>,
    history: Seq<char>,
)
    requires
        due.len() == done_items(lines).len(),
        forall|i: int|
            0 <= i < due.len() && (#[trigger] due[i]) is Some ==> "## "@.is_prefix_of(due[i]->0),
    ensures
        keeps_months(lines, due, history),
{
    let hist = split_lines(history, 1);
    let now = history_filed(lines, due, hist);
    if ascending(months_in(hist)) {
        law_months_stay_ascending(lines, due, hist);
    }
    if strictly_ascending(months_in(hist)) {
        law_months_stay_strictly_ascending(lines, due, hist);
    }
    assert forall|month: Seq<char>| "## "@.is_prefix_of(month) implies #[trigger] under_month(
        now,
        month,
    ) == under_month(hist, month) + rolled_into(lines, due, month, due.len() as int) by {
        law_months_hold_their_tasks(lines, due, hist, month);
    }
}

/// What an optional string says.
pub open spec fn maybe_text(s: Option<String>) -> Option<Seq<char>> {
    match s {
        Some(s) => Some(s@),
        None => None,
    }
}

/// The first `n` items are items of the lines, in order, one block after the other.
pub proof fn lemma_items(lines: Seq<Seq<char>>, n: int)
    requires
        0 <= n <= lines.len(),
    ensures
        forall|k: int|
            0 <= k < items_upto(lines, n).len() ==> {
                let it = #[trigger] items_upto(lines, n)[k];
                0 <= it.start < n && is_top(lines[it.start]) && it == item_at(lines, it.start)
            },
        forall|j: int, k: int|
            0 <= j < k < items_upto(lines, n).len() ==> (#[trigger] items_upto(lines, n)[j]).start
                < (#[trigger] items_upto(lines, n)[k]).start,
    decreases n,
{
    if n > 0 {
        lemma_items(lines, n - 1);
        let a = items_upto(lines, n - 1);
        let b = items_upto(lines, n);
        assert forall|k: int| 0 <= k < b.len() implies {
            let it = #[trigger] b[k];
            0 <= it.start < n && is_top(lines[it.start]) && it == item_at(lines, it.start)
        } by {
            if k < a.len() {
                assert(b[k] == a[k]);
            }
        }
        assert forall|j: int, k: int| 0 <= j < k < b.len() implies (#[trigger] b[j]).start < (
        #[trigger] b[k]).start by {
            assert(b[j] == a[j]);
            if k < a.len() {
                assert(b[k] == a[k]);
            }
        }
    }
}

/// A task and the lines under it end where the next task starts, or before.
pub proof fn lemma_items_apart(lines: Seq<Seq<char>>, a: int, b: int)
    requires
        0 <= a < b < lines.len(),
        is_top(lines[a]),
        is_top(lines[b]),
    ensures
        a + item_at(lines, a).len <= b,
{
    lemma_block_end(lines, a);
    lemma_top_not_blank(lines[b]);
}

/// The items in the Done section are items of the lines, in order, one block after the
/// other.
pub proof fn lemma_done_items(lines: Seq<Seq<char>>)
    ensures
        forall|k: int|
            0 <= k < done_items(lines).len() ==> {
                let it = #[trigger] done_items(lines)[k];
                &&& 0 <= it.start < it.start + it.len <= lines.len()
                &&& is_top(lines[it.start])
                &&& it == item_at(lines, it.start)
                &&& heading_index(lines, "done"@) < it.start < done_end(lines)
            },
        forall|j: int, k: int|
            0 <= j < k < done_items(lines).len() ==> (#[trigger] done_items(lines)[j]).start
                + done_items(lines)[j].len <= (#[trigger] done_items(lines)[k]).start,
{
    let all = items_of(lines);
    let p = |it: ItemModel| heading_index(lines, "done"@) < it.start < done_end(lines);
    lemma_items(lines, lines.len() as int);
    lemma_filter_ordered(all, p);
    let its = done_items(lines);
    assert forall|k: int| 0 <= k < its.len() implies {
        let it = #[trigger] its[k];
        &&& 0 <= it.start < it.start + it.len <= lines.len()
        &&& is_top(lines[it.start])
        &&& it == item_at(lines, it.start)
        &&& heading_index(lines, "done"@) < it.start < done_end(lines)
    } by {
        let it = its[k];
        assert(all.contains(it) && p(it));
        let j = choose|j: int| 0 <= j < all.len() && all[j] == it;
        assert(all[j] == it);
        lemma_block_end(lines, it.start);
    }
    assert forall|j: int, k: int| 0 <= j < k < its.len() implies (#[trigger] its[j]).start
        + its[j].len <= (#[trigger] its[k]).start by {
        lemma_items_apart(lines, its[j].start, its[k].start);
    }
}

/// What is left of a list in order of their lines is in that order.
proof fn lemma_filter_ordered(all: Seq<ItemModel>, p: spec_fn(ItemModel) -> bool)
    requires
        forall|j: int, k: int|
            0 <= j < k < all.len() ==> (#[trigger] all[j]).start < (#[trigger] all[k]).start,
    ensures
        forall|k: int|
            0 <= k < all.filter(p).len() ==> all.contains(#[trigger] all.filter(p)[k]) && p(
                all.filter(p)[k],
            ),
        forall|j: int, k: int|
            0 <= j < k < all.filter(p).len() ==> (#[trigger] all.filter(p)[j]).start < (
            #[trigger] all.filter(p)[k]).start,
    decreases all.len(),
{
    reveal(Seq::filter);
    if all.len() > 0 {
        let rest = all.drop_last();
        lemma_filter_ordered(rest, p);
        let f = rest.filter(p);
        assert forall|k: int| 0 <= k < all.filter(p).len() implies all.contains(
            #[trigger] all.filter(p)[k],
        ) && p(all.filter(p)[k]) by {
            if k < f.len() {
                assert(all.filter(p)[k] == f[k]);
                assert(rest.contains(f[k]));
                let j = choose|j: int| 0 <= j < rest.len() && rest[j] == f[k];
                assert(all[j] == f[k]);
            } else {
                assert(all.filter(p)[k] == all.last());
                assert(all[all.len() - 1] == all.last());
            }
        }
        assert forall|j: int, k: int| 0 <= j < k < all.filter(p).len() implies (
        #[trigger] all.filter(p)[j]).start < (#[trigger] all.filter(p)[k]).start by {
            assert(all.filter(p)[j] == f[j]);
            if k < f.len() {
                assert(all.filter(p)[k] == f[k]);
            } else {
                assert(rest.contains(f[j]));
                let i = choose|i: int| 0 <= i < rest.len() && rest[i] == f[j];
                assert(all[i] == f[j]);
                assert(all[all.len() - 1] == all.last());
            }
        }
    }
}

/// Taking out later blocks leaves the lines before them.
pub proof fn lemma_remaining(
    lines: Seq<Seq<char>>,
    its: Seq<ItemModel>,
    due: Seq<Option<Seq<char>>>,
    k: int,
    bound: int,
)
    requires
        0 <= k <= its.len(),
        0 <= bound <= lines.len(),
        forall|i: int|
            0 <= i < its.len() ==> 0 <= (#[trigger] its[i]).start && 0 < its[i].len && its[i].start
                + its[i].len <= lines.len(),
        forall|i: int, j: int|
            0 <= i < j < its.len() ==> (#[trigger] its[i]).start + its[i].len <= (
            #[trigger] its[j]).start,
        forall|i: int| k <= i < its.len() ==> bound <= (#[trigger] its[i]).start,
    ensures
        bound <= remaining(lines, its, due, k).len(),
        forall|i: int| 0 <= i < bound ==> #[trigger] remaining(lines, its, due, k)[i] == lines[i],
    decreases its.len() - k,
{
    if k < its.len() {
        let end = its[k].start + its[k].len;
        assert forall|i: int| k + 1 <= i < its.len() implies end <= (#[trigger] its[i]).start by {
            assert(its[k].start + its[k].len <= its[i].start);
        }
        lemma_remaining(lines, its, due, k + 1, end);
    }
}

/// The month under which a task that names this moment rolls over, if it does.
pub fn month_due(at: Option<Moment>, cutoff: Moment) -> (r: Option<String>)
    requires
        at matches Some(m) ==> on_calendar(m),
    ensures
        maybe_text(r) == due_at(at, cutoff),
        r matches Some(month) ==> "## "@.is_prefix_of(month@),
{
    match at {
        Some(at) => if is_sooner(at, cutoff) {
            Some(month_heading(at))
        } else {
            None
        },
        None => None,
    }
}

impl App {
    /// The items in the Done section, if there is one.
    pub fn items_done(&self) -> (r: Vec<Item>)
        requires
            has_heading(self@.lines, "done"@),
        ensures
            item_models(r@) == done_items(self@.lines),
    {
        let ghost t = self@.lines;
        let mut out: Vec<Item> = Vec::new();
        if let Some(h) = self.heading_line("done") {
            let len: usize = self.lines.len();
            assert(h < len);
            let end: usize = find_stop(&self.lines, h + 1);
            let all: Vec<Item> = items(&self.lines);
            let n: usize = all.len();
            let ghost m = item_models(all@);
            let ghost p = |it: ItemModel| heading_index(t, "done"@) < it.start < done_end(t);
            proof {
                reveal(Seq::filter);
                assert(item_models(out@) =~= m.take(0).filter(p));
            }
            for i in 0..n
                invariant
                    n == all@.len(),
                    m == item_models(all@),
                    h == heading_index(t, "done"@),
                    end == done_end(t),
                    p == (|it: ItemModel| heading_index(t, "done"@) < it.start < done_end(t)),
                    item_models(out@) == m.take(i as int).filter(p),
            {
                let ghost seen = item_models(out@);
                proof {
                    reveal(Seq::filter);
                    assert(m.take(i + 1).drop_last() =~= m.take(i as int));
                    assert(m.take(i + 1).last() == all@[i as int]@);
                }
                if all[i].start > h && all[i].start < end {
                    out.push(all[i]);
                    assert(item_models(out@) =~= seen.push(all@[i as int]@));
                }
            }
            assert(m.take(n as int) =~= m);
        }
        out
    }

    /// Rolls over those done tasks for which a month is given: their blocks leave the
    /// todo file for the history. Returns the new text of the history file, if any do; the
    /// todo file is then to be written too.
    pub fn rotate_due(&mut self, due: &Vec<Option<String>>, history: &str) -> (r: Option<String>)
        requires
            has_heading(old(self)@.lines, "done"@) ==> due@.len() == done_items(
                old(self)@.lines,
            ).len(),
        ensures
            final(self)@ == rotated(old(self)@, month_models(due@)),
            maybe_text(r) == history_after(old(self)@, month_models(due@), history@),
    {
        let ghost s = self@;
        let ghost t = s.lines;
        if self.heading_line("done").is_none() {
            return None;
        }
        let its: Vec<Item> = self.items_done();
        let n: usize = its.len();
        let ghost m = item_models(its@);
        let ghost d = month_models(due@);
        assert(m.len() == n);
        proof {
            lemma_done_items(t);
        }
        let mut hist: Vec<String> = to_lines(history, 1);
        let ghost before = texts(hist@);
        let mut any: bool = false;
        for i in 0..n
            invariant
                n == its@.len(),
                n == due@.len(),
                m == item_models(its@),
                d == month_models(due@),
                t == texts(self.lines@),
                forall|k: int|
                    0 <= k < m.len() ==> 0 <= (#[trigger] m[k]).start < m[k].start + m[k].len
                        <= t.len(),
                texts(hist@) == filed(before, t, m, d, i as int),
                any == exists|k: int| 0 <= k < i && (#[trigger] d[k]) is Some,
        {
            assert(m[i as int] == its@[i as int]@);
            let it: Item = its[i];
            let len: usize = self.lines.len();
            assert(it.start + it.len <= len);
            if let Some(month) = &due[i] {
                assert(d[i as int] == Some(month@));
                let block: Vec<String> = copy_range(&self.lines, it.start, it.start + it.len);
                file_under(&mut hist, month.as_str(), block);
                any = true;
            } else {
                assert(d[i as int] is None);
            }
        }
        assert(any == any_due(d)) by {
            if any_due(d) {
                let k = choose|k: int| 0 <= k < d.len() && (#[trigger] d[k]) is Some;
                assert(d[k] is Some);
            }
        }
        if !any {
            return None;
        }
        let mut k: usize = n;
        while k > 0
            invariant
                k <= n,
                n == its@.len(),
                n == due@.len(),
                m == item_models(its@),
                d == month_models(due@),
                forall|i: int|
                    0 <= i < m.len() ==> 0 <= (#[trigger] m[i]).start < m[i].start + m[i].len
                        <= t.len(),
                forall|i: int, j: int|
                    0 <= i < j < m.len() ==> (#[trigger] m[i]).start + m[i].len <= (
                    #[trigger] m[j]).start,
                self@ == (State { lines: remaining(t, m, d, k as int), ..s }),
            decreases k,
        {
            k -= 1;
            let it: Item = its[k];
            proof {
                assert(m[k as int] == its@[k as int]@);
                lemma_remaining(t, m, d, k + 1, it.start + it.len);
            }
            let len: usize = self.lines.len();
            assert(it.start + it.len <= len);
            if due[k].is_some() {
                assert(d[k as int] is Some);
                let _ = cut_lines(&mut self.lines, it.start, it.start + it.len);
            } else {
                assert(d[k as int] is None);
            }
        }
        let tidy: Vec<String> = tidy_lines(&hist);
        self.tidy();
        self.clamp_cursor();
        let body: String = join(&tidy, "\n");
        Some(cat(body.as_str(), "\n"))
    }

    /// Rolls over the done tasks with a stamp before the cutoff.
    pub fn rotate_before(&mut self, cutoff: Moment, history: &str) -> (r: Option<String>)
        ensures
            final(self)@ == rotated(old(self)@, due_months(old(self)@.lines, cutoff)),
            maybe_text(r) == history_after(
                old(self)@,
                due_months(old(self)@.lines, cutoff),
                history@,
            ),
            keeps_months(old(self)@.lines, due_months(old(self)@.lines, cutoff), history@),
    {
        let ghost t = self@.lines;
        if self.heading_line("done").is_none() {
            proof {
                lemma_done_items(t);
                if done_items(t).len() > 0 {
                    assert(heading_index(t, "done"@) < done_items(t)[0].start);
                }
                lemma_keeps_months(t, due_months(t, cutoff), history@);
            }
            return None;
        }
        let its: Vec<Item> = self.items_done();
        let n: usize = its.len();
        let ghost m = item_models(its@);
        assert(m.len() == n);
        let mut due: Vec<Option<String>> = Vec::new();
        proof {
            lemma_done_items(t);
        }
        let ghost want = due_months(t, cutoff);
        assert(month_models(due@) =~= want.take(0));
        for i in 0..n
            invariant
                n == its@.len(),
                m == item_models(its@),
                m == done_items(t),
                t == texts(self.lines@),
                want == due_months(t, cutoff),
                forall|k: int|
                    0 <= k < m.len() ==> 0 <= (#[trigger] m[k]).start < t.len() && is_task(
                        t[m[k].start],
                    ),
                month_models(due@) == want.take(i as int),
                forall|k: int|
                    0 <= k < i && (#[trigger] want[k]) is Some ==> "## "@.is_prefix_of(want[k]->0),
        {
            let it: Item = its[i];
            assert(m[i as int] == its@[i as int]@);
            assert(t[it.start as int] == self.lines@[it.start as int]@);
            let ghost seen = month_models(due@);
            let mut at: Option<Moment> = None;
            if let Some((_, pos)) = task_mark(self.lines[it.start].as_str()) {
                let text: String = text_behind(self.lines[it.start].as_str(), pos);
                if let Some(stamp) = split_stamp(text.as_str()).1 {
                    at = stamp_moment(stamp.as_str());
                }
            }
            assert(at == done_moment(t[it.start as int]));
            let month: Option<String> = month_due(at, cutoff);
            due.push(month);
            assert(month_models(due@) =~= seen.push(maybe_text(month)));
            assert(want.take(i + 1) =~= seen.push(want[i as int]));
        }
        assert(want.take(n as int) =~= want);
        proof {
            lemma_keeps_months(t, want, history@);
        }
        self.rotate_due(&due, history)
    }

    /// Rolls over the done tasks stamped more than a week ago: their blocks leave the todo
    /// file for the history, grouped under `## YYYY-MM` headings. Takes the text of the
    /// history file and returns its new text, if any task rolls over; the todo file is then
    /// to be written too. Not undoable (the history would keep its copy anyway).
    pub fn rotate_done(&mut self, history: &str) -> (r: Option<String>)
        ensures
            exists|cutoff: Moment, now: Moment|
                {
                    &&& on_calendar(now)
                    &&& #[trigger] kept_days_before(cutoff, now)
                    &&& final(self)@ == rotated(old(self)@, due_months(old(self)@.lines, cutoff))
                    &&& maybe_text(r) == history_after(
                        old(self)@,
                        due_months(old(self)@.lines, cutoff),
                        history@,
                    )
                    &&& keeps_months(
                        old(self)@.lines,
                        due_months(old(self)@.lines, cutoff),
                        history@,
                    )
                },
    {
        let cutoff: Moment = rotation_cutoff();
        self.rotate_before(cutoff, history)
    }
}

// ---------------------------------------------------------------------------------
// Sections

/// The first entry at or after `i` that is the collapsed section with its heading at line
/// `h`; the first entry of all if there is none.
pub open spec fn section_entry(entries: Seq<EntryModel>, h: int, i: int) -> int
    decreases entries.len() - i,
{
    if i >= entries.len() {
        0
    } else if entries[i] == EntryModel::Section(h) {
        i
    } else {
        section_entry(entries, h, i + 1)
    }
}

/// The state after the section of the selected task is collapsed, or the selected
/// collapsed section is expanded.
pub open spec fn collapse_toggled(s: State) -> State {
    match entry_under(s) {
        Some(EntryModel::Section(h)) => clamped(
            State { collapsed: s.collapsed.remove(heading_name(s.lines[h])), ..s },
        ),
        Some(EntryModel::Task(it)) => {
            let p = back_from(s.lines, it.start, |l: Seq<char>| ends_todo(l));
            if p == 0 || !section(s.lines[p - 1]) {
                State { status: "top area has no section to collapse"@, ..s }
            } else {
                let now = State {
                    collapsed: s.collapsed.insert(heading_name(s.lines[p - 1])),
                    sub: None,
                    ..s
                };
                State { cursor: section_entry(entries_of(now), p - 1, 0), ..now }
            }
        },
        None => s,
    }
}

/// The lines of the section with its heading at line `h`, without the blank lines at its
/// end.
pub open spec fn section_block(lines: Seq<Seq<char>>, h: int) -> Seq<Seq<char>> {
    drop_blank_end(lines.subrange(h, next_stop(lines, h + 1)))
}

/// The state after the selected collapsed section is archived.
pub open spec fn archived(s: State) -> State {
    match entry_under(s) {
        Some(EntryModel::Section(h)) => {
            let name = heading_name(s.lines[h]);
            State {
                status: "archived: "@ + name,
                ..clamped(
                    State {
                        lines: tidied(without(s.lines, h, next_stop(s.lines, h + 1))),
                        collapsed: s.collapsed.remove(name),
                        ..remembered(s)
                    },
                )
            }
        },
        _ => State { status: "collapse a section first (c), then A archives it"@, ..s },
    }
}

/// Whether a text ends in an empty line.
pub open spec fn ends_in_gap(text: Seq<char>) -> bool {
    text.len() >= 2 && text[text.len() - 1] == '\n' && text[text.len() - 2] == '\n'
}

/// The text of the archive file with a section added, an empty line before it.
pub open spec fn archive_with(text: Seq<char>, block: Seq<Seq<char>>) -> Seq<char> {
    let gap = if text.len() > 0 && !ends_in_gap(text) {
        text + "\n"@
    } else {
        text
    };
    gap + joined(block, "\n"@) + "\n"@
}

/// The text of the archive file after the selected collapsed section is archived.
pub open spec fn archive_after(s: State, text: Seq<char>) -> Option<Seq<char>> {
    match entry_under(s) {
        Some(EntryModel::Section(h)) => Some(archive_with(text, section_block(s.lines, h))),
        _ => None,
    }
}

impl App {
    /// On a task: collapses its containing `##` section (cursor moves to the header stop).
    /// On a collapsed header: expands it.
    pub fn toggle_collapse(&mut self)
        ensures
            final(self)@ == collapse_toggled(old(self)@),
    {
        let ghost s = self@;
        proof {
            lemma_item_under(s);
        }
        match self.current_entry() {
            Some(Entry::Section(h)) => {
                assert(s.lines[h as int] == self.lines@[h as int]@);
                let name: String = name_in(self.lines[h].as_str());
                self.collapsed.remove(name.as_str());
                self.clamp_cursor();
            },
            Some(Entry::Task(it)) => {
                let mut p: usize = it.start;
                while p > 0 && !stops_todo(self.lines[p - 1].as_str())
                    invariant
                        p <= it.start,
                        it.start < self.lines@.len(),
                        s.lines == texts(self.lines@),
                        back_from(s.lines, p as int, |l: Seq<char>| ends_todo(l)) == back_from(
                            s.lines,
                            it.start as int,
                            |l: Seq<char>| ends_todo(l),
                        ),
                    decreases p,
                {
                    assert(s.lines[p - 1] == self.lines@[p - 1]@);
                    p -= 1;
                }
                if p > 0 {
                    assert(s.lines[p - 1] == self.lines@[p - 1]@);
                }
                if p == 0 || !is_section(self.lines[p - 1].as_str()) {
                    self.status = "top area has no section to collapse".to_string();
                    return;
                }
                let name: String = name_in(self.lines[p - 1].as_str());
                self.collapsed.insert(name);
                self.sub = None;
                let entries: Vec<Entry> = self.entries();
                let n: usize = entries.len();
                let ghost m = entries_of(self@);
                let mut i: usize = 0;
                let mut found: bool = false;
                while i < n && !found
                    invariant
                        i <= n,
                        n == entries@.len(),
                        m == entry_models(entries@),
                        p > 0,
                        !found ==> section_entry(m, p - 1, i as int) == section_entry(m, p - 1, 0),
                        found ==> i < n && section_entry(m, p - 1, 0) == i,
                    decreases n - i, (if found { 0int } else { 1int }),
                {
                    assert(m[i as int] == entries@[i as int]@);
                    found = match entries[i] {
                        Entry::Section(x) => x == p - 1,
                        Entry::Task(_) => false,
                    };
                    if !found {
                        i += 1;
                    }
                }
                self.cursor = if found { i } else { 0 };
            },
            None => {},
        }
    }

    /// Takes the selected collapsed section out of the todo file, for the archive. Takes
    /// the text of the archive file and returns its new text, if a collapsed section is
    /// selected; the todo file is then to be written too.
    #[verifier::rlimit(30)]
    pub fn archive_section(&mut self, archive: &str) -> (r: Option<String>)
        ensures
            final(self)@ == archived(old(self)@),
            maybe_text(r) == archive_after(old(self)@, archive@),
    {
        let ghost s = self@;
        proof {
            lemma_item_under(s);
        }
        let h: usize = match self.current_entry() {
            Some(Entry::Section(h)) => h,
            _ => {
                self.status = "collapse a section first (c), then A archives it".to_string();
                return None;
            },
        };
        self.checkpoint();
        assert(s.lines[h as int] == self.lines@[h as int]@);
        let name: String = name_in(self.lines[h].as_str());
        let len: usize = self.lines.len();
        assert(h < len);
        let end: usize = find_stop(&self.lines, h + 1);
        let mut block: Vec<String> = cut_lines(&mut self.lines, h, end);
        pop_blank_end(&mut block);
        let mut out: String = archive.to_string();
        let n: usize = archive.unicode_len();
        if n > 0 && !(n >= 2 && archive.get_char(n - 1) == '\n' && archive.get_char(n - 2)
            == '\n') {
            out.append("\n");
        }
        let body: String = join(&block, "\n");
        out.append(body.as_str());
        out.append("\n");
        self.collapsed.remove(name.as_str());
        self.tidy();
        self.clamp_cursor();
        self.status = cat("archived: ", name.as_str());
        Some(out)
    }
}

} // verus!
