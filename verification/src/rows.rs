//! The rows of the main list.
use crate::app::{
    collapsed_heading, entries_upto, hidden_heading, in_collapsed, shows_task, App, State,
};
use crate::lines::texts;
use crate::outline::{block_end, find_block_end, find_stop, next_stop};
use crate::task::{
    behind_box, heading, heading_name, is_done, is_heading, is_section, is_task, is_top, name_in,
    section_kind, split_stamp, stamp_of, task_mark, text_behind, title_of, SectionKind,
};
use crate::text::{blank, is_blank, trim, trimmed};
use vstd::prelude::*;

verus! {

/// A renderable row in the main list.
#[allow(inconsistent_fields)]
pub enum Row {
    Header(String),
    Task {
        text: String,
        done: bool,
        stamp: Option<String>,
        subs: Option<(usize, usize)>,
        has_notes: bool,
    },
    Sub { text: String, done: bool },
    CollapsedSection { name: String, done: usize, total: usize },
}

/// What a `Row` says.
#[allow(inconsistent_fields)]
#[verifier::ext_equal]
pub enum RowModel {
    Header(Seq<char>),
    Task {
        text: Seq<char>,
        done: bool,
        stamp: Option<Seq<char>>,
        subs: Option<(int, int)>,
        has_notes: bool,
    },
    Sub { text: Seq<char>, done: bool },
    CollapsedSection { name: Seq<char>, done: int, total: int },
}

impl View for Row {
    type V = RowModel;

    open spec fn view(&self) -> RowModel {
        match self {
            Row::Header(name) => RowModel::Header(name@),
            Row::Task { text, done, stamp, subs, has_notes } => RowModel::Task {
                text: text@,
                done: *done,
                stamp: match stamp {
                    Some(stamp) => Some(stamp@),
                    None => None,
                },
                subs: match subs {
                    Some((done, total)) => Some((*done as int, *total as int)),
                    None => None,
                },
                has_notes: *has_notes,
            },
            Row::Sub { text, done } => RowModel::Sub { text: text@, done: *done },
            Row::CollapsedSection { name, done, total } => RowModel::CollapsedSection {
                name: name@,
                done: *done as int,
                total: *total as int,
            },
        }
    }
}

/// What a list of rows says.
pub open spec fn row_models(rows: Seq<Row>) -> Seq<RowModel> {
    Seq::new(rows.len(), |i: int| rows[i]@)
}

/// The number of lines from `from` up to `to` that satisfy `p`.
pub open spec fn count_in(
    lines: Seq<Seq<char>>,
    from: int,
    to: int,
    p: spec_fn(Seq<char>) -> bool,
) -> int
    decreases to - from,
{
    if to <= from {
        0
    } else {
        count_in(lines, from, to - 1, p) + (if p(lines[to - 1]) {
            1int
        } else {
            0int
        })
    }
}

/// Whether a line is a note: neither a task nor blank.
pub open spec fn is_note(l: Seq<char>) -> bool {
    !is_task(l) && !is_blank(l)
}

/// The row of the task at line `i`.
pub open spec fn task_row(lines: Seq<Seq<char>>, i: int) -> RowModel {
    let end = block_end(lines, i);
    let total = count_in(lines, i + 1, end, |l: Seq<char>| is_task(l));
    let text = behind_box(lines[i]);
    RowModel::Task {
        text: title_of(text),
        done: is_done(lines[i]),
        stamp: stamp_of(text),
        subs: if total > 0 {
            Some((count_in(lines, i + 1, end, |l: Seq<char>| is_done(l)), total))
        } else {
            None
        },
        has_notes: count_in(lines, i + 1, end, |l: Seq<char>| is_note(l)) > 0,
    }
}

/// The rows of the subtasks from line `from` up to `to`.
pub open spec fn sub_rows(lines: Seq<Seq<char>>, from: int, to: int) -> Seq<RowModel>
    decreases to - from,
{
    if to <= from {
        Seq::empty()
    } else if is_task(lines[to - 1]) {
        sub_rows(lines, from, to - 1).push(
            RowModel::Sub {
                text: trim(behind_box(lines[to - 1])),
                done: is_done(lines[to - 1]),
            },
        )
    } else {
        sub_rows(lines, from, to - 1)
    }
}

/// The row of the collapsed section with its heading at line `i`.
pub open spec fn collapsed_row(lines: Seq<Seq<char>>, i: int) -> RowModel {
    let end = next_stop(lines, i + 1);
    RowModel::CollapsedSection {
        name: heading_name(lines[i]),
        done: count_in(lines, i + 1, end, |l: Seq<char>| is_top(l) && is_done(l)),
        total: count_in(lines, i + 1, end, |l: Seq<char>| is_top(l)),
    }
}

/// Whether the subtasks of the task at line `i` are shown: all are, or the cursor is on it.
pub open spec fn expanded(s: State, i: int) -> bool {
    s.expand_all || entries_upto(s, i).len() == s.cursor
}

/// The rows that line `i` gives.
pub open spec fn rows_at(s: State, i: int) -> Seq<RowModel> {
    let l = s.lines[i];
    if heading(l) {
        if hidden_heading(l, s.hide_done) {
            Seq::empty()
        } else if collapsed_heading(l, s.collapsed) {
            seq![collapsed_row(s.lines, i)]
        } else {
            seq![RowModel::Header(heading_name(l))]
        }
    } else if shows_task(s, i) {
        seq![task_row(s.lines, i)] + (if expanded(s, i) {
            sub_rows(s.lines, i + 1, block_end(s.lines, i))
        } else {
            Seq::empty()
        })
    } else {
        Seq::empty()
    }
}

/// The rows that the first `n` lines give.
pub open spec fn rows_upto(s: State, n: int) -> Seq<RowModel>
    decreases n,
{
    if n <= 0 {
        Seq::empty()
    } else {
        rows_upto(s, n - 1) + rows_at(s, n - 1)
    }
}

/// The rows of the main list.
pub open spec fn rows_of(s: State) -> Seq<RowModel> {
    rows_upto(s, s.lines.len() as int)
}

/// The lines found are no more than the lines looked at.
proof fn lemma_count_in(
    lines: Seq<Seq<char>>,
    from: int,
    to: int,
    p: spec_fn(Seq<char>) -> bool,
)
    requires
        from <= to,
    ensures
        0 <= count_in(lines, from, to, p) <= to - from,
    decreases to - from,
{
    if from < to {
        lemma_count_in(lines, from, to - 1, p);
    }
}

/// There is at most one entry on a line.
proof fn lemma_entries_count(s: State, n: int)
    requires
        0 <= n,
    ensures
        entries_upto(s, n).len() <= n,
    decreases n,
{
    if n > 0 {
        lemma_entries_count(s, n - 1);
    }
}

impl App {
    /// The row of the collapsed section with its heading at line `i`.
    fn make_collapsed(&self, i: usize, name: String) -> (r: Row)
        requires
            i < self.lines@.len(),
            name@ == heading_name(self@.lines[i as int]),
        ensures
            r@ == collapsed_row(self@.lines, i as int),
    {
        let n: usize = self.lines.len();
        let ghost t = self@.lines;
        assert(i < n);
        let end: usize = find_stop(&self.lines, i + 1);
        let mut total: usize = 0;
        let mut done: usize = 0;
        for j in i + 1..end
            invariant
                i < j,
                end <= n,
                n == self.lines@.len(),
                t == texts(self.lines@),
                total <= j - i,
                done <= j - i,
                total == count_in(t, i + 1, j as int, |l: Seq<char>| is_top(l)),
                done == count_in(t, i + 1, j as int, |l: Seq<char>| is_top(l) && is_done(l)),
        {
            assert(t[j as int] == self.lines@[j as int]@);
            proof {
                lemma_count_in(t, i + 1, j as int, |l: Seq<char>| is_top(l));
                lemma_count_in(t, i + 1, j as int, |l: Seq<char>| is_top(l) && is_done(l));
            }
            if let Some((d, at)) = task_mark(self.lines[j].as_str()) {
                if at == 3 {
                    total += 1;
                    if d {
                        done += 1;
                    }
                }
            }
        }
        Row::CollapsedSection { name, done, total }
    }

    /// The row of the task at line `i`, with its block up to `end`.
    fn make_task(&self, i: usize, end: usize) -> (r: Row)
        requires
            i < end <= self.lines@.len(),
            is_task(self@.lines[i as int]),
            end == block_end(self@.lines, i as int),
        ensures
            r@ == task_row(self@.lines, i as int),
    {
        let n: usize = self.lines.len();
        let ghost t = self@.lines;
        let mut total: usize = 0;
        let mut checked: usize = 0;
        let mut notes: usize = 0;
        for j in i + 1..end
            invariant
                i < j,
                end <= n,
                n == self.lines@.len(),
                t == texts(self.lines@),
                total <= j - i,
                checked <= j - i,
                notes <= j - i,
                total == count_in(t, i + 1, j as int, |l: Seq<char>| is_task(l)),
                checked == count_in(t, i + 1, j as int, |l: Seq<char>| is_done(l)),
                notes == count_in(t, i + 1, j as int, |l: Seq<char>| is_note(l)),
        {
            assert(t[j as int] == self.lines@[j as int]@);
            proof {
                lemma_count_in(t, i + 1, j as int, |l: Seq<char>| is_task(l));
                lemma_count_in(t, i + 1, j as int, |l: Seq<char>| is_done(l));
                lemma_count_in(t, i + 1, j as int, |l: Seq<char>| is_note(l));
            }
            let line: &str = self.lines[j].as_str();
            match task_mark(line) {
                Some((d, _)) => {
                    total += 1;
                    if d {
                        checked += 1;
                    }
                },
                None => {
                    if !blank(line) {
                        notes += 1;
                    }
                },
            }
        }
        assert(t[i as int] == self.lines@[i as int]@);
        let mut done: bool = false;
        let mut text: String = String::new();
        let mut stamp: Option<String> = None;
        if let Some((d, at)) = task_mark(self.lines[i].as_str()) {
            done = d;
            let behind: String = text_behind(self.lines[i].as_str(), at);
            let split: (String, Option<String>) = split_stamp(behind.as_str());
            text = split.0;
            stamp = split.1;
        }
        let subs: Option<(usize, usize)> = if total > 0 {
            Some((checked, total))
        } else {
            None
        };
        Row::Task { text, done, stamp, subs, has_notes: notes > 0 }
    }

    /// Adds the rows of the subtasks of the task at line `i`, with its block up to `end`.
    fn add_sub_rows(&self, rows: &mut Vec<Row>, i: usize, end: usize)
        requires
            i < end <= self.lines@.len(),
        ensures
            row_models(final(rows)@) == row_models(old(rows)@) + sub_rows(
                self@.lines,
                i + 1,
                end as int,
            ),
    {
        let n: usize = self.lines.len();
        let ghost t = self@.lines;
        let ghost before = row_models(rows@);
        assert(row_models(rows@) =~= before + sub_rows(t, i + 1, i + 1));
        for j in i + 1..end
            invariant
                i < j,
                end <= n,
                n == self.lines@.len(),
                t == texts(self.lines@),
                row_models(rows@) == before + sub_rows(t, i + 1, j as int),
        {
            let ghost seen = row_models(rows@);
            assert(t[j as int] == self.lines@[j as int]@);
            if let Some((done, at)) = task_mark(self.lines[j].as_str()) {
                let behind: String = text_behind(self.lines[j].as_str(), at);
                let text: String = trimmed(behind.as_str());
                rows.push(Row::Sub { text, done });
                assert(row_models(rows@) =~= seen.push(rows@.last()@));
                assert(row_models(rows@) =~= before + sub_rows(t, i + 1, (j + 1) as int));
            }
        }
    }

    /// The rows of the main list: headers, shown tasks, the subtasks of expanded tasks, and
    /// collapsed sections with the number of their tasks.
    pub fn rows(&self) -> (r: Vec<Row>)
        ensures
            row_models(r@) == rows_of(self@),
    {
        let mut out: Vec<Row> = Vec::new();
        let mut inside: bool = false;
        let mut stops: usize = 0;
        let n: usize = self.lines.len();
        let ghost s = self@;
        assert(row_models(out@) =~= rows_upto(s, 0));
        for i in 0..n
            invariant
                n == self.lines@.len(),
                s == self@,
                inside == in_collapsed(s, i as int),
                stops == entries_upto(s, i as int).len(),
                stops <= i,
                row_models(out@) == rows_upto(s, i as int),
        {
            let ghost seen = row_models(out@);
            let line: &str = self.lines[i].as_str();
            assert(s.lines[i as int] == line@);
            proof {
                lemma_entries_count(s, i + 1);
            }
            if is_heading(line) {
                let name: String = name_in(line);
                let hidden: bool = self.hide_done && section_kind(name.as_str())
                    == SectionKind::Done;
                inside = is_section(line) && self.collapsed.contains(name.as_str());
                if inside {
                    if !hidden {
                        let row: Row = self.make_collapsed(i, name);
                        out.push(row);
                        stops += 1;
                        assert(row_models(out@) =~= seen + seq![row@]);
                    }
                } else if !hidden {
                    out.push(Row::Header(name));
                    assert(row_models(out@) =~= seen + seq![RowModel::Header(name@)]);
                }
                assert(row_models(out@) =~= seen + rows_at(s, i as int));
            } else if let Some((done, at)) = task_mark(line) {
                if at == 3 && !inside && !(self.hide_done && done) {
                    let end: usize = find_block_end(&self.lines, i);
                    let row: Row = self.make_task(i, end);
                    out.push(row);
                    assert(row_models(out@) =~= seen + seq![row@]);
                    let open: bool = self.expand_all || stops == self.cursor;
                    stops += 1;
                    if open {
                        self.add_sub_rows(&mut out, i, end);
                    }
                    assert(row_models(out@) =~= seen + rows_at(s, i as int));
                }
            }
            assert(row_models(out@) =~= seen + rows_at(s, i as int));
        }
        out
    }
}

} // verus!
