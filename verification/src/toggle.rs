//! Completing tasks and subtasks. Each function returns whether the file is to be written.
use crate::app::{
    clamped, item_under, lemma_item_under, lemma_tasks_in, positions, remembered, subs_of, App,
    State,
};
use crate::blocks::{
    lemma_block_ensured, lemma_block_updated, lemma_clear_of_block, lemma_completed,
    lemma_item_is_block, lemma_next_stop, lemma_past_clear, lemma_reopened, lemma_with_mark,
};
use crate::clock::{stamp_now, stamp_text};
use crate::lines::{push_line, set_line, texts};
use crate::outline::{
    ensure_heading, ensured, move_lines, moved, next_stop, past_blanks, tidied, top_end, Item,
    ItemModel,
};
use crate::task::{complete, completed, is_done, reopen, reopened, set_mark, task_mark, with_mark};
use vstd::prelude::*;

verus! {

/// The lines after the task of an item is completed: stamped, and moved with its block to
/// the top of the Done section, which is created if missing.
pub open spec fn lines_completed(
    lines: Seq<Seq<char>>,
    it: ItemModel,
    stamp: Seq<char>,
) -> Seq<Seq<char>> {
    let p = ensured(lines.update(it.start, completed(lines[it.start], stamp)), "Done"@);
    tidied(moved(p.lines, it.start, it.len, past_blanks(p.lines, p.at)))
}

/// The lines after the task of an item is opened again: its stamp gone, and moved with its
/// block to the end of Todo.
pub open spec fn lines_reopened(lines: Seq<Seq<char>>, it: ItemModel) -> Seq<Seq<char>> {
    let open = lines.update(it.start, reopened(lines[it.start]));
    tidied(moved(open, it.start, it.len, top_end(open)))
}

/// The state after the task under the cursor is completed at the time `stamp`, or opened
/// again.
pub open spec fn toggled(s: State, stamp: Seq<char>) -> State {
    match item_under(s) {
        None => s,
        Some(it) => clamped(
            if is_done(s.lines[it.start]) {
                State {
                    lines: lines_reopened(s.lines, it),
                    status: "back to todo"@,
                    ..remembered(s)
                }
            } else {
                State {
                    lines: lines_completed(s.lines, it, stamp),
                    status: "done"@,
                    ..remembered(s)
                }
            },
        ),
    }
}

/// The lines that hold the subtasks, in their places: those still open first, those done
/// last, in their order otherwise.
pub open spec fn open_first(lines: Seq<Seq<char>>) -> Seq<Seq<char>> {
    lines.filter(|l: Seq<char>| !is_done(l)) + lines.filter(|l: Seq<char>| is_done(l))
}

/// What stands at the given lines.
pub open spec fn at_lines(lines: Seq<Seq<char>>, at: Seq<int>) -> Seq<Seq<char>> {
    Seq::new(at.len(), |i: int| lines[at[i]])
}

/// The lines with the first `n` of `contents` put at the given places.
pub open spec fn put_at(
    lines: Seq<Seq<char>>,
    at: Seq<int>,
    contents: Seq<Seq<char>>,
    n: int,
) -> Seq<Seq<char>>
    decreases n,
{
    if n <= 0 {
        lines
    } else {
        put_at(lines, at, contents, n - 1).update(at[n - 1], contents[n - 1])
    }
}

/// The state after the selected subtask is checked or opened. The subtasks keep their
/// places in the block, the open ones first; what stands between them stays.
pub open spec fn sub_toggled(s: State) -> State {
    match (item_under(s), s.sub) {
        (Some(it), Some(k)) => {
            let subs = subs_of(s.lines, it);
            if 0 <= k < subs.len() {
                let done = is_done(s.lines[subs[k]]);
                let lines = s.lines.update(subs[k], with_mark(s.lines[subs[k]], !done));
                let held = at_lines(lines, subs);
                let open = held.filter(|l: Seq<char>| !is_done(l));
                State {
                    lines: put_at(lines, subs, open_first(held), subs.len() as int),
                    sub: Some(
                        if done {
                            held.take(k).filter(|l: Seq<char>| !is_done(l)).len() as int
                        } else {
                            open.len() as int + held.take(k).filter(
                                |l: Seq<char>| is_done(l),
                            ).len()
                        },
                    ),
                    status: if done {
                        "sub back open"@
                    } else {
                        "sub done"@
                    },
                    ..remembered(s)
                }
            } else {
                s
            }
        },
        _ => s,
    }
}

/// Whether a subtask is selected.
pub open spec fn sub_selected(s: State) -> bool {
    item_under(s) matches Some(it) && s.sub matches Some(k) && 0 <= k < subs_of(s.lines, it).len()
}

/// Putting lines in places leaves their number.
proof fn lemma_put_at_len(lines: Seq<Seq<char>>, at: Seq<int>, contents: Seq<Seq<char>>, n: int)
    requires
        n <= at.len(),
        forall|i: int| 0 <= i < at.len() ==> 0 <= #[trigger] at[i] < lines.len(),
    ensures
        put_at(lines, at, contents, n).len() == lines.len(),
    decreases n,
{
    if n > 0 {
        lemma_put_at_len(lines, at, contents, n - 1);
    }
}

/// Whether the line is a task with a checked box.
fn done_task(line: &str) -> (r: bool)
    ensures
        r == is_done(line@),
{
    match task_mark(line) {
        Some((done, _)) => done,
        None => false,
    }
}

impl App {
    /// Completes the task under the cursor, or opens it again: a completed task is
    /// stamped with the present local time and moves to the top of the Done section; a
    /// task that is opened loses its stamp and moves to the end of Todo.
    pub fn toggle(&mut self) -> (r: bool)
        ensures
            exists|stamp: Seq<char>|
                stamp_text(stamp) && final(self)@ == #[trigger] toggled(
                    old(self)@,
                    stamp,
                ),
            r == (item_under(old(self)@) is Some),
    {
        let stamp: String = stamp_now();
        let r: bool = self.toggle_at(stamp.as_str());
        assert(self@ == toggled(old(self)@, stamp@));
        r
    }

    /// Completes the task under the cursor at the time `stamp`, or opens it again.
    pub fn toggle_at(&mut self, stamp: &str) -> (r: bool)
        ensures
            final(self)@ == toggled(old(self)@, stamp@),
            r == (item_under(old(self)@) is Some),
    {
        let it: Item = match self.current_item() {
            Some(it) => it,
            None => return false,
        };
        let ghost s = self@;
        proof {
            lemma_item_is_block(s);
            lemma_item_under(s);
        }
        self.checkpoint();
        let ghost l = s.lines[it.start as int];
        let ghost end = it.start + it.len;
        assert(l == self.lines@[it.start as int]@);
        if let Some((done, at)) = task_mark(self.lines[it.start].as_str()) {
            if !done {
                let line: String = complete(self.lines[it.start].as_str(), at, stamp);
                proof {
                    lemma_completed(l, stamp@);
                    lemma_block_updated(s.lines, it.start as int, end, line@);
                }
                set_line(&mut self.lines, it.start, line);
                let ghost marked = self@.lines;
                let (h, _) = ensure_heading(&mut self.lines, "Done");
                proof {
                    reveal_strlit("Done");
                    reveal_strlit("later");
                    lemma_block_ensured(marked, it.start as int, end, "Done"@);
                    lemma_past_clear(self@.lines, it.start as int, end, h as int);
                }
                let dest: usize = self.after_heading(h);
                move_lines(&mut self.lines, it.start, it.len, dest);
                self.status = "done".to_string();
            } else {
                let line: String = reopen(self.lines[it.start].as_str(), at);
                proof {
                    lemma_reopened(l);
                    lemma_block_updated(s.lines, it.start as int, end, line@);
                }
                set_line(&mut self.lines, it.start, line);
                proof {
                    lemma_next_stop(self@.lines, 0);
                    lemma_clear_of_block(
                        self@.lines,
                        it.start as int,
                        end,
                        next_stop(self@.lines, 0),
                    );
                }
                let dest: usize = self.todo_end();
                move_lines(&mut self.lines, it.start, it.len, dest);
                self.status = "back to todo".to_string();
            }
        }
        self.tidy();
        self.clamp_cursor();
        true
    }

    /// Toggles the selected subtask; done subs sink below the parent's open subs but never
    /// leave the parent's block.
    #[verifier::rlimit(30)]
    pub fn toggle_sub(&mut self) -> (r: bool)
        ensures
            final(self)@ == sub_toggled(old(self)@),
            r == sub_selected(old(self)@),
    {
        let it: Item = match self.current_item() {
            Some(it) => it,
            None => return false,
        };
        let ghost s = self@;
        proof {
            lemma_item_under(s);
            lemma_tasks_in(s.lines, it.start + 1, it.start + it.len);
        }
        let subs: Vec<usize> = self.sub_line_indices(it);
        let n: usize = subs.len();
        let ghost at = positions(subs@);
        assert(at.len() == n);
        let k: usize = match self.sub {
            Some(k) => k,
            None => return false,
        };
        if k >= n {
            return false;
        }
        self.checkpoint();
        let ghost r = self@;
        assert(at[k as int] == subs@[k as int]);
        assert(s.lines[at[k as int]] == self.lines@[at[k as int]]@);
        let line: &str = self.lines[subs[k]].as_str();
        let mut was_done: bool = false;
        if let Some((done, pos)) = task_mark(line) {
            was_done = done;
            let toggled_line: String = set_mark(line, pos, !done);
            set_line(&mut self.lines, subs[k], toggled_line);
        }
        let ghost lines = self@.lines;
        let ghost held = at_lines(lines, at);
        let ghost p = |l: Seq<char>| !is_done(l);
        let ghost q = |l: Seq<char>| is_done(l);
        proof {
            lemma_with_mark(s.lines[at[k as int]], !was_done);
            assert(held[k as int] == with_mark(s.lines[at[k as int]], !was_done));
        }
        let mut open: Vec<String> = Vec::new();
        let mut closed: Vec<String> = Vec::new();
        let mut place: usize = 0;
        proof {
            reveal(Seq::filter);
            assert(texts(open@) =~= held.take(0).filter(p));
            assert(texts(closed@) =~= held.take(0).filter(q));
        }
        for i in 0..n
            invariant
                n == subs@.len(),
                at == positions(subs@),
                lines == self@.lines,
                self@.lines == texts(self.lines@),
                held == at_lines(lines, at),
                p == (|l: Seq<char>| !is_done(l)),
                q == (|l: Seq<char>| is_done(l)),
                k < n,
                forall|j: int| 0 <= j < n ==> 0 <= #[trigger] at[j] < lines.len(),
                is_done(held[k as int]) == !was_done,
                texts(open@) == held.take(i as int).filter(p),
                texts(closed@) == held.take(i as int).filter(q),
                k < i ==> place == (if was_done {
                    held.take(k as int).filter(p).len()
                } else {
                    held.take(k as int).filter(q).len()
                }),
        {
            assert(at[i as int] == subs@[i as int]);
            assert(held[i as int] == self.lines@[at[i as int]]@);
            proof {
                reveal(Seq::filter);
                assert(held.take(i + 1).drop_last() =~= held.take(i as int));
                assert(held.take(i + 1).last() == held[i as int]);
                assert(texts(open@).len() == open@.len());
                assert(texts(closed@).len() == closed@.len());
            }
            let l: String = self.lines[subs[i]].clone();
            if done_task(l.as_str()) {
                if i == k {
                    place = closed.len();
                }
                push_line(&mut closed, l);
            } else {
                if i == k {
                    place = open.len();
                }
                push_line(&mut open, l);
            }
        }
        assert(held.take(n as int) =~= held);
        proof {
            assert(texts(open@).len() == open@.len());
            assert(texts(closed@).len() == closed@.len());
            lemma_filters_len(held);
            lemma_filter_take_len(held, k as int, q);
        }
        let opened: usize = open.len();
        let mut contents: Vec<String> = open;
        contents.append(&mut closed);
        assert(texts(contents@) =~= open_first(held));
        for i in 0..n
            invariant
                n == subs@.len(),
                n == contents@.len(),
                at == positions(subs@),
                texts(contents@) == open_first(held),
                forall|j: int| 0 <= j < n ==> 0 <= #[trigger] at[j] < lines.len(),
                self@ == (State { lines: put_at(lines, at, open_first(held), i as int), ..r }),
        {
            proof {
                lemma_put_at_len(lines, at, open_first(held), i as int);
                assert(at[i as int] == subs@[i as int]);
                assert(texts(contents@)[i as int] == contents@[i as int]@);
            }
            set_line(&mut self.lines, subs[i], contents[i].clone());
        }
        self.sub = Some(if was_done { place } else { opened + place });
        self.status = (if was_done { "sub back open" } else { "sub done" }).to_string();
        true
    }
}

/// A list falls apart into its open and its done lines.
proof fn lemma_filters_len(lines: Seq<Seq<char>>)
    ensures
        lines.filter(|l: Seq<char>| !is_done(l)).len() + lines.filter(
            |l: Seq<char>| is_done(l),
        ).len() == lines.len(),
    decreases lines.len(),
{
    reveal(Seq::filter);
    if lines.len() > 0 {
        lemma_filters_len(lines.drop_last());
    }
}

/// A part has no more of something than the whole.
proof fn lemma_filter_take_len(lines: Seq<Seq<char>>, k: int, p: spec_fn(Seq<char>) -> bool)
    requires
        0 <= k <= lines.len(),
    ensures
        lines.take(k).filter(p).len() <= lines.filter(p).len(),
    decreases lines.len(),
{
    reveal(Seq::filter);
    if k < lines.len() {
        assert(lines.drop_last().take(k) =~= lines.take(k));
        lemma_filter_take_len(lines.drop_last(), k, p);
    } else {
        assert(lines.take(k) =~= lines);
    }
}

} // verus!
