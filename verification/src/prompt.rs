//! Adding, deleting and retitling tasks, and the prompts for it. Functions that change the
//! lines return whether the file is to be written.
use crate::app::{
    as_position, clamped, entries_of, entries_upto, entry_line, entry_models, item_under,
    lemma_item_under, lemma_line_under, lemma_tasks_in, line_under, positions, remembered, subs_of,
    App, DestModel, Entry, EntryModel, InputKind, InputModel, InputState, MoveDest, State,
};
use crate::lines::{cut_lines, join, joined, put_line, set_line, texts, without};
use crate::moves::{movable, moved_to};
use crate::outline::{tidied, top_end, Item, ItemModel};
use crate::search::back_from;
use crate::task::{
    behind_box, is_done, is_task, retitle, retitled, split_stamp, task_mark, text_behind, title_of,
};
use crate::text::{cat, trim, trimmed};
use vstd::prelude::*;

verus! {

/// The line of a new task.
pub open spec fn new_task(text: Seq<char>) -> Seq<char> {
    "- [ ] "@ + text
}

/// The line of a new subtask.
pub open spec fn new_sub(text: Seq<char>) -> Seq<char> {
    "  - [ ] "@ + text
}

/// Whether an entry is a task above line `end`.
pub open spec fn task_above(e: EntryModel, end: int) -> bool {
    e is Task && entry_line(e) < end
}

/// The last entry that is a task above line `end`; the first entry if there is none.
pub open spec fn last_task_above(entries: Seq<EntryModel>, end: int) -> int {
    let p = back_from(entries, entries.len() as int, |e: EntryModel| task_above(e, end));
    if p == 0 {
        0
    } else {
        p - 1
    }
}

/// The state after a new task is added at the end of Todo: the cursor is on it.
pub open spec fn added(s: State, text: Seq<char>) -> State {
    let lines = tidied(s.lines.insert(top_end(s.lines), new_task(text)));
    let now = State { lines, sub: None, ..remembered(s) };
    State {
        cursor: last_task_above(entries_of(now), top_end(lines)),
        status: "added"@,
        ..now
    }
}

/// Where a new subtask goes in an item's block: behind the last open subtask, or else
/// before the first subtask, or else right beneath the task.
pub open spec fn sub_place(lines: Seq<Seq<char>>, it: ItemModel) -> int {
    let subs = subs_of(lines, it);
    let p = back_from(subs, subs.len() as int, |i: int| !is_done(lines[i]));
    if p > 0 {
        subs[p - 1] + 1
    } else if subs.len() > 0 {
        subs[0]
    } else {
        it.start + 1
    }
}

/// The first position at or after `i` at which a line is among those given.
pub open spec fn place_from(at: Seq<int>, line: int, i: int) -> Option<int>
    decreases at.len() - i,
{
    if i >= at.len() {
        None
    } else if at[i] == line {
        Some(i)
    } else {
        place_from(at, line, i + 1)
    }
}

/// The position of a line among those given, if it is among them.
pub open spec fn place_among(at: Seq<int>, line: int) -> Option<int> {
    place_from(at, line, 0)
}

/// The position of a line among those given, if it is among them.
fn find_place(at: &Vec<usize>, line: usize) -> (r: Option<usize>)
    ensures
        as_position(r) == place_among(positions(at@), line as int),
{
    let n: usize = at.len();
    let mut i: usize = 0;
    while i < n
        invariant
            i <= n,
            n == at@.len(),
            place_from(positions(at@), line as int, i as int) == place_among(
                positions(at@),
                line as int,
            ),
        decreases n - i,
    {
        assert(positions(at@)[i as int] == at@[i as int]);
        if at[i] == line {
            return Some(i);
        }
        i += 1;
    }
    None
}

/// The state after a new subtask is added to the item under the cursor: it is selected.
pub open spec fn sub_added(s: State, text: Seq<char>) -> State {
    match item_under(s) {
        None => s,
        Some(it) => {
            let place = sub_place(s.lines, it);
            let now = State { lines: s.lines.insert(place, new_sub(text)), ..remembered(s) };
            match item_under(now) {
                None => now,
                Some(grown) => State {
                    sub: place_among(subs_of(now.lines, grown), place),
                    status: "sub added"@,
                    ..now
                },
            }
        },
    }
}

/// The state after the selected subtask, or the selected task with its block, is deleted.
pub open spec fn deleted(s: State) -> State {
    match item_under(s) {
        None => s,
        Some(it) => match s.sub {
            Some(_) => match line_under(s) {
                None => remembered(s),
                Some(i) => State {
                    status: "deleted sub: "@ + trim(behind_box(s.lines[i])),
                    ..clamped(State { lines: s.lines.remove(i), ..remembered(s) })
                },
            },
            None => State {
                status: "deleted: "@ + title_of(behind_box(s.lines[it.start])),
                ..clamped(
                    State {
                        lines: tidied(without(s.lines, it.start, it.start + it.len)),
                        ..remembered(s)
                    },
                )
            },
        },
    }
}

/// The state after the selected task or subtask gets another title.
pub open spec fn edited(s: State, text: Seq<char>) -> State {
    match line_under(s) {
        None => s,
        Some(i) => State {
            lines: s.lines.update(i, retitled(s.lines[i], text)),
            ..remembered(s)
        },
    }
}

/// The state after a prompt is opened: one for a title starts from the present title and
/// needs a task, one for a subtask needs an item.
pub open spec fn input_opened(s: State, kind: InputKind) -> State {
    if kind == InputKind::Edit {
        match line_under(s) {
            None => s,
            Some(i) => State {
                input: Some(InputModel { kind, text: title_of(behind_box(s.lines[i])) }),
                ..s
            },
        }
    } else if kind == InputKind::NewSub && item_under(s) is None {
        s
    } else {
        State { input: Some(InputModel { kind, text: Seq::empty() }), ..s }
    }
}

/// The text that was typed at a prompt.
pub open spec fn typed_text(typed: Seq<Seq<char>>) -> Seq<char> {
    trim(joined(typed, " "@))
}

/// The state after what was typed at the prompt is taken.
pub open spec fn input_committed(s: State, typed: Seq<Seq<char>>) -> State {
    let text = typed_text(typed);
    let closed = State { input: None, ..s };
    match s.input {
        None => s,
        Some(input) => if text.len() == 0 {
            State { status: "cancelled"@, ..closed }
        } else {
            match input.kind {
                InputKind::Edit => State { status: "edited"@, ..edited(closed, text) },
                InputKind::NewTask => added(closed, text),
                InputKind::NewSub => sub_added(closed, text),
                InputKind::NewSection => moved_to(closed, DestModel::Section(text)),
            }
        },
    }
}

/// Whether taking what was typed at the prompt changes the file.
pub open spec fn input_saves(s: State, typed: Seq<Seq<char>>) -> bool {
    let closed = State { input: None, ..s };
    s.input matches Some(input) && typed_text(typed).len() > 0 && match input.kind {
        InputKind::Edit => line_under(closed) is Some,
        InputKind::NewTask => true,
        InputKind::NewSub => item_under(closed) is Some,
        InputKind::NewSection => movable(closed),
    }
}

impl App {
    /// Adds a task at the end of Todo.
    pub fn add_todo(&mut self, text: &str) -> (r: bool)
        ensures
            final(self)@ == added(old(self)@, text@),
            r,
    {
        self.checkpoint();
        let dest: usize = self.todo_end();
        let line: String = cat("- [ ] ", text);
        put_line(&mut self.lines, dest, line);
        self.tidy();
        self.sub = None;
        let end: usize = self.todo_end();
        let entries: Vec<Entry> = self.entries();
        let n: usize = entries.len();
        let ghost m = entries_of(self@);
        let ghost p = |e: EntryModel| task_above(e, end as int);
        assert(n == m.len());
        let mut i: usize = n;
        let mut found: bool = false;
        while i > 0 && !found
            invariant
                i <= n,
                n == entries@.len(),
                m == entry_models(entries@),
                p == (|e: EntryModel| task_above(e, end as int)),
                !found ==> back_from(m, i as int, p) == back_from(m, n as int, p),
                found ==> i > 0 && back_from(m, n as int, p) == i,
            decreases i, (if found { 0int } else { 1int }),
        {
            assert(m[i - 1] == entries@[i - 1]@);
            found = match entries[i - 1] {
                Entry::Task(it) => it.start < end,
                Entry::Section(_) => false,
            };
            if !found {
                i -= 1;
            }
        }
        self.cursor = if i == 0 { 0 } else { i - 1 };
        self.status = "added".to_string();
        true
    }

    /// Inserts a one-level subtask under the cursor's item, after its last open sub (above
    /// done ones), or right beneath the parent line.
    #[verifier::rlimit(30)]
    pub fn add_subtask(&mut self, text: &str) -> (r: bool)
        ensures
            final(self)@ == sub_added(old(self)@, text@),
            r == (item_under(old(self)@) is Some),
    {
        let it: Item = match self.current_item() {
            Some(it) => it,
            None => return false,
        };
        let ghost s = self@;
        proof {
            lemma_item_under(s);
            lemma_tasks_in(s.lines, it.start + 1, it.start + it.len);
        }
        self.checkpoint();
        let subs: Vec<usize> = self.sub_line_indices(it);
        let n: usize = subs.len();
        let ghost at = positions(subs@);
        let ghost t = s.lines;
        let ghost p = |i: int| !is_done(t[i]);
        assert(at == subs_of(t, it@));
        assert(at.len() == n);
        let mut k: usize = n;
        let mut found: bool = false;
        while k > 0 && !found
            invariant
                k <= n,
                n == subs@.len(),
                at == positions(subs@),
                t == texts(self.lines@),
                p == (|i: int| !is_done(t[i])),
                forall|j: int| 0 <= j < n ==> 0 <= #[trigger] at[j] < t.len(),
                !found ==> back_from(at, k as int, p) == back_from(at, n as int, p),
                found ==> k > 0 && back_from(at, n as int, p) == k,
            decreases k, (if found { 0int } else { 1int }),
        {
            assert(at[k - 1] == subs@[k - 1]);
            assert(t[at[k - 1]] == self.lines@[at[k - 1]]@);
            found = match task_mark(self.lines[subs[k - 1]].as_str()) {
                Some((done, _)) => !done,
                None => true,
            };
            if !found {
                k -= 1;
            }
        }
        let len: usize = self.lines.len();
        assert(len == t.len());
        proof {
            if k > 0 {
                assert(at[k - 1] == subs@[k - 1]);
            }
            if n > 0 {
                assert(at[0] == subs@[0]);
            }
        }
        let place: usize = if k > 0 {
            subs[k - 1] + 1
        } else if n > 0 {
            subs[0]
        } else {
            it.start + 1
        };
        assert(place == sub_place(t, it@));
        let line: String = cat("  - [ ] ", text);
        put_line(&mut self.lines, place, line);
        let ghost now = self@;
        proof {
            lemma_item_under(now);
        }
        if let Some(grown) = self.current_item() {
            let subs: Vec<usize> = self.sub_line_indices(grown);
            self.sub = find_place(&subs, place);
            self.status = "sub added".to_string();
        }
        true
    }

    /// Deletes the subtask at line `i`.
    fn delete_sub(&mut self, i: usize)
        requires
            i < old(self)@.lines.len(),
            is_task(old(self)@.lines[i as int]),
        ensures
            final(self)@ == (State {
                status: "deleted sub: "@ + trim(behind_box(old(self)@.lines[i as int])),
                ..clamped(State { lines: old(self)@.lines.remove(i as int), ..old(self)@ })
            }),
    {
        let ghost t = self@.lines;
        assert(t[i as int] == self.lines@[i as int]@);
        let mut title: String = String::new();
        if let Some((_, at)) = task_mark(self.lines[i].as_str()) {
            let text: String = text_behind(self.lines[i].as_str(), at);
            title = trimmed(text.as_str());
        }
        self.lines.remove(i);
        assert(texts(self.lines@) =~= t.remove(i as int));
        self.clamp_cursor();
        self.status = cat("deleted sub: ", title.as_str());
    }

    /// Deletes an item: its task and the block under it.
    fn delete_item(&mut self, it: Item)
        requires
            it.start < it.start + it.len <= old(self)@.lines.len(),
            is_task(old(self)@.lines[it.start as int]),
        ensures
            final(self)@ == (State {
                status: "deleted: "@ + title_of(behind_box(old(self)@.lines[it.start as int])),
                ..clamped(
                    State {
                        lines: tidied(
                            without(old(self)@.lines, it.start as int, it.start + it.len),
                        ),
                        ..old(self)@
                    },
                )
            }),
    {
        let ghost t = self@.lines;
        assert(t[it.start as int] == self.lines@[it.start as int]@);
        let mut title: String = String::new();
        if let Some((_, at)) = task_mark(self.lines[it.start].as_str()) {
            let text: String = text_behind(self.lines[it.start].as_str(), at);
            title = split_stamp(text.as_str()).0;
        }
        let len: usize = self.lines.len();
        assert(it.start + it.len <= len);
        let _ = cut_lines(&mut self.lines, it.start, it.start + it.len);
        self.tidy();
        self.clamp_cursor();
        self.status = cat("deleted: ", title.as_str());
    }

    /// Deletes the selected subtask, or the selected task with its block.
    pub fn delete_current(&mut self) -> (r: bool)
        ensures
            final(self)@ == deleted(old(self)@),
            r == (line_under(old(self)@) is Some),
    {
        let it: Item = match self.current_item() {
            Some(it) => it,
            None => return false,
        };
        let ghost s = self@;
        proof {
            lemma_item_under(s);
            lemma_line_under(s);
        }
        let line: Option<usize> = self.current_task_line();
        self.checkpoint();
        if self.sub.is_none() {
            self.delete_item(it);
            return true;
        }
        match line {
            Some(i) => {
                self.delete_sub(i);
                true
            },
            None => false,
        }
    }

    /// Rewrites the selected task or subtask title, preserving the checkbox prefix and any
    /// @done stamp.
    pub fn edit_title(&mut self, text: &str) -> (r: bool)
        ensures
            final(self)@ == edited(old(self)@, text@),
            r == (line_under(old(self)@) is Some),
    {
        let ghost s = self@;
        proof {
            lemma_line_under(s);
        }
        let i: usize = match self.current_task_line() {
            Some(i) => i,
            None => return false,
        };
        self.checkpoint();
        assert(s.lines[i as int] == self.lines@[i as int]@);
        if let Some((_, at)) = task_mark(self.lines[i].as_str()) {
            let line: String = retitle(self.lines[i].as_str(), at, text);
            set_line(&mut self.lines, i, line);
        }
        true
    }

    /// Opens a prompt.
    pub fn open_input(&mut self, kind: InputKind)
        ensures
            final(self)@ == input_opened(old(self)@, kind),
    {
        let ghost s = self@;
        proof {
            lemma_line_under(s);
        }
        let mut start: String = String::new();
        if kind == InputKind::Edit {
            let i: usize = match self.current_task_line() {
                Some(i) => i,
                None => return ,
            };
            assert(s.lines[i as int] == self.lines@[i as int]@);
            if let Some((_, at)) = task_mark(self.lines[i].as_str()) {
                let text: String = text_behind(self.lines[i].as_str(), at);
                start = split_stamp(text.as_str()).0;
            }
        }
        if kind == InputKind::NewSub && self.current_item().is_none() {
            return;
        }
        self.input = Some(InputState { kind, text: start });
    }

    /// Takes the lines that were typed at the prompt.
    #[verifier::rlimit(30)]
    pub fn commit_input(&mut self, typed: &Vec<String>) -> (r: bool)
        ensures
            final(self)@ == input_committed(old(self)@, texts(typed@)),
            r == input_saves(old(self)@, texts(typed@)),
    {
        let kind: InputKind = match &self.input {
            Some(input) => input.kind,
            None => return false,
        };
        self.input = None;
        let all: String = join(typed, " ");
        let text: String = trimmed(all.as_str());
        if text.as_str().is_empty() {
            self.status = "cancelled".to_string();
            return false;
        }
        match kind {
            InputKind::Edit => {
                let saves: bool = self.edit_title(text.as_str());
                self.status = "edited".to_string();
                saves
            },
            InputKind::NewTask => self.add_todo(text.as_str()),
            InputKind::NewSub => self.add_subtask(text.as_str()),
            InputKind::NewSection => self.move_current_to(&MoveDest::Section(text)),
        }
    }
}

/// The entries are those of the lines, the collapsed sections and what is hidden.
pub proof fn lemma_entries_same(a: State, b: State, n: int)
    requires
        a.lines == b.lines,
        a.collapsed == b.collapsed,
        a.hide_done == b.hide_done,
    ensures
        entries_upto(a, n) == entries_upto(b, n),
    decreases n,
{
    if n > 0 {
        lemma_entries_same(a, b, n - 1);
    }
}

} // verus!
