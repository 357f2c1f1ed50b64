//! Moving tasks: to another place in the list, to Later and back, to another section.
//! Functions that change the lines return whether the file is to be written.
use crate::app::{
    clamped, dest_models, entries_of, entry_at, entry_line, item_under, label_of, lemma_entries,
    lemma_item_under, remembered, App, DestModel, Entry, EntryModel, InputKind, MenuModel, MoveDest,
    MoveMenu, State,
};
use crate::blocks::{
    is_block, lemma_block_created, lemma_block_ensured, lemma_clear_of_block, lemma_item_is_block,
    lemma_next_stop,
};
use crate::outline::{
    create_heading, created, end_of_section, ensure_heading, ensured, kind_at, lemma_block_end,
    lemma_top_not_blank, move_lines, moved, next_stop, shifted, tidied, top_end, Item, ItemModel,
    Placed,
};
use crate::prompt::input_opened;
use crate::task::{
    heading_name, is_level_two, kind_of, level_two, name_in, section_kind, SectionKind,
};
use crate::text::cat;
use vstd::prelude::*;

verus! {

/// The lines after an item moves to the end of a section that was placed.
pub open spec fn lines_moved(p: Placed, it: ItemModel) -> Seq<Seq<char>> {
    tidied(moved(p.lines, shifted(it.start, p), it.len, end_of_section(p.lines, p.at)))
}

/// The lines after an item moves to the end of Todo.
pub open spec fn lines_to_top(lines: Seq<Seq<char>>, it: ItemModel) -> Seq<Seq<char>> {
    tidied(moved(lines, it.start, it.len, top_end(lines)))
}

/// The lines after an item moves to a destination.
pub open spec fn lines_to(lines: Seq<Seq<char>>, it: ItemModel, dest: DestModel) -> Seq<Seq<char>> {
    match dest {
        DestModel::Todo => lines_to_top(lines, it),
        DestModel::Later => lines_moved(ensured(lines, "Later"@), it),
        DestModel::Section(name) => lines_moved(created(lines, name), it),
        DestModel::NewSection => lines,
    }
}

/// Whether the selection can be moved to a section: it is a task, not a subtask, and open.
pub open spec fn movable(s: State) -> bool {
    &&& s.sub is None
    &&& item_under(s) matches Some(it)
    &&& !it.done
}

/// What is said where a done task is to be moved.
pub open spec fn told_done(s: State) -> State {
    if s.sub is None && item_under(s) is Some {
        State { status: "item is done — untick it first"@, ..s }
    } else {
        s
    }
}

/// The state after the selected task moves to a destination.
pub open spec fn moved_to(s: State, dest: DestModel) -> State {
    if !movable(s) {
        told_done(s)
    } else if dest == DestModel::NewSection {
        remembered(s)
    } else {
        State {
            status: "moved to "@ + label_of(dest),
            ..clamped(State { lines: lines_to(s.lines, item_under(s)->0, dest), ..remembered(s) })
        }
    }
}

/// The state after the selected task moves to Later, or from Later back to Todo.
pub open spec fn later_cycled(s: State) -> State {
    if !movable(s) {
        told_done(s)
    } else {
        let it = item_under(s)->0;
        clamped(
            if kind_at(s.lines, it.start) == SectionKind::Later {
                State {
                    lines: lines_to_top(s.lines, it),
                    status: "moved to todo"@,
                    ..remembered(s)
                }
            } else {
                State {
                    lines: lines_moved(ensured(s.lines, "Later"@), it),
                    status: "moved to later"@,
                    ..remembered(s)
                }
            },
        )
    }
}

/// The task among the entries at `k`, if there is one.
pub open spec fn task_entry(s: State, k: int) -> Option<ItemModel> {
    if 0 <= k < entries_of(s).len() {
        match entries_of(s)[k] {
            EntryModel::Task(it) => Some(it),
            EntryModel::Section(_) => None,
        }
    } else {
        None
    }
}

/// The place of the task under the cursor and of the one `delta` entries on, if both are
/// tasks and no subtask is selected.
pub open spec fn reorder_pair(s: State, delta: int) -> Option<(ItemModel, ItemModel)> {
    match (task_entry(s, s.cursor), task_entry(s, s.cursor + delta)) {
        (Some(cur), Some(tgt)) => if s.sub is None {
            Some((cur, tgt))
        } else {
            None
        },
        _ => None,
    }
}

/// The state after the task under the cursor moves before the one `delta` entries up, or
/// behind the one `delta` entries down.
pub open spec fn reordered(s: State, delta: int) -> State {
    match reorder_pair(s, delta) {
        Some((cur, tgt)) => {
            let dest = if delta < 0 {
                tgt.start
            } else {
                tgt.start + tgt.len
            };
            State {
                lines: tidied(moved(s.lines, cur.start, cur.len, dest)),
                cursor: s.cursor + delta,
                ..remembered(s)
            }
        },
        None => s,
    }
}

/// The sections' headings in the first `n` lines, with their names.
pub open spec fn sections_upto(lines: Seq<Seq<char>>, n: int) -> Seq<(int, Seq<char>)>
    decreases n,
{
    if n <= 0 {
        Seq::empty()
    } else if level_two(lines[n - 1]) {
        sections_upto(lines, n - 1).push((n - 1, heading_name(lines[n - 1])))
    } else {
        sections_upto(lines, n - 1)
    }
}

/// The sections' headings, with their names.
pub open spec fn sections_of(lines: Seq<Seq<char>>) -> Seq<(int, Seq<char>)> {
    sections_upto(lines, lines.len() as int)
}

/// What a list of headings says.
pub open spec fn section_models(v: Seq<(usize, String)>) -> Seq<(int, Seq<char>)> {
    Seq::new(v.len(), |i: int| (v[i].0 as int, v[i].1@))
}

/// The destinations in the first `n` of the sections: those of the user's own.
pub open spec fn custom_dests(sections: Seq<(int, Seq<char>)>, n: int) -> Seq<DestModel>
    decreases n,
{
    if n <= 0 {
        Seq::empty()
    } else if kind_of(sections[n - 1].1) == SectionKind::Todo {
        custom_dests(sections, n - 1).push(DestModel::Section(sections[n - 1].1))
    } else {
        custom_dests(sections, n - 1)
    }
}

/// The destinations that the menu offers.
pub open spec fn menu_options(lines: Seq<Seq<char>>) -> Seq<DestModel> {
    let sections = sections_of(lines);
    seq![DestModel::Todo] + custom_dests(sections, sections.len() as int) + seq![
        DestModel::Later,
        DestModel::NewSection,
    ]
}

/// The state after the menu of destinations is opened.
pub open spec fn menu_opened(s: State) -> State {
    if !movable(s) {
        told_done(s)
    } else {
        State {
            move_menu: Some(MenuModel { options: menu_options(s.lines), sel: 0 }),
            ..s
        }
    }
}

/// The destination that is selected in the menu.
pub open spec fn menu_choice(s: State) -> Option<DestModel> {
    match s.move_menu {
        Some(menu) => Some(menu.options[menu.sel]),
        None => None,
    }
}

/// The state after the selected destination is taken.
pub open spec fn move_committed(s: State) -> State {
    let closed = State { move_menu: None, ..s };
    match menu_choice(s) {
        None => s,
        Some(DestModel::NewSection) => input_opened(closed, InputKind::NewSection),
        Some(dest) => moved_to(closed, dest),
    }
}

impl App {
    /// Says that a done task is not moved, if one is selected.
    fn tell_done(&mut self)
        requires
            !movable(old(self)@),
        ensures
            final(self)@ == told_done(old(self)@),
    {
        if self.sub.is_none() {
            if self.current_item().is_some() {
                self.status = "item is done — untick it first".to_string();
            }
        }
    }

    /// The selected task, if it can be moved to a section.
    fn movable_item(&self) -> (r: Option<Item>)
        ensures
            match r {
                Some(it) => movable(self@) && item_under(self@) == Some(it@),
                None => !movable(self@),
            },
    {
        if self.sub.is_some() {
            return None;
        }
        match self.current_item() {
            Some(it) => if it.done {
                None
            } else {
                Some(it)
            },
            None => None,
        }
    }

    /// The heading line of a section, created if missing. Later is created before Done;
    /// Done goes at the end of the file.
    pub fn ensure_section(&mut self, name: &str) -> (r: usize)
        ensures
            ({
                let p = ensured(old(self)@.lines, name@);
                final(self)@ == (State { lines: p.lines, ..old(self)@ }) && r == p.at
            }),
    {
        let (h, _) = ensure_heading(&mut self.lines, name);
        h
    }

    /// The heading line of a custom section. If missing it is created before the Later and
    /// Done headings, or else at the end.
    pub fn create_section(&mut self, name: &str) -> (r: usize)
        ensures
            ({
                let p = created(old(self)@.lines, name@);
                final(self)@ == (State { lines: p.lines, ..old(self)@ }) && r == p.at
            }),
    {
        let (h, _) = create_heading(&mut self.lines, name);
        h
    }

    /// Moves the `len` lines from `start` on to stand before what is now line `dest`.
    pub fn move_block(&mut self, start: usize, len: usize, dest: usize)
        requires
            start + len <= old(self)@.lines.len(),
            dest <= old(self)@.lines.len(),
            dest <= start || dest >= start + len,
        ensures
            final(self)@ == (State {
                lines: moved(old(self)@.lines, start as int, len as int, dest as int),
                ..old(self)@
            }),
    {
        move_lines(&mut self.lines, start, len, dest);
    }

    /// Moves an item to the end of Todo.
    fn to_top(&mut self, it: Item)
        requires
            is_block(old(self)@.lines, it.start as int, it.start + it.len),
        ensures
            final(self)@ == (State { lines: lines_to_top(old(self)@.lines, it@), ..old(self)@ }),
    {
        proof {
            let t = self@.lines;
            lemma_next_stop(t, 0);
            lemma_clear_of_block(t, it.start as int, it.start + it.len, next_stop(t, 0));
        }
        let dest: usize = self.todo_end();
        self.move_block(it.start, it.len, dest);
        self.tidy();
    }

    /// Moves an item to the end of the section that was placed with its heading at `h`,
    /// the lines from `from` on having moved down by two.
    fn to_section(&mut self, it: Item, h: usize, from: usize, Ghost(p): Ghost<Placed>)
        requires
            p.lines == old(self)@.lines,
            p.at == h,
            p.moved == from,
            h < old(self)@.lines.len(),
            is_block(p.lines, shifted(it.start as int, p), shifted(it.start as int, p) + it.len),
        ensures
            final(self)@ == (State { lines: lines_moved(p, it@), ..old(self)@ }),
    {
        let n: usize = self.lines.len();
        assert(n == p.lines.len());
        let start: usize = if it.start >= from {
            it.start + 2
        } else {
            it.start
        };
        proof {
            lemma_next_stop(p.lines, h + 1);
            lemma_clear_of_block(
                p.lines,
                start as int,
                start + it.len,
                next_stop(p.lines, h + 1),
            );
        }
        let dest: usize = self.section_end(h);
        self.move_block(start, it.len, dest);
        self.tidy();
    }

    /// Moves the current main task's block to the end of a destination section (creating
    /// a custom section if needed).
    pub fn move_current_to(&mut self, dest: &MoveDest) -> (r: bool)
        ensures
            final(self)@ == moved_to(old(self)@, dest@),
            r == (movable(old(self)@) && dest@ != DestModel::NewSection),
    {
        let it: Item = match self.movable_item() {
            Some(it) => it,
            None => {
                self.tell_done();
                return false;
            },
        };
        let ghost s = self@;
        proof {
            lemma_item_is_block(s);
            lemma_item_under(s);
        }
        let ghost end = it.start + it.len;
        self.checkpoint();
        match dest {
            MoveDest::Todo => {
                self.to_top(it);
            },
            MoveDest::Later => {
                let (h, from) = ensure_heading(&mut self.lines, "Later");
                let ghost p = ensured(s.lines, "Later"@);
                proof {
                    lemma_block_ensured(s.lines, it.start as int, end, "Later"@);
                }
                self.to_section(it, h, from, Ghost(p));
            },
            MoveDest::Section(name) => {
                let (h, from) = create_heading(&mut self.lines, name.as_str());
                let ghost p = created(s.lines, name@);
                proof {
                    lemma_block_created(s.lines, it.start as int, end, name@);
                }
                self.to_section(it, h, from, Ghost(p));
            },
            MoveDest::NewSection => {
                return false;
            },
        }
        self.clamp_cursor();
        self.status = cat("moved to ", dest.label());
        true
    }

    /// Moves the current item Todo -> Later, or Later -> Todo. Sections are for main tasks
    /// only; does nothing on a subtask.
    pub fn cycle_later(&mut self) -> (r: bool)
        ensures
            final(self)@ == later_cycled(old(self)@),
            r == movable(old(self)@),
    {
        let it: Item = match self.movable_item() {
            Some(it) => it,
            None => {
                self.tell_done();
                return false;
            },
        };
        let ghost s = self@;
        proof {
            lemma_item_is_block(s);
            lemma_item_under(s);
        }
        self.checkpoint();
        if self.section_at(it.start) == SectionKind::Later {
            self.status = "moved to todo".to_string();
            self.to_top(it);
        } else {
            let (h, from) = ensure_heading(&mut self.lines, "Later");
            let ghost p = ensured(s.lines, "Later"@);
            proof {
                lemma_block_ensured(s.lines, it.start as int, it.start + it.len, "Later"@);
            }
            self.status = "moved to later".to_string();
            self.to_section(it, h, from, Ghost(p));
        }
        self.clamp_cursor();
        true
    }

    /// Moves the task under the cursor before the one `delta` entries up, or behind the one
    /// `delta` entries down.
    #[verifier::rlimit(30)]
    pub fn move_item(&mut self, delta: isize) -> (r: bool)
        ensures
            final(self)@ == reordered(old(self)@, delta as int),
            r == (reorder_pair(old(self)@, delta as int) is Some),
    {
        if self.sub.is_some() {
            return false;
        }
        let entries: Vec<Entry> = self.entries();
        let n: usize = entries.len();
        let ghost s = self@;
        assert(n == entries_of(s).len());
        let target: i128 = self.cursor as i128 + delta as i128;
        if target < 0 || target >= n as i128 || self.cursor >= n {
            return false;
        }
        let goal: usize = target as usize;
        proof {
            assert(entries_of(s)[s.cursor] == entries@[s.cursor]@);
            assert(entries_of(s)[goal as int] == entries@[goal as int]@);
        }
        match (entries[self.cursor], entries[goal]) {
            (Entry::Task(cur), Entry::Task(tgt)) => {
                proof {
                    lemma_entries(s, s.lines.len() as int);
                    let a = entries_of(s)[s.cursor];
                    let b = entries_of(s)[goal as int];
                    assert(entry_at(s, entry_line(a)) == Some(a));
                    assert(entry_at(s, entry_line(b)) == Some(b));
                    lemma_block_end(s.lines, cur.start as int);
                    lemma_block_end(s.lines, tgt.start as int);
                    if delta > 0 {
                        lemma_top_not_blank(s.lines[tgt.start as int]);
                    }
                }
                let len: usize = self.lines.len();
                assert(tgt.start + tgt.len <= len);
                self.checkpoint();
                let dest: usize = if delta < 0 {
                    tgt.start
                } else {
                    tgt.start + tgt.len
                };
                self.move_block(cur.start, cur.len, dest);
                self.cursor = goal;
                self.tidy();
                true
            },
            _ => false,
        }
    }

    /// Level-2 section headings as (line index, name), in file order.
    pub fn sections(&self) -> (r: Vec<(usize, String)>)
        ensures
            section_models(r@) == sections_of(self@.lines),
    {
        let mut out: Vec<(usize, String)> = Vec::new();
        let n: usize = self.lines.len();
        let ghost t = self@.lines;
        assert(section_models(out@) =~= sections_upto(t, 0));
        for i in 0..n
            invariant
                n == self.lines@.len(),
                t == self@.lines,
                section_models(out@) == sections_upto(t, i as int),
        {
            let ghost seen = section_models(out@);
            assert(t[i as int] == self.lines@[i as int]@);
            if is_level_two(self.lines[i].as_str()) {
                let name: String = name_in(self.lines[i].as_str());
                out.push((i, name));
                assert(section_models(out@) =~= seen.push((i as int, heading_name(t[i as int]))));
            }
        }
        out
    }

    /// Opens the menu of destinations for the selected task.
    pub fn open_move_menu(&mut self)
        ensures
            final(self)@ == menu_opened(old(self)@),
    {
        if self.movable_item().is_none() {
            self.tell_done();
            return;
        }
        let sections: Vec<(usize, String)> = self.sections();
        let n: usize = sections.len();
        let ghost m = section_models(sections@);
        let mut options: Vec<MoveDest> = Vec::new();
        options.push(MoveDest::Todo);
        assert(dest_models(options@) =~= seq![DestModel::Todo] + custom_dests(m, 0));
        for i in 0..n
            invariant
                n == sections@.len(),
                m == section_models(sections@),
                dest_models(options@) == seq![DestModel::Todo] + custom_dests(m, i as int),
        {
            let ghost seen = dest_models(options@);
            assert(m[i as int].1 == sections@[i as int].1@);
            let name: String = sections[i].1.clone();
            if section_kind(name.as_str()) == SectionKind::Todo {
                options.push(MoveDest::Section(name));
                assert(dest_models(options@) =~= seen.push(DestModel::Section(m[i as int].1)));
                assert(dest_models(options@) =~= seq![DestModel::Todo] + custom_dests(
                    m,
                    (i + 1) as int,
                ));
            }
        }
        let ghost seen = dest_models(options@);
        options.push(MoveDest::Later);
        options.push(MoveDest::NewSection);
        assert(dest_models(options@) =~= seen + seq![DestModel::Later, DestModel::NewSection]);
        self.move_menu = Some(MoveMenu { options, sel: 0 });
    }

    /// Takes the destination that is selected in the menu.
    pub fn commit_move(&mut self) -> (r: bool)
        requires
            old(self)@.move_menu matches Some(menu) ==> 0 <= menu.sel < menu.options.len(),
        ensures
            final(self)@ == move_committed(old(self)@),
            r == (menu_choice(old(self)@) matches Some(dest) && dest != DestModel::NewSection
                && movable(State { move_menu: None, ..old(self)@ })),
    {
        let ghost s = self@;
        let dest: MoveDest = match &self.move_menu {
            None => return false,
            Some(menu) => {
                assert(menu@.options[menu.sel as int] == menu.options@[menu.sel as int]@);
                menu.options[menu.sel].copy()
            },
        };
        self.move_menu = None;
        assert(dest@ == menu_choice(s)->0);
        if let MoveDest::NewSection = dest {
            self.open_input(InputKind::NewSection);
            return false;
        }
        self.move_current_to(&dest)
    }
}

} // verus!
