//! The state of the application, what is selected in it, and moving about.
use crate::lines::{copy_lines, join, joined, same_lines, split_lines, texts, to_lines};
use crate::outline::{
    back_blanks, before_blanks, end_of_section, find_block_end, find_heading, find_kind, find_stop,
    has_heading, heading_index, item_at, item_models, items, items_of, kind_at, lemma_block_end,
    past_blanks, skip_blanks, tidied, tidy_lines, top_end, Item, ItemModel,
};
use crate::search::back_from;
use crate::task::{
    heading, heading_name, is_done, is_heading, is_section, is_task, is_top, kind_of, name_in,
    section, section_kind, task_mark, SectionKind,
};
use crate::text::{cat, find, is_blank, position};
use vstd::hash_set::StringHashSet;
use vstd::prelude::*;

verus! {

/// What a new todo file holds.
pub const STARTER: &'static str = "# Todo\n\n- [ ] Add your first item\n\n## Later\n\n## Done\n";

/// The number of earlier states that undo keeps.
pub const UNDO_DEPTH: usize = 100;

/// The block of a task while it is edited: the task's line, the number of lines in the
/// block, their common indentation in bytes, the task's title, the block's text without
/// that indentation, and what was taken away from each of its lines.
pub struct NotesState {
    pub start: usize,
    pub child_len: usize,
    pub indent: usize,
    pub title: String,
    pub text: Vec<String>,
    pub margin: Vec<String>,
}

/// What a `NotesState` says.
#[verifier::ext_equal]
pub struct NotesModel {
    pub start: int,
    pub child_len: int,
    pub indent: int,
    pub title: Seq<char>,
    pub text: Seq<Seq<char>>,
    pub margin: Seq<Seq<char>>,
}

impl View for NotesState {
    type V = NotesModel;

    open spec fn view(&self) -> NotesModel {
        NotesModel {
            start: self.start as int,
            child_len: self.child_len as int,
            indent: self.indent as int,
            title: self.title@,
            text: texts(self.text@),
            margin: texts(self.margin@),
        }
    }
}

/// What a single-line prompt asks for.
#[derive(Clone, Copy, PartialEq, Eq, Debug, Structural)]
pub enum InputKind {
    NewTask,
    NewSub,
    NewSection,
    Edit,
}

/// Single-line prompt for adding a new todo or subtask or editing a title, with the text
/// that it starts from.
pub struct InputState {
    pub kind: InputKind,
    pub text: String,
}

/// What an `InputState` says.
#[verifier::ext_equal]
pub struct InputModel {
    pub kind: InputKind,
    pub text: Seq<char>,
}

impl View for InputState {
    type V = InputModel;

    open spec fn view(&self) -> InputModel {
        InputModel { kind: self.kind, text: self.text@ }
    }
}

/// A selectable position in the main list: a task, or a collapsed section's heading line.
#[derive(Clone, Copy, PartialEq, Eq, Debug, Structural)]
pub enum Entry {
    Task(Item),
    Section(usize),
}

/// What an `Entry` says.
pub enum EntryModel {
    Task(ItemModel),
    Section(int),
}

impl View for Entry {
    type V = EntryModel;

    open spec fn view(&self) -> EntryModel {
        match self {
            Entry::Task(it) => EntryModel::Task(it@),
            Entry::Section(h) => EntryModel::Section(*h as int),
        }
    }
}

/// Where a task can be moved to.
pub enum MoveDest {
    Todo,
    Section(String),
    Later,
    NewSection,
}

/// What a `MoveDest` says.
#[verifier::ext_equal]
pub enum DestModel {
    Todo,
    Section(Seq<char>),
    Later,
    NewSection,
}

impl View for MoveDest {
    type V = DestModel;

    open spec fn view(&self) -> DestModel {
        match self {
            MoveDest::Todo => DestModel::Todo,
            MoveDest::Section(name) => DestModel::Section(name@),
            MoveDest::Later => DestModel::Later,
            MoveDest::NewSection => DestModel::NewSection,
        }
    }
}

/// How a destination is called in the menu.
pub open spec fn label_of(dest: DestModel) -> Seq<char> {
    match dest {
        DestModel::Todo => "todo"@,
        DestModel::Section(name) => name,
        DestModel::Later => "later"@,
        DestModel::NewSection => "new section…"@,
    }
}

impl MoveDest {
    /// How the destination is called in the menu.
    pub fn label(&self) -> (r: &str)
        ensures
            r@ == label_of(self@),
    {
        match self {
            MoveDest::Todo => "todo",
            MoveDest::Section(name) => name.as_str(),
            MoveDest::Later => "later",
            MoveDest::NewSection => "new section…",
        }
    }

    /// A copy of the destination.
    pub fn copy(&self) -> (r: MoveDest)
        ensures
            r@ == self@,
    {
        match self {
            MoveDest::Todo => MoveDest::Todo,
            MoveDest::Section(name) => MoveDest::Section(name.clone()),
            MoveDest::Later => MoveDest::Later,
            MoveDest::NewSection => MoveDest::NewSection,
        }
    }
}

/// The menu of destinations.
pub struct MoveMenu {
    pub options: Vec<MoveDest>,
    pub sel: usize,
}

/// What a `MoveMenu` says.
#[verifier::ext_equal]
pub struct MenuModel {
    pub options: Seq<DestModel>,
    pub sel: int,
}

/// What a list of destinations says.
pub open spec fn dest_models(options: Seq<MoveDest>) -> Seq<DestModel> {
    Seq::new(options.len(), |i: int| options[i]@)
}

impl View for MoveMenu {
    type V = MenuModel;

    open spec fn view(&self) -> MenuModel {
        MenuModel { options: dest_models(self.options@), sel: self.sel as int }
    }
}

/// Read-only view of the history of done tasks.
pub struct HistoryView {
    pub lines: Vec<String>,
    pub scroll: u16,
}

/// What a `HistoryView` says.
#[verifier::ext_equal]
pub struct HistoryModel {
    pub lines: Seq<Seq<char>>,
    pub scroll: int,
}

impl View for HistoryView {
    type V = HistoryModel;

    open spec fn view(&self) -> HistoryModel {
        HistoryModel { lines: texts(self.lines@), scroll: self.scroll as int }
    }
}

/// The application.
pub struct App {
    pub lines: Vec<String>,
    /// Whether the file's lines end in a carriage return and a newline.
    pub crlf: bool,
    pub cursor: usize,
    /// Selected subtask index within the cursor item's sub lines, if any.
    pub sub: Option<usize>,
    pub expand_all: bool,
    pub show_help: bool,
    pub hide_done: bool,
    pub status: String,
    pub notes: Option<NotesState>,
    pub input: Option<InputState>,
    pub move_menu: Option<MoveMenu>,
    pub history: Option<HistoryView>,
    /// Quit-confirmation popup; the bool is whether "yes" is highlighted.
    pub quit_confirm: Option<bool>,
    /// Collapsed section names, in memory only.
    pub collapsed: StringHashSet,
    pub undo: Vec<Vec<String>>,
}

/// What an `App` says.
#[verifier::ext_equal]
pub struct State {
    pub lines: Seq<Seq<char>>,
    pub crlf: bool,
    pub cursor: int,
    pub sub: Option<int>,
    pub expand_all: bool,
    pub show_help: bool,
    pub hide_done: bool,
    pub status: Seq<char>,
    pub notes: Option<NotesModel>,
    pub input: Option<InputModel>,
    pub move_menu: Option<MenuModel>,
    pub history: Option<HistoryModel>,
    pub quit_confirm: Option<bool>,
    pub collapsed: Set<Seq<char>>,
    pub undo: Seq<Seq<Seq<char>>>,
}

/// What a list of earlier states says.
pub open spec fn undo_model(undo: Seq<Vec<String>>) -> Seq<Seq<Seq<char>>> {
    Seq::new(undo.len(), |i: int| texts(undo[i]@))
}

/// A position, if there is one, as a number.
pub open spec fn as_position(k: Option<usize>) -> Option<int> {
    match k {
        Some(k) => Some(k as int),
        None => None,
    }
}

impl View for App {
    type V = State;

    open spec fn view(&self) -> State {
        State {
            lines: texts(self.lines@),
            crlf: self.crlf,
            cursor: self.cursor as int,
            sub: as_position(self.sub),
            expand_all: self.expand_all,
            show_help: self.show_help,
            hide_done: self.hide_done,
            status: self.status@,
            notes: match self.notes {
                Some(notes) => Some(notes@),
                None => None,
            },
            input: match self.input {
                Some(input) => Some(input@),
                None => None,
            },
            move_menu: match self.move_menu {
                Some(menu) => Some(menu@),
                None => None,
            },
            history: match self.history {
                Some(history) => Some(history@),
                None => None,
            },
            quit_confirm: self.quit_confirm,
            collapsed: self.collapsed@,
            undo: undo_model(self.undo@),
        }
    }
}

// ---------------------------------------------------------------------------------
// Entries

/// Whether a line heads a collapsed section.
pub open spec fn collapsed_heading(l: Seq<char>, collapsed: Set<Seq<char>>) -> bool {
    section(l) && collapsed.contains(heading_name(l))
}

/// Whether the last heading before line `i` heads a collapsed section.
pub open spec fn in_collapsed(s: State, i: int) -> bool {
    let p = back_from(s.lines, i, |l: Seq<char>| heading(l));
    p > 0 && collapsed_heading(s.lines[p - 1], s.collapsed)
}

/// Whether a heading is hidden, as that of the done tasks.
pub open spec fn hidden_heading(l: Seq<char>, hide_done: bool) -> bool {
    hide_done && kind_of(heading_name(l)) == SectionKind::Done
}

/// Whether the task at line `i` is shown.
pub open spec fn shows_task(s: State, i: int) -> bool {
    is_top(s.lines[i]) && !in_collapsed(s, i) && !(s.hide_done && is_done(s.lines[i]))
}

/// The selectable entry at line `i`, if there is one: a shown task, or the heading of a
/// collapsed section.
pub open spec fn entry_at(s: State, i: int) -> Option<EntryModel> {
    let l = s.lines[i];
    if heading(l) {
        if collapsed_heading(l, s.collapsed) && !hidden_heading(l, s.hide_done) {
            Some(EntryModel::Section(i))
        } else {
            None
        }
    } else if shows_task(s, i) {
        Some(EntryModel::Task(item_at(s.lines, i)))
    } else {
        None
    }
}

/// The entries in the first `n` lines.
pub open spec fn entries_upto(s: State, n: int) -> Seq<EntryModel>
    decreases n,
{
    if n <= 0 {
        Seq::empty()
    } else {
        match entry_at(s, n - 1) {
            Some(e) => entries_upto(s, n - 1).push(e),
            None => entries_upto(s, n - 1),
        }
    }
}

/// The entries that the cursor can stand on, in file order.
pub open spec fn entries_of(s: State) -> Seq<EntryModel> {
    entries_upto(s, s.lines.len() as int)
}

/// The line of an entry.
pub open spec fn entry_line(e: EntryModel) -> int {
    match e {
        EntryModel::Task(it) => it.start,
        EntryModel::Section(h) => h,
    }
}

/// What a list of entries says.
pub open spec fn entry_models(entries: Seq<Entry>) -> Seq<EntryModel> {
    Seq::new(entries.len(), |i: int| entries[i]@)
}

/// Each entry is the one at its line, and the entries come in the order of their lines.
pub proof fn lemma_entries(s: State, n: int)
    requires
        0 <= n <= s.lines.len(),
    ensures
        forall|k: int|
            0 <= k < entries_upto(s, n).len() ==> {
                let e = #[trigger] entries_upto(s, n)[k];
                0 <= entry_line(e) < n && entry_at(s, entry_line(e)) == Some(e)
            },
        forall|j: int, k: int|
            0 <= j < k < entries_upto(s, n).len() ==> entry_line(
                #[trigger] entries_upto(s, n)[j],
            ) < entry_line(#[trigger] entries_upto(s, n)[k]),
    decreases n,
{
    if n > 0 {
        lemma_entries(s, n - 1);
    }
}

/// The entry under the cursor.
pub open spec fn entry_under(s: State) -> Option<EntryModel> {
    if 0 <= s.cursor < entries_of(s).len() {
        Some(entries_of(s)[s.cursor])
    } else {
        None
    }
}

/// The item under the cursor, unless a collapsed section is selected.
pub open spec fn item_under(s: State) -> Option<ItemModel> {
    match entry_under(s) {
        Some(EntryModel::Task(it)) => Some(it),
        _ => None,
    }
}

/// The item under the cursor is that of a top-level task.
pub proof fn lemma_item_under(s: State)
    ensures
        item_under(s) matches Some(it) ==> {
            &&& 0 <= it.start < it.start + it.len <= s.lines.len()
            &&& is_top(s.lines[it.start])
            &&& it == item_at(s.lines, it.start)
            &&& !is_blank(s.lines[it.start + it.len - 1])
            &&& shows_task(s, it.start)
        },
        entry_under(s) matches Some(EntryModel::Section(h)) ==> 0 <= h < s.lines.len() && section(
            s.lines[h],
        ),
{
    lemma_entries(s, s.lines.len() as int);
    if let Some(e) = entry_under(s) {
        let i = entry_line(e);
        assert(entry_at(s, i) == Some(e));
        if e is Task {
            lemma_block_end(s.lines, i);
        }
    }
}

/// The tasks among the lines from `from` up to `to`.
pub open spec fn tasks_in(lines: Seq<Seq<char>>, from: int, to: int) -> Seq<int>
    decreases to - from,
{
    if to <= from {
        Seq::empty()
    } else if is_task(lines[to - 1]) {
        tasks_in(lines, from, to - 1).push(to - 1)
    } else {
        tasks_in(lines, from, to - 1)
    }
}

/// The lines of an item's subtasks.
pub open spec fn subs_of(lines: Seq<Seq<char>>, it: ItemModel) -> Seq<int> {
    tasks_in(lines, it.start + 1, it.start + it.len)
}

/// Each of the tasks found is a task of the range, and they come in order.
pub proof fn lemma_tasks_in(lines: Seq<Seq<char>>, from: int, to: int)
    requires
        from <= to,
    ensures
        tasks_in(lines, from, to).len() <= to - from,
        forall|k: int|
            0 <= k < tasks_in(lines, from, to).len() ==> {
                let i = #[trigger] tasks_in(lines, from, to)[k];
                from <= i < to && is_task(lines[i])
            },
        forall|j: int, k: int|
            0 <= j < k < tasks_in(lines, from, to).len() ==> #[trigger] tasks_in(lines, from, to)[j]
                < #[trigger] tasks_in(lines, from, to)[k],
    decreases to - from,
{
    if from < to {
        lemma_tasks_in(lines, from, to - 1);
    }
}

/// The number of subtasks of the item under the cursor.
pub open spec fn sub_count(s: State) -> int {
    match item_under(s) {
        Some(it) => subs_of(s.lines, it).len() as int,
        None => 0,
    }
}

/// Line positions as numbers.
pub open spec fn positions(v: Seq<usize>) -> Seq<int> {
    Seq::new(v.len(), |i: int| v[i] as int)
}

/// The line of the selected task or subtask, if any.
pub open spec fn line_under(s: State) -> Option<int> {
    match item_under(s) {
        Some(it) => match s.sub {
            Some(k) => {
                let subs = subs_of(s.lines, it);
                if 0 <= k < subs.len() {
                    Some(subs[k])
                } else {
                    None
                }
            },
            None => Some(it.start),
        },
        None => None,
    }
}

/// The line under the cursor is a task.
pub proof fn lemma_line_under(s: State)
    ensures
        line_under(s) matches Some(i) ==> 0 <= i < s.lines.len() && is_task(s.lines[i]),
{
    lemma_item_under(s);
    if let Some(it) = item_under(s) {
        lemma_tasks_in(s.lines, it.start + 1, it.start + it.len);
    }
}

// ---------------------------------------------------------------------------------
// Operations on the state

/// The state with the cursor, and the subtask under it, within what there is.
pub open spec fn clamped(s: State) -> State {
    let n = entries_of(s).len();
    let at = State {
        cursor: if n == 0 {
            0
        } else if s.cursor >= n {
            n - 1
        } else {
            s.cursor
        },
        ..s
    };
    match s.sub {
        None => at,
        Some(k) => {
            let count = sub_count(at);
            State {
                sub: if count == 0 {
                    None
                } else if k < count {
                    Some(k)
                } else {
                    Some(count - 1)
                },
                ..at
            }
        },
    }
}

/// The state with its lines remembered for undo.
pub open spec fn remembered(s: State) -> State {
    if s.undo.len() > 0 && s.undo.last() == s.lines {
        s
    } else {
        let undo = s.undo.push(s.lines);
        State {
            undo: if undo.len() > UNDO_DEPTH {
                undo.skip(1)
            } else {
                undo
            },
            ..s
        }
    }
}

/// The state after the last remembered lines are taken back.
pub open spec fn undone(s: State) -> State {
    if s.undo.len() == 0 {
        State { status: "nothing to undo"@, ..s }
    } else {
        State {
            status: "undo"@,
            ..clamped(State { lines: s.undo.last(), undo: s.undo.drop_last(), sub: None, ..s })
        }
    }
}

/// The selection one step down: into the subtasks of the current item, through them, and
/// on to the next entry.
pub open spec fn downward(s: State) -> State {
    let count = sub_count(s);
    if s.sub is None && count > 0 {
        State { sub: Some(0), ..s }
    } else if s.sub matches Some(k) && k + 1 < count {
        State { sub: Some(s.sub->0 + 1), ..s }
    } else if s.cursor + 1 < entries_of(s).len() {
        State { cursor: s.cursor + 1, sub: None, ..s }
    } else {
        s
    }
}

/// The selection one step up: through the subtasks of the current item to the item, and
/// on to the entry before, or to its last subtask if all are expanded.
pub open spec fn upward(s: State) -> State {
    match s.sub {
        Some(k) => State {
            sub: if k == 0 {
                None
            } else {
                Some(k - 1)
            },
            ..s
        },
        None => if s.cursor > 0 {
            let up = State { cursor: s.cursor - 1, ..s };
            if s.expand_all && sub_count(up) > 0 {
                State { sub: Some(sub_count(up) - 1), ..up }
            } else {
                up
            }
        } else {
            s
        },
    }
}

/// The end of a line in the file.
pub open spec fn line_end(crlf: bool) -> Seq<char> {
    if crlf {
        "\r\n"@
    } else {
        "\n"@
    }
}

/// The text of the file that holds the lines.
pub open spec fn file_of(lines: Seq<Seq<char>>, crlf: bool) -> Seq<char> {
    joined(lines, line_end(crlf)) + line_end(crlf)
}

/// The lines in the text of a file. Lines end in a newline; up to two carriage returns
/// before it go with it.
pub open spec fn lines_in(text: Seq<char>) -> Seq<Seq<char>> {
    split_lines(text, 2)
}

/// The state after the file is read: its lines replace the state's, and what undo
/// remembers, being older, is forgotten.
pub open spec fn reloaded(s: State, text: Seq<char>) -> State {
    clamped(
        State {
            crlf: find(text, "\r\n"@) is Some,
            lines: lines_in(text),
            undo: Seq::empty(),
            ..s
        },
    )
}

/// The state before any file is read.
pub open spec fn initial() -> State {
    State {
        lines: Seq::empty(),
        crlf: false,
        cursor: 0,
        sub: None,
        expand_all: false,
        show_help: false,
        hide_done: false,
        status: Seq::empty(),
        notes: None,
        input: None,
        move_menu: None,
        history: None,
        quit_confirm: None,
        collapsed: Set::empty(),
        undo: Seq::empty(),
    }
}

impl App {
    /// An application with these lines, nothing selected but the first entry.
    pub fn with_lines(lines: Vec<String>) -> (r: App)
        ensures
            r@ == (State { lines: texts(lines@), ..initial() }),
    {
        App {
            lines,
            crlf: false,
            cursor: 0,
            sub: None,
            expand_all: false,
            show_help: false,
            hide_done: false,
            status: String::new(),
            notes: None,
            input: None,
            move_menu: None,
            history: None,
            quit_confirm: None,
            collapsed: StringHashSet::new(),
            undo: Vec::new(),
        }
    }

    /// An application on the text of a file.
    pub fn load(text: &str) -> (r: App)
        ensures
            r@ == reloaded(initial(), text@),
    {
        let mut app: App = App::with_lines(Vec::new());
        assert(app@ =~= initial());
        app.reload(text);
        app
    }

    /// Takes the lines from the text of the file.
    pub fn reload(&mut self, text: &str)
        ensures
            final(self)@ == reloaded(old(self)@, text@),
    {
        self.crlf = position(text, "\r\n").is_some();
        self.lines = to_lines(text, 2);
        self.undo = Vec::new();
        assert(undo_model(self.undo@) =~= Seq::empty());
        self.clamp_cursor();
    }

    /// The text of the file that holds the lines.
    pub fn file_text(&self) -> (r: String)
        ensures
            r@ == file_of(self@.lines, self.crlf),
    {
        let eol: &str = if self.crlf {
            "\r\n"
        } else {
            "\n"
        };
        let body: String = join(&self.lines, eol);
        cat(body.as_str(), eol)
    }

    /// Cursor-navigable entries: visible tasks, plus one stop per collapsed section (whose
    /// tasks are skipped).
    pub fn entries(&self) -> (r: Vec<Entry>)
        ensures
            entry_models(r@) == entries_of(self@),
    {
        let mut out: Vec<Entry> = Vec::new();
        let mut inside: bool = false;
        let n: usize = self.lines.len();
        let ghost s = self@;
        assert(entry_models(out@) =~= entries_upto(s, 0));
        for i in 0..n
            invariant
                n == self.lines@.len(),
                s == self@,
                inside == in_collapsed(s, i as int),
                entry_models(out@) == entries_upto(s, i as int),
        {
            let ghost seen = entry_models(out@);
            let line: &str = self.lines[i].as_str();
            assert(s.lines[i as int] == line@);
            if is_heading(line) {
                let name: String = name_in(line);
                inside = is_section(line) && self.collapsed.contains(name.as_str());
                if inside && !(self.hide_done && section_kind(name.as_str()) == SectionKind::Done) {
                    out.push(Entry::Section(i));
                    assert(entry_models(out@) =~= seen.push(EntryModel::Section(i as int)));
                }
            } else if let Some((done, at)) = task_mark(line) {
                if at == 3 && !inside && !(self.hide_done && done) {
                    let end: usize = find_block_end(&self.lines, i);
                    out.push(Entry::Task(Item { start: i, len: end - i, done }));
                    assert(entry_models(out@) =~= seen.push(
                        EntryModel::Task(item_at(s.lines, i as int)),
                    ));
                }
            }
        }
        out
    }

    /// Visible tasks ignoring collapse state.
    pub fn visible_items(&self) -> (r: Vec<Item>)
        ensures
            item_models(r@) == items_of(self@.lines).filter(
                |it: ItemModel| !(self.hide_done && it.done),
            ),
    {
        let all: Vec<Item> = items(&self.lines);
        let mut out: Vec<Item> = Vec::new();
        let n: usize = all.len();
        let ghost m = item_models(all@);
        let ghost p = |it: ItemModel| !(self.hide_done && it.done);
        proof {
            reveal(Seq::filter);
            assert(item_models(out@) =~= m.take(0).filter(p));
        }
        for i in 0..n
            invariant
                n == all@.len(),
                m == item_models(all@),
                p == (|it: ItemModel| !(self.hide_done && it.done)),
                item_models(out@) == m.take(i as int).filter(p),
        {
            let ghost seen = item_models(out@);
            proof {
                reveal(Seq::filter);
                assert(m.take(i + 1).drop_last() =~= m.take(i as int));
                assert(m.take(i + 1).last() == all@[i as int]@);
            }
            if !(self.hide_done && all[i].done) {
                out.push(all[i]);
                assert(item_models(out@) =~= seen.push(all@[i as int]@));
            }
        }
        assert(m.take(n as int) =~= m);
        out
    }

    /// The entry under the cursor.
    pub fn current_entry(&self) -> (r: Option<Entry>)
        ensures
            match r {
                Some(e) => entry_under(self@) == Some(e@),
                None => entry_under(self@) is None,
            },
    {
        let entries: Vec<Entry> = self.entries();
        assert(entries@.len() == entries_of(self@).len());
        if self.cursor < entries.len() {
            assert(entry_models(entries@)[self.cursor as int] == entries@[self.cursor as int]@);
            Some(entries[self.cursor])
        } else {
            None
        }
    }

    /// The item under the cursor, unless a collapsed section is selected.
    pub fn current_item(&self) -> (r: Option<Item>)
        ensures
            match r {
                Some(it) => item_under(self@) == Some(it@),
                None => item_under(self@) is None,
            },
    {
        match self.current_entry() {
            Some(Entry::Task(it)) => Some(it),
            _ => None,
        }
    }

    /// Line indices of the subtask lines inside an item's child block.
    pub fn sub_line_indices(&self, it: Item) -> (r: Vec<usize>)
        requires
            0 < it.len,
            it.start + it.len <= self.lines@.len(),
        ensures
            positions(r@) == subs_of(self@.lines, it@),
    {
        let mut out: Vec<usize> = Vec::new();
        let n: usize = self.lines.len();
        let ghost t = self@.lines;
        assert(it.start + it.len <= n);
        assert(positions(out@) =~= tasks_in(t, it.start + 1, it.start + 1));
        for i in it.start + 1..it.start + it.len
            invariant
                it.start < i,
                it.start + it.len <= n,
                n == self.lines@.len(),
                t == self@.lines,
                positions(out@) == tasks_in(t, it.start + 1, i as int),
        {
            let ghost seen = positions(out@);
            assert(t[i as int] == self.lines@[i as int]@);
            if task_mark(self.lines[i].as_str()).is_some() {
                out.push(i);
                assert(positions(out@) =~= seen.push(i as int));
            }
        }
        out
    }

    /// The number of subtasks of the item under the cursor.
    fn count_subs(&self) -> (r: usize)
        ensures
            r == sub_count(self@),
    {
        proof {
            lemma_item_under(self@);
        }
        match self.current_item() {
            Some(it) => {
                let subs: Vec<usize> = self.sub_line_indices(it);
                assert(positions(subs@).len() == subs@.len());
                subs.len()
            },
            None => 0,
        }
    }

    /// Line index of the selected task or subtask, if any.
    pub fn current_task_line(&self) -> (r: Option<usize>)
        ensures
            as_position(r) == line_under(self@),
    {
        proof {
            lemma_item_under(self@);
        }
        match self.current_item() {
            Some(it) => match self.sub {
                Some(k) => {
                    let subs: Vec<usize> = self.sub_line_indices(it);
                    assert(positions(subs@).len() == subs@.len());
                    if k < subs.len() {
                        assert(positions(subs@)[k as int] == subs@[k as int]);
                        Some(subs[k])
                    } else {
                        None
                    }
                },
                None => Some(it.start),
            },
            None => None,
        }
    }

    /// Brings the cursor, and the selected subtask, within what there is.
    pub fn clamp_cursor(&mut self)
        ensures
            final(self)@ == clamped(old(self)@),
    {
        let entries: Vec<Entry> = self.entries();
        let n: usize = entries.len();
        assert(n == entries_of(self@).len());
        if n == 0 {
            self.cursor = 0;
        } else if self.cursor >= n {
            self.cursor = n - 1;
        }
        if let Some(k) = self.sub {
            let count: usize = self.count_subs();
            self.sub = if count == 0 {
                None
            } else if k < count {
                Some(k)
            } else {
                Some(count - 1)
            };
        }
    }

    /// Moves the selection one step down.
    pub fn nav_down(&mut self)
        ensures
            final(self)@ == downward(old(self)@),
    {
        let entries: Vec<Entry> = self.entries();
        let n: usize = entries.len();
        assert(n == entries_of(self@).len());
        let count: usize = self.count_subs();
        match self.sub {
            None if count > 0 => {
                self.sub = Some(0);
            },
            Some(k) if k < count && count - k > 1 => {
                self.sub = Some(k + 1);
            },
            _ => {
                if self.cursor < n && n - self.cursor > 1 {
                    self.cursor = self.cursor + 1;
                    self.sub = None;
                }
            },
        }
    }

    /// Moves the selection one step up.
    pub fn nav_up(&mut self)
        ensures
            final(self)@ == upward(old(self)@),
    {
        match self.sub {
            Some(k) => {
                self.sub = if k == 0 {
                    None
                } else {
                    Some(k - 1)
                };
            },
            None => {
                if self.cursor > 0 {
                    self.cursor = self.cursor - 1;
                    if self.expand_all {
                        let count: usize = self.count_subs();
                        if count > 0 {
                            self.sub = Some(count - 1);
                        }
                    }
                }
            },
        }
    }

    /// Remembers the lines for undo.
    pub fn checkpoint(&mut self)
        ensures
            final(self)@ == remembered(old(self)@),
    {
        let n: usize = self.undo.len();
        let ghost u = undo_model(self.undo@);
        if n > 0 {
            assert(u.last() == texts(self.undo@[n - 1]@));
            if same_lines(&self.undo[n - 1], &self.lines) {
                return;
            }
        }
        let copy: Vec<String> = copy_lines(&self.lines);
        self.undo.push(copy);
        let ghost pushed = undo_model(self.undo@);
        assert(pushed =~= u.push(self@.lines));
        if self.undo.len() > UNDO_DEPTH {
            self.undo.remove(0);
            assert(undo_model(self.undo@) =~= pushed.skip(1));
        }
    }

    /// Goes back to the last remembered lines. Says whether the file is to be written.
    pub fn undo_last(&mut self) -> (r: bool)
        ensures
            final(self)@ == undone(old(self)@),
            r == (old(self)@.undo.len() > 0),
    {
        let ghost u = undo_model(self.undo@);
        match self.undo.pop() {
            None => {
                self.status = "nothing to undo".to_string();
                false
            },
            Some(prev) => {
                proof {
                    assert(u.last() == texts(prev@));
                    assert(undo_model(self.undo@) =~= u.drop_last());
                }
                self.lines = prev;
                self.sub = None;
                self.clamp_cursor();
                self.status = "undo".to_string();
                true
            },
        }
    }

    /// The kind of section that a line stands in.
    pub fn section_at(&self, line_idx: usize) -> (r: SectionKind)
        ensures
            r == kind_at(self@.lines, line_idx as int),
    {
        find_kind(&self.lines, line_idx)
    }

    /// The first heading with this name, in whatever case.
    pub fn heading_line(&self, name: &str) -> (r: Option<usize>)
        ensures
            match r {
                Some(h) => h < self.lines@.len() && h == heading_index(self@.lines, name@),
                None => !has_heading(self@.lines, name@),
            },
    {
        find_heading(&self.lines, name)
    }

    /// First line index past a heading's blank-line padding.
    pub fn after_heading(&self, h: usize) -> (r: usize)
        requires
            h < self.lines@.len(),
        ensures
            r == past_blanks(self@.lines, h as int),
    {
        skip_blanks(&self.lines, h)
    }

    /// End of the top "inbox" area: just before the first `##` section heading of any
    /// kind, or a Later or Done heading of any level, backed up over blank separator lines.
    pub fn todo_end(&self) -> (r: usize)
        ensures
            r == top_end(self@.lines),
            r <= self.lines@.len(),
    {
        let end: usize = find_stop(&self.lines, 0);
        self.back_over_blanks(end)
    }

    /// End of the section headed at `h`: just before the next `##` heading, the next Later
    /// or Done heading of any level, or the end, backed up over blank lines.
    pub fn section_end(&self, h: usize) -> (r: usize)
        requires
            h < self.lines@.len(),
        ensures
            r == end_of_section(self@.lines, h as int),
            r <= self.lines@.len(),
    {
        let n: usize = self.lines.len();
        assert(h < n);
        let end: usize = find_stop(&self.lines, h + 1);
        self.back_over_blanks(end)
    }

    /// End of the Later section.
    pub fn later_end(&self) -> (r: usize)
        requires
            has_heading(self@.lines, "later"@),
        ensures
            r == end_of_section(self@.lines, heading_index(self@.lines, "later"@)),
            r <= self.lines@.len(),
    {
        match self.heading_line("later") {
            Some(h) => self.section_end(h),
            None => 0,
        }
    }

    /// Position `i`, moved back over the blank lines before it.
    pub fn back_over_blanks(&self, i: usize) -> (r: usize)
        requires
            i <= self.lines@.len(),
        ensures
            r == before_blanks(self@.lines, i as int),
            r <= i,
    {
        back_blanks(&self.lines, i)
    }

    /// Normalizes blank lines: no runs of blanks, one blank around headings, no leading or
    /// trailing blanks.
    pub fn tidy(&mut self)
        ensures
            final(self)@ == (State { lines: tidied(old(self)@.lines), ..old(self)@ }),
    {
        self.lines = tidy_lines(&self.lines);
    }
}

} // verus!
