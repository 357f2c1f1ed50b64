//! What each key does, in whatever mode the application is, and what follows a reload, a
//! sync or a look at the history.
use crate::app::{
    clamped, downward, entries_of, entry_under, item_under, line_under, reloaded, undone, upward,
    App, DestModel, Entry, EntryModel, HistoryModel, HistoryView, InputKind, MenuModel, MoveMenu,
    State,
};
use crate::clock::{stamp_now, stamp_text};
use crate::laws::keys::law_stays_in_order;
use crate::lines::{split_lines, texts, to_lines};
use crate::moves::{
    later_cycled, menu_choice, menu_opened, movable, move_committed, reorder_pair, reordered,
};
use crate::notes::{notes_closed, notes_in_range, notes_openable, notes_opened};
use crate::prompt::{deleted, input_committed, input_opened, input_saves, lemma_entries_same};
use crate::rotate::collapse_toggled;
use crate::text::cat;
use crate::toggle::{sub_selected, sub_toggled, toggled};
use vstd::prelude::*;

verus! {

/// A key of the keyboard.
#[derive(Clone, Copy, PartialEq, Eq, Debug, Structural)]
pub enum KeyCode {
    Char(char),
    Enter,
    Esc,
    Tab,
    BackTab,
    Up,
    Down,
    Left,
    Right,
    Other,
}

/// A key that was pressed, and whether shift and control were held with it.
#[derive(Clone, Copy, PartialEq, Eq, Debug, Structural)]
pub struct Key {
    pub code: KeyCode,
    pub shift: bool,
    pub control: bool,
}

/// What is left to do after a key: nothing, write the todo file, leave the application,
/// hand the key to the open editor, read the todo file, sync, show the history, or archive
/// the selected section.
#[derive(Clone, Copy, PartialEq, Eq, Debug, Structural)]
pub enum Action {
    Nothing,
    Save,
    Quit,
    Edit,
    Reload,
    Sync,
    History,
    Archive,
}

/// What a key asks for in the main list.
#[derive(Clone, Copy, PartialEq, Eq, Debug, Structural)]
pub enum Command {
    Nothing,
    Undo,
    Quit,
    Down,
    Up,
    MoveDown,
    MoveUp,
    NewTask,
    NewSub,
    Edit,
    Delete,
    Collapse,
    Archive,
    Move,
    Expand,
    Help,
    Sync,
    History,
    Notes,
    Toggle,
    Later,
    HideDone,
    Top,
    Bottom,
    Reload,
}

/// What a key asks for in the main list.
pub open spec fn command_of(key: Key) -> Command {
    match key.code {
        KeyCode::Char(c) => if c == 'z' && key.control {
            Command::Undo
        } else if c == 'q' {
            Command::Quit
        } else if c == 'j' && !key.shift {
            Command::Down
        } else if c == 'k' && !key.shift {
            Command::Up
        } else if c == 'J' {
            Command::MoveDown
        } else if c == 'K' {
            Command::MoveUp
        } else if c == 'n' || c == 'N' {
            Command::NewTask
        } else if c == 's' {
            Command::NewSub
        } else if c == 'e' {
            Command::Edit
        } else if c == 'X' {
            Command::Delete
        } else if c == 'c' {
            Command::Collapse
        } else if c == 'A' {
            Command::Archive
        } else if c == 'm' || c == 'M' {
            Command::Move
        } else if c == 'O' {
            Command::Expand
        } else if c == '~' {
            Command::Help
        } else if c == 'S' {
            Command::Sync
        } else if c == 'D' {
            Command::History
        } else if c == ' ' {
            Command::Toggle
        } else if c == 'l' {
            Command::Later
        } else if c == 'h' {
            Command::HideDone
        } else if c == 'g' {
            Command::Top
        } else if c == 'G' {
            Command::Bottom
        } else if c == 'r' {
            Command::Reload
        } else {
            Command::Nothing
        },
        KeyCode::Esc => Command::Quit,
        KeyCode::Down => if key.shift {
            Command::MoveDown
        } else {
            Command::Down
        },
        KeyCode::Up => if key.shift {
            Command::MoveUp
        } else {
            Command::Up
        },
        KeyCode::Tab => Command::Notes,
        KeyCode::Enter => Command::Toggle,
        _ => Command::Nothing,
    }
}

/// What a key asks for in the main list.
pub fn command(key: Key) -> (r: Command)
    ensures
        r == command_of(key),
{
    match key.code {
        KeyCode::Char(c) => match c {
            'z' => if key.control {
                Command::Undo
            } else {
                Command::Nothing
            },
            'q' => Command::Quit,
            'j' => if key.shift {
                Command::Nothing
            } else {
                Command::Down
            },
            'k' => if key.shift {
                Command::Nothing
            } else {
                Command::Up
            },
            'J' => Command::MoveDown,
            'K' => Command::MoveUp,
            'n' | 'N' => Command::NewTask,
            's' => Command::NewSub,
            'e' => Command::Edit,
            'X' => Command::Delete,
            'c' => Command::Collapse,
            'A' => Command::Archive,
            'm' | 'M' => Command::Move,
            'O' => Command::Expand,
            '~' => Command::Help,
            'S' => Command::Sync,
            'D' => Command::History,
            ' ' => Command::Toggle,
            'l' => Command::Later,
            'h' => Command::HideDone,
            'g' => Command::Top,
            'G' => Command::Bottom,
            'r' => Command::Reload,
            _ => Command::Nothing,
        },
        KeyCode::Esc => Command::Quit,
        KeyCode::Down => if key.shift {
            Command::MoveDown
        } else {
            Command::Down
        },
        KeyCode::Up => if key.shift {
            Command::MoveUp
        } else {
            Command::Up
        },
        KeyCode::Tab => Command::Notes,
        KeyCode::Enter => Command::Toggle,
        _ => Command::Nothing,
    }
}

// ---------------------------------------------------------------------------------
// The modes

/// Whether the file is to be written.
pub open spec fn saving(saves: bool) -> Action {
    if saves {
        Action::Save
    } else {
        Action::Nothing
    }
}

/// A key while notes are edited: back-tab or escape closes them, any other key is typed.
pub open spec fn notes_pressed(s: State, key: Key, typed: Seq<Seq<char>>) -> (State, Action) {
    if key.code == KeyCode::BackTab || key.code == KeyCode::Esc {
        (State { status: "notes saved"@, ..notes_closed(s, typed) }, Action::Save)
    } else {
        (s, Action::Edit)
    }
}

/// A key at a prompt: enter takes what was typed, escape gives it up, any other key is
/// typed.
pub open spec fn prompt_pressed(s: State, key: Key, typed: Seq<Seq<char>>) -> (State, Action) {
    if key.code == KeyCode::Enter {
        (input_committed(s, typed), saving(input_saves(s, typed)))
    } else if key.code == KeyCode::Esc {
        (State { input: None, status: "cancelled"@, ..s }, Action::Nothing)
    } else {
        (s, Action::Edit)
    }
}

/// The width in which the history is wrapped on a screen of so many columns, or on one
/// whose size is not known.
pub open spec fn wrap_width(columns: Option<u16>) -> int {
    match columns {
        Some(w) => if w > 5 {
            w - 4
        } else {
            1
        },
        None => 76,
    }
}

/// An estimate of the rows that the first `n` lines take up when they are wrapped: one
/// more for each line than it fills.
pub open spec fn wrapped_rows(lines: Seq<Seq<char>>, width: int, n: int) -> int
    decreases n,
{
    if n <= 0 {
        0
    } else {
        wrapped_rows(lines, width, n - 1) + lines[n - 1].len() as int / width + 1
    }
}

/// The furthest that the history scrolls.
pub open spec fn last_scroll(lines: Seq<Seq<char>>, columns: Option<u16>) -> int {
    let rows = wrapped_rows(lines, wrap_width(columns), lines.len() as int);
    if rows == 0 {
        0
    } else {
        (rows - 1) % 65536
    }
}

/// A key in the history: it scrolls, or closes the history.
pub open spec fn history_pressed(s: State, key: Key, columns: Option<u16>) -> State {
    let hv = s.history->0;
    let furthest = last_scroll(hv.lines, columns);
    let to = |scroll: int| State { history: Some(HistoryModel { scroll, ..hv }), ..s };
    match key.code {
        KeyCode::Char('q') | KeyCode::Char('D') | KeyCode::Esc => State { history: None, ..s },
        KeyCode::Char('j') | KeyCode::Down => to(
            if hv.scroll + 1 <= furthest {
                hv.scroll + 1
            } else {
                furthest
            },
        ),
        KeyCode::Char('k') | KeyCode::Up => to(
            if hv.scroll > 0 {
                hv.scroll - 1
            } else {
                0
            },
        ),
        KeyCode::Char('g') => to(0),
        KeyCode::Char('G') => to(furthest),
        _ => s,
    }
}

/// Whether taking the selected destination changes the file.
pub open spec fn menu_saves(s: State) -> bool {
    menu_choice(s) matches Some(dest) && dest != DestModel::NewSection && movable(
        State { move_menu: None, ..s },
    )
}

/// A key in the menu of destinations: it chooses, takes the choice, or closes the menu.
pub open spec fn menu_pressed(s: State, key: Key) -> (State, Action) {
    let menu = s.move_menu->0;
    let to = |sel: int|
        (State { move_menu: Some(MenuModel { sel, ..menu }), ..s }, Action::Nothing);
    match key.code {
        KeyCode::Esc => (State { move_menu: None, status: "cancelled"@, ..s }, Action::Nothing),
        KeyCode::Enter => (move_committed(s), saving(menu_saves(s))),
        KeyCode::Char('j') | KeyCode::Down => to(
            if menu.sel + 1 < menu.options.len() {
                menu.sel + 1
            } else {
                menu.options.len() - 1
            },
        ),
        KeyCode::Char('k') | KeyCode::Up => to(
            if menu.sel > 0 {
                menu.sel - 1
            } else {
                0
            },
        ),
        _ => (s, Action::Nothing),
    }
}

/// A key while it is asked whether to quit.
pub open spec fn quit_pressed(s: State, key: Key) -> (State, Action) {
    let yes = s.quit_confirm->0;
    let stay = (State { quit_confirm: None, ..s }, Action::Nothing);
    match key.code {
        KeyCode::Char('q') | KeyCode::Char('y') | KeyCode::Esc => (s, Action::Quit),
        KeyCode::Enter | KeyCode::Char(' ') => if yes {
            (s, Action::Quit)
        } else {
            stay
        },
        KeyCode::Char('n') => stay,
        KeyCode::Char('h') | KeyCode::Char('l') | KeyCode::Left | KeyCode::Right
        | KeyCode::Tab => (State { quit_confirm: Some(!yes), ..s }, Action::Nothing),
        _ => (s, Action::Nothing),
    }
}

/// The selected entry is done or opened: a collapsed section is expanded, a subtask or a
/// task is toggled.
pub open spec fn selection_toggled(s: State, stamp: Seq<char>) -> (State, Action) {
    if entry_under(s) matches Some(EntryModel::Section(_)) {
        (collapse_toggled(s), Action::Nothing)
    } else if s.sub is Some {
        (sub_toggled(s), saving(sub_selected(s)))
    } else {
        (toggled(s, stamp), saving(item_under(s) is Some))
    }
}

/// The state with the subtasks of all tasks shown, or no longer.
pub open spec fn expand_switched(s: State) -> State {
    if s.expand_all {
        State { expand_all: false, sub: None, status: "collapsed"@, ..s }
    } else {
        State { expand_all: true, status: "expanded all"@, ..s }
    }
}

/// The state with the cursor on the last entry.
pub open spec fn at_bottom(s: State) -> State {
    let n = entries_of(s).len();
    State {
        cursor: if n == 0 {
            0
        } else {
            n - 1
        },
        sub: None,
        ..s
    }
}

/// A command in the main list.
pub open spec fn commanded(s: State, what: Command, stamp: Seq<char>) -> (State, Action) {
    match what {
        Command::Nothing => (s, Action::Nothing),
        Command::Undo => (undone(s), saving(s.undo.len() > 0)),
        Command::Quit => (State { quit_confirm: Some(true), ..s }, Action::Nothing),
        Command::Down => (downward(s), Action::Nothing),
        Command::Up => (upward(s), Action::Nothing),
        Command::MoveDown => (reordered(s, 1), saving(reorder_pair(s, 1) is Some)),
        Command::MoveUp => (reordered(s, -1), saving(reorder_pair(s, -1) is Some)),
        Command::NewTask => (input_opened(s, InputKind::NewTask), Action::Nothing),
        Command::NewSub => (input_opened(s, InputKind::NewSub), Action::Nothing),
        Command::Edit => (input_opened(s, InputKind::Edit), Action::Nothing),
        Command::Delete => (deleted(s), saving(line_under(s) is Some)),
        Command::Collapse => (collapse_toggled(s), Action::Nothing),
        Command::Archive => (s, Action::Archive),
        Command::Move => (menu_opened(s), Action::Nothing),
        Command::Expand => (expand_switched(s), Action::Nothing),
        Command::Help => (State { show_help: true, ..s }, Action::Nothing),
        Command::Sync => (s, Action::Sync),
        Command::History => (s, Action::History),
        Command::Notes => (notes_opened(s), Action::Nothing),
        Command::Toggle => selection_toggled(s, stamp),
        Command::Later => (later_cycled(s), saving(movable(s))),
        Command::HideDone => (
            clamped(State { hide_done: !s.hide_done, sub: None, ..s }),
            Action::Nothing,
        ),
        Command::Top => (State { cursor: 0, sub: None, ..s }, Action::Nothing),
        Command::Bottom => (at_bottom(s), Action::Nothing),
        Command::Reload => (s, Action::Reload),
    }
}

/// Whether the keys go to the main list.
pub open spec fn in_list(s: State) -> bool {
    s.notes is None && s.input is None && s.history is None && s.move_menu is None && !s.show_help
        && s.quit_confirm is None
}

/// What a key does. `typed` is what the open editor holds, `columns` the width of the
/// screen, and `stamp` the present time.
pub open spec fn pressed(
    s: State,
    key: Key,
    typed: Seq<Seq<char>>,
    columns: Option<u16>,
    stamp: Seq<char>,
) -> (State, Action) {
    if s.notes is Some {
        notes_pressed(s, key, typed)
    } else if s.input is Some {
        prompt_pressed(s, key, typed)
    } else if s.history is Some {
        (history_pressed(s, key, columns), Action::Nothing)
    } else if s.move_menu is Some {
        menu_pressed(s, key)
    } else if s.show_help {
        (State { show_help: false, ..s }, Action::Nothing)
    } else if s.quit_confirm is Some {
        quit_pressed(s, key)
    } else {
        commanded(State { status: Seq::empty(), ..s }, command_of(key), stamp)
    }
}

/// What holds of the application between two keys: open notes are those of lines that are
/// there, and an open menu has a destination selected.
pub open spec fn in_order(s: State) -> bool {
    &&& notes_in_range(s)
    &&& s.move_menu matches Some(menu) ==> 0 <= menu.sel < menu.options.len()
}

/// Whether a key opens notes whose indentation cannot be taken away.
pub open spec fn cuts_character(s: State, key: Key) -> bool {
    in_list(s) && command_of(key) == Command::Notes && !notes_openable(s)
}

fn save_if(saves: bool) -> (r: Action)
    ensures
        r == saving(saves),
{
    if saves {
        Action::Save
    } else {
        Action::Nothing
    }
}

/// The furthest that a history with these lines scrolls.
fn find_last_scroll(lines: &Vec<String>, columns: Option<u16>) -> (r: u16)
    ensures
        r == last_scroll(texts(lines@), columns),
{
    let width: usize = match columns {
        Some(w) => if w > 5 {
            (w - 4) as usize
        } else {
            1
        },
        None => 76,
    };
    let n: usize = lines.len();
    let ghost t = texts(lines@);
    let mut rows: u64 = 0;
    for i in 0..n
        invariant
            n == lines@.len(),
            t == texts(lines@),
            width == wrap_width(columns),
            width > 0,
            rows == wrapped_rows(t, width as int, i as int) % 65536,
    {
        assert(t[i as int] == lines@[i as int]@);
        let len: usize = lines[i].as_str().unicode_len();
        let more: u64 = ((len / width) % 65536) as u64;
        let ghost before = wrapped_rows(t, width as int, i as int);
        rows = (rows + more + 1) % 65536;
        assert(rows == (before + t[i as int].len() as int / width as int + 1) % 65536);
    }
    proof {
        lemma_rows(t, width as int, n as int);
    }
    if n == 0 {
        0
    } else if rows == 0 {
        65535
    } else {
        (rows - 1) as u16
    }
}

/// There is at least a row for each line.
proof fn lemma_rows(lines: Seq<Seq<char>>, width: int, n: int)
    requires
        width > 0,
        0 <= n,
    ensures
        wrapped_rows(lines, width, n) >= n,
    decreases n,
{
    if n > 0 {
        lemma_rows(lines, width, n - 1);
        vstd::arithmetic::div_mod::lemma_div_pos_is_pos(lines[n - 1].len() as int, width);
    }
}

impl App {
    fn press_notes(&mut self, key: Key, typed: &Vec<String>) -> (r: Action)
        requires
            old(self)@.notes is Some,
            in_order(old(self)@),
        ensures
            (final(self)@, r) == notes_pressed(old(self)@, key, texts(typed@)),
    {
        match key.code {
            KeyCode::BackTab | KeyCode::Esc => {
                self.close_notes(typed);
                self.status = "notes saved".to_string();
                Action::Save
            },
            _ => Action::Edit,
        }
    }

    fn press_prompt(&mut self, key: Key, typed: &Vec<String>) -> (r: Action)
        requires
            old(self)@.input is Some,
        ensures
            (final(self)@, r) == prompt_pressed(old(self)@, key, texts(typed@)),
    {
        match key.code {
            KeyCode::Enter => {
                let saves: bool = self.commit_input(typed);
                save_if(saves)
            },
            KeyCode::Esc => {
                self.input = None;
                self.status = "cancelled".to_string();
                Action::Nothing
            },
            _ => Action::Edit,
        }
    }

    fn scroll_to(&mut self, lines: Vec<String>, scroll: u16)
        ensures
            final(self)@ == (State {
                history: Some(HistoryModel { lines: texts(lines@), scroll: scroll as int }),
                ..old(self)@
            }),
    {
        self.history = Some(HistoryView { lines, scroll });
    }

    fn press_history(&mut self, key: Key, columns: Option<u16>)
        requires
            old(self)@.history is Some,
        ensures
            final(self)@ == history_pressed(old(self)@, key, columns),
    {
        let ghost s = self@;
        if let Some(hv) = self.history.take() {
            let furthest: u16 = find_last_scroll(&hv.lines, columns);
            match key.code {
                KeyCode::Char('q') | KeyCode::Char('D') | KeyCode::Esc => {},
                KeyCode::Char('j') | KeyCode::Down => {
                    let scroll: u16 = if hv.scroll < furthest {
                        hv.scroll + 1
                    } else {
                        furthest
                    };
                    self.scroll_to(hv.lines, scroll);
                },
                KeyCode::Char('k') | KeyCode::Up => {
                    let scroll: u16 = if hv.scroll > 0 {
                        hv.scroll - 1
                    } else {
                        0
                    };
                    self.scroll_to(hv.lines, scroll);
                },
                KeyCode::Char('g') => {
                    self.scroll_to(hv.lines, 0);
                },
                KeyCode::Char('G') => {
                    self.scroll_to(hv.lines, furthest);
                },
                _ => {
                    self.history = Some(hv);
                },
            }
        }
    }

    fn press_menu(&mut self, key: Key) -> (r: Action)
        requires
            old(self)@.move_menu is Some,
            in_order(old(self)@),
        ensures
            (final(self)@, r) == menu_pressed(old(self)@, key),
    {
        match key.code {
            KeyCode::Esc => {
                self.move_menu = None;
                self.status = "cancelled".to_string();
                Action::Nothing
            },
            KeyCode::Enter => {
                let saves: bool = self.commit_move();
                save_if(saves)
            },
            KeyCode::Char('j') | KeyCode::Down => {
                if let Some(menu) = self.move_menu.take() {
                    let n: usize = menu.options.len();
                    assert(menu@.options.len() == n);
                    let sel: usize = if menu.sel < n - 1 {
                        menu.sel + 1
                    } else {
                        n - 1
                    };
                    self.move_menu = Some(MoveMenu { options: menu.options, sel });
                }
                Action::Nothing
            },
            KeyCode::Char('k') | KeyCode::Up => {
                if let Some(menu) = self.move_menu.take() {
                    let sel: usize = if menu.sel > 0 {
                        menu.sel - 1
                    } else {
                        0
                    };
                    self.move_menu = Some(MoveMenu { options: menu.options, sel });
                }
                Action::Nothing
            },
            _ => Action::Nothing,
        }
    }

    fn press_quit(&mut self, key: Key, yes: bool) -> (r: Action)
        requires
            old(self)@.quit_confirm == Some(yes),
        ensures
            (final(self)@, r) == quit_pressed(old(self)@, key),
    {
        match key.code {
            KeyCode::Char('q') | KeyCode::Char('y') | KeyCode::Esc => Action::Quit,
            KeyCode::Enter | KeyCode::Char(' ') => {
                if yes {
                    Action::Quit
                } else {
                    self.quit_confirm = None;
                    Action::Nothing
                }
            },
            KeyCode::Char('n') => {
                self.quit_confirm = None;
                Action::Nothing
            },
            KeyCode::Char('h') | KeyCode::Char('l') | KeyCode::Left | KeyCode::Right
            | KeyCode::Tab => {
                self.quit_confirm = Some(!yes);
                Action::Nothing
            },
            _ => Action::Nothing,
        }
    }

    fn toggle_selection(&mut self, stamp: &str) -> (r: Action)
        ensures
            (final(self)@, r) == selection_toggled(old(self)@, stamp@),
    {
        if let Some(Entry::Section(_)) = self.current_entry() {
            self.toggle_collapse();
            Action::Nothing
        } else if self.sub.is_some() {
            let saves: bool = self.toggle_sub();
            save_if(saves)
        } else {
            let saves: bool = self.toggle_at(stamp);
            save_if(saves)
        }
    }

    fn switch_expand(&mut self)
        ensures
            final(self)@ == expand_switched(old(self)@),
    {
        self.expand_all = !self.expand_all;
        if self.expand_all {
            self.status = "expanded all".to_string();
        } else {
            self.sub = None;
            self.status = "collapsed".to_string();
        }
    }

    fn go_bottom(&mut self)
        ensures
            final(self)@ == at_bottom(old(self)@),
    {
        let entries: Vec<Entry> = self.entries();
        let n: usize = entries.len();
        assert(n == entries_of(self@).len());
        self.cursor = if n == 0 {
            0
        } else {
            n - 1
        };
        self.sub = None;
    }

    /// Carries out a command in the main list, at the time `stamp`.
    pub fn run_command(&mut self, what: Command, stamp: &str) -> (r: Action)
        requires
            what == Command::Notes ==> notes_openable(old(self)@),
        ensures
            (final(self)@, r) == commanded(old(self)@, what, stamp@),
    {
        match what {
            Command::Nothing => Action::Nothing,
            Command::Undo => {
                let saves: bool = self.undo_last();
                save_if(saves)
            },
            Command::Quit => {
                self.quit_confirm = Some(true);
                Action::Nothing
            },
            Command::Down => {
                self.nav_down();
                Action::Nothing
            },
            Command::Up => {
                self.nav_up();
                Action::Nothing
            },
            Command::MoveDown => {
                let saves: bool = self.move_item(1);
                save_if(saves)
            },
            Command::MoveUp => {
                let saves: bool = self.move_item(-1);
                save_if(saves)
            },
            Command::NewTask => {
                self.open_input(InputKind::NewTask);
                Action::Nothing
            },
            Command::NewSub => {
                self.open_input(InputKind::NewSub);
                Action::Nothing
            },
            Command::Edit => {
                self.open_input(InputKind::Edit);
                Action::Nothing
            },
            Command::Delete => {
                let saves: bool = self.delete_current();
                save_if(saves)
            },
            Command::Collapse => {
                self.toggle_collapse();
                Action::Nothing
            },
            Command::Archive => Action::Archive,
            Command::Move => {
                self.open_move_menu();
                Action::Nothing
            },
            Command::Expand => {
                self.switch_expand();
                Action::Nothing
            },
            Command::Help => {
                self.show_help = true;
                Action::Nothing
            },
            Command::Sync => Action::Sync,
            Command::History => Action::History,
            Command::Notes => {
                self.open_notes();
                Action::Nothing
            },
            Command::Toggle => self.toggle_selection(stamp),
            Command::Later => {
                let saves: bool = self.cycle_later();
                save_if(saves)
            },
            Command::HideDone => {
                self.hide_done = !self.hide_done;
                self.sub = None;
                self.clamp_cursor();
                Action::Nothing
            },
            Command::Top => {
                self.cursor = 0;
                self.sub = None;
                Action::Nothing
            },
            Command::Bottom => {
                self.go_bottom();
                Action::Nothing
            },
            Command::Reload => Action::Reload,
        }
    }

    /// Does what a key asks for, at the time `stamp`. `typed` is what the open editor
    /// holds and `columns` the width of the screen, where it is known.
    pub fn press_at(
        &mut self,
        key: Key,
        typed: &Vec<String>,
        columns: Option<u16>,
        stamp: &str,
    ) -> (r: Action)
        requires
            in_order(old(self)@),
            !cuts_character(old(self)@, key),
        ensures
            (final(self)@, r) == pressed(old(self)@, key, texts(typed@), columns, stamp@),
            in_order(final(self)@),
    {
        proof {
            law_stays_in_order(self@, key, texts(typed@), columns, stamp@);
        }
        if self.notes.is_some() {
            self.press_notes(key, typed)
        } else if self.input.is_some() {
            self.press_prompt(key, typed)
        } else if self.history.is_some() {
            self.press_history(key, columns);
            Action::Nothing
        } else if self.move_menu.is_some() {
            self.press_menu(key)
        } else if self.show_help {
            self.show_help = false;
            Action::Nothing
        } else if let Some(yes) = self.quit_confirm {
            self.press_quit(key, yes)
        } else {
            let what: Command = command(key);
            let ghost s = self@;
            self.status = String::new();
            proof {
                lemma_status_aside(s, Seq::empty());
                assert(self@ =~= (State { status: Seq::empty(), ..s }));
            }
            self.run_command(what, stamp)
        }
    }

    /// Does what a key asks for, at the present time.
    pub fn press(&mut self, key: Key, typed: &Vec<String>, columns: Option<u16>) -> (r: Action)
        requires
            in_order(old(self)@),
            !cuts_character(old(self)@, key),
        ensures
            exists|stamp: Seq<char>|
                stamp_text(stamp) && (final(self)@, r) == #[trigger] pressed(
                    old(self)@,
                    key,
                    texts(typed@),
                    columns,
                    stamp,
                ),
            in_order(final(self)@),
    {
        let stamp: String = stamp_now();
        let r: Action = self.press_at(key, typed, columns, stamp.as_str());
        assert((self@, r) == pressed(old(self)@, key, texts(typed@), columns, stamp@));
        r
    }
}

/// What is selected does not depend on the status line.
proof fn lemma_status_aside(s: State, status: Seq<char>)
    ensures
        notes_openable(State { status, ..s }) == notes_openable(s),
{
    let t = State { status, ..s };
    lemma_entries_same(s, t, s.lines.len() as int);
}

// ---------------------------------------------------------------------------------
// What follows a key

/// Whether a file is to be read again: its present time of change is known, and it is not
/// the one seen before.
pub fn changed_on_disk(seen: Option<i128>, present: Option<i128>) -> (r: bool)
    ensures
        r == (present is Some && present != seen),
{
    match (present, seen) {
        (Some(a), Some(b)) => a != b,
        (Some(_), None) => true,
        (None, _) => false,
    }
}

/// Whether the todo file may be read again: nothing is open that edits or shows a file.
pub open spec fn reloadable(s: State) -> bool {
    s.notes is None && s.input is None && s.move_menu is None && s.history is None
}

/// The state after the todo file was found changed and is read.
pub open spec fn changed_reloaded(s: State, text: Seq<char>) -> State {
    State { status: "reloaded (changed on disk)"@, ..reloaded(s, text) }
}

/// The state after the todo file is read because a key asked for it.
pub open spec fn asked_reloaded(s: State, text: Seq<char>) -> State {
    State { sub: None, status: "reloaded"@, ..reloaded(s, text) }
}

/// The state after a sync: one that went well is followed by a reload of the todo file.
pub open spec fn synced(s: State, message: Seq<char>, text: Option<Seq<char>>) -> State {
    State {
        status: "sync: "@ + message,
        ..match text {
            Some(text) => reloaded(s, text),
            None => s,
        }
    }
}

/// The state with the history shown, from its text.
pub open spec fn history_shown(s: State, text: Seq<char>) -> State {
    State { history: Some(HistoryModel { lines: split_lines(text, 1), scroll: 0 }), ..s }
}

impl App {
    /// Whether the application is in order, and the key opens no notes whose indentation
    /// cannot be taken away.
    pub fn ready_for(&self, key: Key) -> (r: bool)
        ensures
            r == (in_order(self@) && !cuts_character(self@, key)),
    {
        let n: usize = self.lines.len();
        if let Some(notes) = &self.notes {
            if notes.start >= n || notes.child_len > n - notes.start - 1 {
                return false;
            }
        }
        if let Some(menu) = &self.move_menu {
            assert(menu@.options.len() == menu.options@.len());
            if menu.sel >= menu.options.len() {
                return false;
            }
        }
        let list: bool = self.notes.is_none() && self.input.is_none() && self.history.is_none()
            && self.move_menu.is_none() && !self.show_help && self.quit_confirm.is_none();
        !list || command(key) != Command::Notes || self.can_open_notes()
    }

    /// Whether the todo file may be read again.
    pub fn may_reload(&self) -> (r: bool)
        ensures
            r == reloadable(self@),
    {
        self.notes.is_none() && self.input.is_none() && self.move_menu.is_none()
            && self.history.is_none()
    }

    /// Reads the text of the todo file, which was found changed.
    pub fn reload_changed(&mut self, text: &str)
        ensures
            final(self)@ == changed_reloaded(old(self)@, text@),
    {
        self.reload(text);
        self.status = "reloaded (changed on disk)".to_string();
    }

    /// Reads the text of the todo file, as a key asked for.
    pub fn reload_asked(&mut self, text: &str)
        ensures
            final(self)@ == asked_reloaded(old(self)@, text@),
    {
        self.reload(text);
        self.sub = None;
        self.status = "reloaded".to_string();
    }

    /// Tells how a sync ended, after reading the text of the todo file if it went well.
    pub fn tell_sync(&mut self, message: &str, text: Option<&str>)
        ensures
            final(self)@ == synced(
                old(self)@,
                message@,
                match text {
                    Some(text) => Some(text@),
                    None => None,
                },
            ),
    {
        if let Some(text) = text {
            self.reload(text);
        }
        self.status = cat("sync: ", message);
    }

    /// Shows the history, from the text of its file.
    pub fn show_history(&mut self, text: &str)
        ensures
            final(self)@ == history_shown(old(self)@, text@),
    {
        self.history = Some(HistoryView { lines: to_lines(text, 1), scroll: 0 });
    }

    /// Tells that there is no history, or why it cannot be read.
    pub fn tell_no_history(&mut self, error: Option<&str>)
        ensures
            final(self)@ == (State {
                status: match error {
                    Some(error) => "done history: "@ + error@,
                    None => "no done history yet"@,
                },
                ..old(self)@
            }),
    {
        self.status = match error {
            Some(error) => cat("done history: ", error),
            None => "no done history yet".to_string(),
        };
    }
}

} // verus!
