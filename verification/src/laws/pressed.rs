//! What each key does, mode by mode, in terms of what the operations do.
use crate::app::{
    downward, entries_of, item_under, line_under, undone, upward, DestModel, InputKind, InputModel,
    MenuModel, State, UNDO_DEPTH,
};
use crate::keys::{cuts_character, in_order, pressed, wrapped_rows, Action, Key, KeyCode};
use crate::laws::entries::{holds_task, law_selected_line, law_what_can_be_moved, selects};
use crate::laws::keys::lemma_press;
use crate::lines::joined;
use crate::moves::{later_cycled, menu_opened, movable, moved_to, reordered};
use crate::notes::{notes_closed, notes_openable, notes_opened};
use crate::outline::ItemModel;
use crate::prompt::{added, deleted, edited, input_opened, lemma_entries_same, sub_added};
use crate::rotate::collapse_toggled;
use crate::task::{behind_box, is_done, title_of};
use crate::text::trim;
use crate::toggle::{sub_toggled, toggled};
use vstd::prelude::*;

verus! {

/// Whether nothing is open over the main list.
pub open spec fn list_open(s: State) -> bool {
    &&& s.notes is None
    &&& s.input is None
    &&& s.history is None
    &&& s.move_menu is None
    &&& !s.show_help
    &&& s.quit_confirm is None
}

/// The state without what was said last.
pub open spec fn unsaid(s: State) -> State {
    State { status: Seq::empty(), ..s }
}

/// Keys that select: down and up by one, to the first entry, to the last.
pub proof fn law_keys_that_select(s: State, key: Key, stamp: Seq<char>)
    requires
        list_open(s),
    ensures
        ({
            let (t, action) = pressed(s, key, Seq::empty(), None, stamp);
            let n = entries_of(s).len();
            let down = (key.code == KeyCode::Char('j') || key.code == KeyCode::Down) && !key.shift;
            let up = (key.code == KeyCode::Char('k') || key.code == KeyCode::Up) && !key.shift;
            &&& down ==> t == downward(unsaid(s)) && action == Action::Nothing
            &&& up ==> t == upward(unsaid(s)) && action == Action::Nothing
            &&& key.code == KeyCode::Char('g') ==> t == (State {
                cursor: 0,
                sub: None,
                ..unsaid(s)
            }) && action == Action::Nothing
            &&& key.code == KeyCode::Char('G') && n > 0 ==> t == (State { cursor: n - 1, sub: None,
                ..unsaid(s) }) && action == Action::Nothing
        }),
{
    lemma_entries_same(s, unsaid(s), s.lines.len() as int);
}

/// Keys that change tasks: space and enter complete or open what is selected, or expand a
/// collapsed section; shift with the arrows, and the capitals, move a task past its
/// neighbour; `l` moves it to Later and back; `X` deletes; control and `z` undoes.
pub proof fn law_keys_that_change(s: State, key: Key, stamp: Seq<char>)
    requires
        list_open(s),
    ensures
        ({
            let (t, action) = pressed(s, key, Seq::empty(), None, stamp);
            let u = unsaid(s);
            let toggle = key.code == KeyCode::Char(' ') || key.code == KeyCode::Enter;
            let on_section = 0 <= s.cursor < entries_of(s).len() && entries_of(s)[s.cursor]
                is Section;
            &&& toggle && on_section ==> t == collapse_toggled(u)
            &&& toggle && !on_section && s.sub is Some ==> t == sub_toggled(u)
            &&& toggle && !on_section && s.sub is None ==> t == toggled(u, stamp)
            &&& key.code == KeyCode::Char('J') || (key.code == KeyCode::Down && key.shift)
                ==> t == reordered(u, 1)
            &&& key.code == KeyCode::Char('K') || (key.code == KeyCode::Up && key.shift)
                ==> t == reordered(u, -1)
            &&& key.code == KeyCode::Char('l') ==> t == later_cycled(u)
            &&& key.code == KeyCode::Char('X') ==> t == deleted(u)
            &&& key.code == KeyCode::Char('z') && key.control ==> t == undone(u)
            &&& key.code == KeyCode::Char('c') ==> t == collapse_toggled(u) && action
                == Action::Nothing
        }),
{
    lemma_entries_same(s, unsaid(s), s.lines.len() as int);
}

/// A key that changes a task has the file written: with a task under the cursor, completing,
/// moving, deleting it.
pub proof fn law_changes_ask_for_saving(s: State, key: Key, it: ItemModel, stamp: Seq<char>)
    requires
        list_open(s),
        holds_task(s, s.cursor, it),
        s.sub is None,
    ensures
        ({
            let action = pressed(s, key, Seq::empty(), None, stamp).1;
            &&& key.code == KeyCode::Char(' ') || key.code == KeyCode::Enter || key.code
                == KeyCode::Char('X') ==> action == Action::Save
            &&& key.code == KeyCode::Char('z') && key.control && s.undo.len() > 0 ==> action
                == Action::Save
        }),
{
    lemma_entries_same(s, unsaid(s), s.lines.len() as int);
    law_selected_line(unsaid(s), it, it.start);
}

/// Where there is nothing to change, nothing is written.
pub proof fn law_nothing_to_write(s: State, key: Key, stamp: Seq<char>)
    requires
        list_open(s),
        key.code == KeyCode::Char(' ') || key.code == KeyCode::Enter || key.code == KeyCode::Char(
            'X',
        ) || key.code == KeyCode::Char('J') || key.code == KeyCode::Char('K') || key.code
            == KeyCode::Char('l') || (key.code == KeyCode::Char('z') && key.control),
        key.code == KeyCode::Char('z') ==> s.undo.len() == 0,
        key.code != KeyCode::Char('z') ==> forall|it: ItemModel|
            !#[trigger] holds_task(s, s.cursor, it),
    ensures
        pressed(s, key, Seq::empty(), None, stamp).1 == Action::Nothing,
{
    lemma_entries_same(s, unsaid(s), s.lines.len() as int);
    if let Some(it) = item_under(s) {
        assert(holds_task(s, s.cursor, it));
    }
}

/// Keys that open something: a prompt for a new task, for a subtask of the task under the
/// cursor, for the title of what is selected, which is then in the prompt; the menu of
/// destinations, the notes, the help, the question whether to quit.
pub proof fn law_keys_that_open(s: State, key: Key, it: ItemModel, i: int, stamp: Seq<char>)
    requires
        list_open(s),
    ensures
        ({
            let (t, action) = pressed(s, key, Seq::empty(), None, stamp);
            let u = unsaid(s);
            let prompt = |kind: InputKind, text: Seq<char>|
                State { input: Some(InputModel { kind, text }), ..u };
            &&& key.code == KeyCode::Char('n') || key.code == KeyCode::Char('N') ==> t == prompt(
                InputKind::NewTask,
                Seq::empty(),
            ) && action == Action::Nothing
            &&& key.code == KeyCode::Char('s') && holds_task(u, s.cursor, it) ==> t == prompt(
                InputKind::NewSub,
                Seq::empty(),
            )
            &&& key.code == KeyCode::Char('e') && selects(u, it, i) ==> t == prompt(
                InputKind::Edit,
                title_of(behind_box(s.lines[i])),
            )
            &&& key.code == KeyCode::Char('m') || key.code == KeyCode::Char('M') ==> t
                == menu_opened(u)
            &&& key.code == KeyCode::Tab ==> t == notes_opened(u)
            &&& key.code == KeyCode::Char('~') ==> t == (State { show_help: true, ..u })
            &&& key.code == KeyCode::Char('q') || key.code == KeyCode::Esc ==> t == (State {
                quit_confirm: Some(true),
                ..u
            }) && action == Action::Nothing
        }),
{
    law_selected_line(unsaid(s), it, i);
}

/// Without a task under the cursor no prompt for a subtask is opened, and without a selected
/// line none for a title.
pub proof fn law_prompts_need_a_task(s: State)
    ensures
        (forall|it: ItemModel| !#[trigger] holds_task(s, s.cursor, it)) ==> input_opened(
            s,
            InputKind::NewSub,
        ) == s,
        (forall|it: ItemModel, i: int| !#[trigger] selects(s, it, i)) ==> input_opened(
            s,
            InputKind::Edit,
        ) == s,
{
    if let Some(it) = item_under(s) {
        assert(holds_task(s, s.cursor, it));
        if let Some(i) = line_under(s) {
            law_selected_line(s, it, i);
            assert(selects(s, it, i));
        }
    }
}

/// Keys that show or hide, and keys that ask for something outside: those change nothing but
/// what is said.
pub proof fn law_keys_that_show_and_ask(s: State, key: Key, stamp: Seq<char>)
    requires
        list_open(s),
        s.cursor >= 0,
    ensures
        ({
            let (t, action) = pressed(s, key, Seq::empty(), None, stamp);
            let u = unsaid(s);
            &&& key.code == KeyCode::Char('h') ==> {
                &&& t == (State { hide_done: !s.hide_done, sub: None, cursor: t.cursor, ..u })
                &&& s.cursor < entries_of(t).len() ==> t.cursor == s.cursor
                &&& s.cursor >= entries_of(t).len() && entries_of(t).len() > 0 ==> t.cursor
                    == entries_of(t).len() - 1
            }
            &&& key.code == KeyCode::Char('O') ==> {
                &&& t.expand_all == !s.expand_all
                &&& t == (State { expand_all: t.expand_all, sub: t.sub, status: t.status, ..s })
                &&& t.sub == (if s.expand_all {
                    None
                } else {
                    s.sub
                })
            }
            &&& key.code == KeyCode::Char('A') ==> t == u && action == Action::Archive
            &&& key.code == KeyCode::Char('S') ==> t == u && action == Action::Sync
            &&& key.code == KeyCode::Char('D') ==> t == u && action == Action::History
            &&& key.code == KeyCode::Char('r') ==> t == u && action == Action::Reload
        }),
{
    let t = pressed(s, key, Seq::empty(), None, stamp).0;
    let bare = State { hide_done: !s.hide_done, sub: None, ..unsaid(s) };
    lemma_entries_same(bare, State { cursor: t.cursor, ..bare }, s.lines.len() as int);
}

/// Whether a character is a key of the main list.
pub open spec fn is_key(c: char) -> bool {
    ||| c == ' ' || c == '~' || c == 'A' || c == 'D' || c == 'G' || c == 'J' || c == 'K' || c == 'M'
    ||| c == 'N' || c == 'O' || c == 'S' || c == 'X' || c == 'c' || c == 'e' || c == 'g' || c == 'h'
    ||| c == 'j' || c == 'k' || c == 'l' || c == 'm' || c == 'n' || c == 'q' || c == 'r' || c == 's'
    ||| c == 'z'
}

/// Any other key does nothing in the main list.
pub proof fn law_other_keys_do_nothing(s: State, key: Key, stamp: Seq<char>)
    requires
        list_open(s),
        key.code == KeyCode::Left || key.code == KeyCode::Right || key.code == KeyCode::BackTab
            || key.code == KeyCode::Other || (key.code matches KeyCode::Char(c) && !is_key(c)) || (
        key.code == KeyCode::Char('z') && !key.control),
    ensures
        pressed(s, key, Seq::empty(), None, stamp) == (unsaid(s), Action::Nothing),
{
}

// ---------------------------------------------------------------------------------
// Notes and prompts

/// While notes are edited, back-tab and escape close them with what was typed, and the file
/// is written; any other key goes to the editor and changes nothing else.
pub proof fn law_keys_in_notes(
    s: State,
    key: Key,
    typed: Seq<Seq<char>>,
    columns: Option<u16>,
    stamp: Seq<char>,
)
    requires
        s.notes is Some,
    ensures
        ({
            let (t, action) = pressed(s, key, typed, columns, stamp);
            let close = key.code == KeyCode::BackTab || key.code == KeyCode::Esc;
            &&& close ==> t.lines == notes_closed(s, typed).lines && t.notes is None && action
                == Action::Save
            &&& !close ==> t == s && action == Action::Edit
        }),
{
}

/// At a prompt, enter takes what was typed, with a blank for each line's end,
/// trimmed: as a new task, as a new subtask, as the title of the selected line, or as the
/// name of the section that the task goes to. What is blank is given up, and so is anything
/// with escape. Any other key goes to the editor.
pub proof fn law_keys_at_a_prompt(
    s: State,
    key: Key,
    typed: Seq<Seq<char>>,
    columns: Option<u16>,
    stamp: Seq<char>,
)
    requires
        s.notes is None,
        s.input is Some,
    ensures
        ({
            let (t, action) = pressed(s, key, typed, columns, stamp);
            let kind = s.input->0.kind;
            let closed = State { input: None, ..s };
            let text = trim(joined(typed, seq![' ']));
            let enter = key.code == KeyCode::Enter;
            let taken = enter && text.len() > 0;
            &&& key.code == KeyCode::Esc || (enter && text.len() == 0) ==> t == (State {
                status: "cancelled"@,
                ..closed
            }) && action == Action::Nothing
            &&& taken && kind == InputKind::NewTask ==> t == added(closed, text) && action
                == Action::Save
            &&& taken && kind == InputKind::NewSub ==> t == sub_added(closed, text)
            &&& taken && kind == InputKind::Edit ==> t == (State { status: "edited"@, ..edited(
                closed,
                text,
            ) })
            &&& taken && kind == InputKind::NewSection ==> t == moved_to(
                closed,
                DestModel::Section(text),
            )
            &&& !enter && key.code != KeyCode::Esc ==> t == s && action == Action::Edit
        }),
{
    reveal_strlit(" ");
    assert(" "@ =~= seq![' ']);
}

/// What is taken at a prompt is written if there is something that it changes, and only then:
/// a subtask needs a task under the cursor, a title a selected line, a section an open task.
pub proof fn law_what_a_prompt_writes(
    s: State,
    key: Key,
    typed: Seq<Seq<char>>,
    columns: Option<u16>,
    stamp: Seq<char>,
)
    requires
        s.notes is None,
        s.input is Some,
        key.code == KeyCode::Enter,
        trim(joined(typed, seq![' '])).len() > 0,
    ensures
        ({
            let action = pressed(s, key, typed, columns, stamp).1;
            let closed = State { input: None, ..s };
            let saves = match s.input->0.kind {
                InputKind::NewTask => true,
                InputKind::NewSub => exists|it: ItemModel|
                    #[trigger] holds_task(closed, s.cursor, it),
                InputKind::Edit => exists|it: ItemModel, i: int| #[trigger] selects(closed, it, i),
                InputKind::NewSection => can_go(closed),
            };
            action == (if saves {
                Action::Save
            } else {
                Action::Nothing
            })
        }),
{
    reveal_strlit(" ");
    assert(" "@ =~= seq![' ']);
    let closed = State { input: None, ..s };
    lemma_selections(closed);
}

/// Whether an open task is selected.
pub open spec fn can_go(s: State) -> bool {
    s.sub is None && exists|it: ItemModel| #[trigger]
        holds_task(s, s.cursor, it) && !is_done(s.lines[it.start])
}

proof fn lemma_selections(s: State)
    ensures
        item_under(s) is Some <==> exists|it: ItemModel| #[trigger] holds_task(s, s.cursor, it),
        line_under(s) is Some <==> exists|it: ItemModel, i: int| #[trigger] selects(s, it, i),
        movable(s) == can_go(s),
{
    if let Some(it) = item_under(s) {
        assert(holds_task(s, s.cursor, it));
        law_what_can_be_moved(s, it, 0, it);
        if let Some(i) = line_under(s) {
            law_selected_line(s, it, i);
            assert(selects(s, it, i));
        }
    }
    if exists|it: ItemModel, i: int| #[trigger] selects(s, it, i) {
        let (it, i) = choose|it: ItemModel, i: int| #[trigger] selects(s, it, i);
        law_selected_line(s, it, i);
    }
    if exists|it: ItemModel| #[trigger] holds_task(s, s.cursor, it) {
        let it = choose|it: ItemModel| #[trigger] holds_task(s, s.cursor, it);
        law_what_can_be_moved(s, it, 0, it);
    }
}

// ---------------------------------------------------------------------------------
// The menu, the question, the help

/// In the menu of destinations, down and up choose the next and the one before, within what
/// there is; enter moves the task to what is chosen, or asks for the name of a new section;
/// escape gives up.
pub proof fn law_keys_in_the_menu(
    s: State,
    key: Key,
    typed: Seq<Seq<char>>,
    columns: Option<u16>,
    stamp: Seq<char>,
)
    requires
        s.notes is None,
        s.input is None,
        s.history is None,
        s.move_menu is Some,
        0 <= s.move_menu->0.sel < s.move_menu->0.options.len(),
    ensures
        ({
            let (t, action) = pressed(s, key, typed, columns, stamp);
            let menu = s.move_menu->0;
            let chosen = menu.options[menu.sel];
            let closed = State { move_menu: None, ..s };
            let at = |sel: int| State { move_menu: Some(MenuModel { sel, ..menu }), ..s };
            let down = key.code == KeyCode::Char('j') || key.code == KeyCode::Down;
            let up = key.code == KeyCode::Char('k') || key.code == KeyCode::Up;
            let enter = key.code == KeyCode::Enter;
            &&& down && menu.sel + 1 < menu.options.len() ==> t == at(menu.sel + 1)
            &&& down && menu.sel + 1 == menu.options.len() ==> t == s
            &&& up && menu.sel > 0 ==> t == at(menu.sel - 1)
            &&& up && menu.sel == 0 ==> t == s
            &&& enter && chosen != DestModel::NewSection ==> t == moved_to(closed, chosen)
            &&& enter && chosen == DestModel::NewSection ==> t == (State {
                input: Some(InputModel { kind: InputKind::NewSection, text: Seq::empty() }),
                ..closed
            })
            &&& key.code == KeyCode::Esc ==> t == (State { status: "cancelled"@, ..closed })
            &&& !down && !up && !enter && key.code != KeyCode::Esc ==> t == s
            &&& action == (if enter && chosen != DestModel::NewSection && can_go(closed) {
                Action::Save
            } else {
                Action::Nothing
            })
        }),
{
    lemma_selections(State { move_menu: None, ..s });
}

/// While it is asked whether to quit, `q`, `y` and escape leave, enter and space leave if yes
/// is chosen and stay if no is, `n` stays, and `h`, `l`, left, right and tab choose the other.
pub proof fn law_keys_at_the_question(
    s: State,
    key: Key,
    typed: Seq<Seq<char>>,
    columns: Option<u16>,
    stamp: Seq<char>,
)
    requires
        s.notes is None,
        s.input is None,
        s.history is None,
        s.move_menu is None,
        !s.show_help,
        s.quit_confirm is Some,
    ensures
        ({
            let (t, action) = pressed(s, key, typed, columns, stamp);
            let yes = s.quit_confirm->0;
            let leave = key.code == KeyCode::Char('q') || key.code == KeyCode::Char('y') || key.code
                == KeyCode::Esc;
            let take = key.code == KeyCode::Enter || key.code == KeyCode::Char(' ');
            let other = key.code == KeyCode::Char('h') || key.code == KeyCode::Char('l') || key.code
                == KeyCode::Left || key.code == KeyCode::Right || key.code == KeyCode::Tab;
            &&& (action == Action::Quit) == (leave || (take && yes))
            &&& key.code == KeyCode::Char('n') || (take && !yes) ==> t == (State {
                quit_confirm: None,
                ..s
            })
            &&& other ==> t == (State { quit_confirm: Some(!yes), ..s })
            &&& !leave && !take && !other && key.code != KeyCode::Char('n') ==> t == s
            &&& t.lines == s.lines
            &&& action == Action::Quit || action == Action::Nothing
        }),
{
}

/// Keys are taken while open notes stand on lines that are there and an open menu has one of
/// its destinations chosen; only the key that opens notes is not, where that would part a
/// character.
pub proof fn law_when_keys_are_taken(s: State, key: Key)
    ensures
        in_order(s) <==> {
            &&& s.notes matches Some(notes) ==> 0 <= notes.start && 0 <= notes.child_len
                && notes.start + notes.child_len < s.lines.len()
            &&& s.move_menu matches Some(menu) ==> 0 <= menu.sel < menu.options.len()
        },
        cuts_character(s, key) <==> list_open(s) && key.code == KeyCode::Tab && !notes_openable(s),
{
}

/// Any key closes the help, and does nothing else.
pub proof fn law_keys_over_the_help(
    s: State,
    key: Key,
    typed: Seq<Seq<char>>,
    columns: Option<u16>,
    stamp: Seq<char>,
)
    requires
        s.notes is None,
        s.input is None,
        s.history is None,
        s.move_menu is None,
        s.show_help,
    ensures
        pressed(s, key, typed, columns, stamp) == (
            State { show_help: false, ..s },
            Action::Nothing,
        ),
{
}

// ---------------------------------------------------------------------------------
// The history

/// The rows that lines take up are those of its parts together, and a line takes up one more
/// than the times it fills the width.
pub proof fn law_rows_of_the_history(
    a: Seq<Seq<char>>,
    b: Seq<Seq<char>>,
    l: Seq<char>,
    width: int,
)
    requires
        width > 0,
    ensures
        wrapped_rows(a + b, width, (a + b).len() as int) == wrapped_rows(a, width, a.len() as int)
            + wrapped_rows(b, width, b.len() as int),
        ({
            let rows = wrapped_rows(seq![l], width, 1);
            (rows - 1) * width <= l.len() < rows * width
        }),
    decreases b.len(),
{
    let s = seq![l];
    assert(wrapped_rows(s, width, 0) == 0);
    let q = l.len() as int / width;
    assert(q * width <= l.len() < (q + 1) * width) by (nonlinear_arith)
        requires
            width > 0,
            q == l.len() as int / width,
    ;
    if b.len() == 0 {
        assert(a + b =~= a);
    } else {
        let c = b.drop_last();
        law_rows_of_the_history(a, c, l, width);
        assert((a + b).drop_last() =~= a + c);
        lemma_rows_prefix(a + b, a + c, width, (a + c).len() as int);
        lemma_rows_prefix(b, c, width, c.len() as int);
        assert((a + b)[(a + b).len() - 1] == b[b.len() - 1]);
    }
}

proof fn lemma_rows_prefix(a: Seq<Seq<char>>, b: Seq<Seq<char>>, width: int, n: int)
    requires
        n <= a.len(),
        n <= b.len(),
        forall|i: int| 0 <= i < n ==> a[i] == b[i],
    ensures
        wrapped_rows(a, width, n) == wrapped_rows(b, width, n),
    decreases n,
{
    if n > 0 {
        lemma_rows_prefix(a, b, width, n - 1);
    }
}

/// The columns for the text of the history on a screen of so many columns: four less, for the
/// border and the margins, and one at least; on a screen of unknown size those of one with
/// eighty columns.
pub open spec fn text_width(columns: Option<u16>) -> int {
    match columns {
        Some(n) => if n >= 5 {
            n - 4
        } else {
            1
        },
        None => 80 - 4,
    }
}

/// In the history, down and up scroll by a row, within the rows that there are on a screen of
/// this width; `g` and `G` go to the first row and the last; `q`, `D` and escape close it. Its
/// lines do not change, and nothing else does.
pub proof fn law_keys_in_the_history(
    s: State,
    key: Key,
    typed: Seq<Seq<char>>,
    columns: Option<u16>,
    stamp: Seq<char>,
)
    requires
        s.notes is None,
        s.input is None,
        s.history is Some,
        ({
            let lines = s.history->0.lines;
            let rows = wrapped_rows(lines, text_width(columns), lines.len() as int);
            0 < rows <= 65536 && 0 <= s.history->0.scroll
        }),
    ensures
        ({
            let (t, action) = pressed(s, key, typed, columns, stamp);
            let hv = s.history->0;
            let rows = wrapped_rows(hv.lines, text_width(columns), hv.lines.len() as int);
            let down = key.code == KeyCode::Char('j') || key.code == KeyCode::Down;
            let up = key.code == KeyCode::Char('k') || key.code == KeyCode::Up;
            let close = key.code == KeyCode::Char('q') || key.code == KeyCode::Char('D') || key.code
                == KeyCode::Esc;
            &&& action == Action::Nothing
            &&& t == (State { history: t.history, ..s })
            &&& (t.history is None) == close
            &&& !close ==> t.history->0.lines == hv.lines
            &&& !close && hv.scroll < rows ==> 0 <= t.history->0.scroll < rows
            &&& down && hv.scroll + 1 < rows ==> t.history->0.scroll == hv.scroll + 1
            &&& down && hv.scroll + 1 >= rows ==> t.history->0.scroll == rows - 1
            &&& up && hv.scroll > 0 ==> t.history->0.scroll == hv.scroll - 1
            &&& key.code == KeyCode::Char('g') ==> t.history->0.scroll == 0
            &&& key.code == KeyCode::Char('G') ==> t.history->0.scroll == rows - 1
            &&& up && hv.scroll == 0 ==> t == s
            &&& !down && !up && !close && key.code != KeyCode::Char('g') && key.code
                != KeyCode::Char('G') ==> t == s
        }),
{
}

/// A history without rows does not scroll.
pub proof fn law_empty_history(s: State, key: Key, columns: Option<u16>, stamp: Seq<char>)
    requires
        s.notes is None,
        s.input is None,
        s.history is Some,
        s.history->0.lines.len() == 0,
        s.history->0.scroll == 0,
    ensures
        ({
            let t = pressed(s, key, Seq::empty(), columns, stamp).0;
            t.history is Some ==> t == s
        }),
{
}

// ---------------------------------------------------------------------------------
// Undo

/// Undo goes back step by step: after a change and its undoing, what undo remembers is what it
/// remembered before, so that the next undo takes back the change before. Where nothing is
/// remembered, nothing changes but what is said.
pub proof fn law_undo_step_by_step(
    s: State,
    key: Key,
    typed: Seq<Seq<char>>,
    columns: Option<u16>,
    stamp: Seq<char>,
)
    requires
        pressed(s, key, typed, columns, stamp).1 == Action::Save,
        !(list_open(s) && key.code == KeyCode::Char('z') && key.control),
        s.undo.len() < UNDO_DEPTH,
        s.undo.len() > 0 ==> s.undo.last() != s.lines,
    ensures
        ({
            let t = undone(pressed(s, key, typed, columns, stamp).0);
            &&& t.lines == s.lines
            &&& t.undo == s.undo
            &&& t.sub is None
        }),
{
    lemma_press(s, key, typed, columns, stamp);
    assert(s.undo.push(s.lines).drop_last() =~= s.undo);
}

/// Lines that are remembered already, as the last, are not remembered twice.
pub proof fn law_undo_remembers_once(
    s: State,
    key: Key,
    typed: Seq<Seq<char>>,
    columns: Option<u16>,
    stamp: Seq<char>,
)
    requires
        pressed(s, key, typed, columns, stamp).1 == Action::Save,
        !(list_open(s) && key.code == KeyCode::Char('z') && key.control),
        s.undo.len() > 0,
        s.undo.last() == s.lines,
    ensures
        pressed(s, key, typed, columns, stamp).0.undo == s.undo,
{
    lemma_press(s, key, typed, columns, stamp);
}

/// Beyond its depth undo forgets the oldest state, and no other.
pub proof fn law_undo_forgets_the_oldest(
    s: State,
    key: Key,
    typed: Seq<Seq<char>>,
    columns: Option<u16>,
    stamp: Seq<char>,
)
    requires
        pressed(s, key, typed, columns, stamp).1 == Action::Save,
        !(list_open(s) && key.code == KeyCode::Char('z') && key.control),
        s.undo.len() == UNDO_DEPTH,
        s.undo.last() != s.lines,
    ensures
        undone(pressed(s, key, typed, columns, stamp).0).undo == s.undo.skip(1),
{
    lemma_press(s, key, typed, columns, stamp);
    assert(s.undo.push(s.lines).skip(1).drop_last() =~= s.undo.skip(1));
}

/// Undo with nothing remembered says so; otherwise it takes the last remembered lines, and
/// keeps the rest of the state but for a selection out of range.
pub proof fn law_undo_takes_the_last(s: State)
    requires
        s.cursor >= 0,
    ensures
        s.undo.len() == 0 ==> undone(s) == (State { status: "nothing to undo"@, ..s }),
        s.undo.len() > 0 ==> {
            let t = undone(s);
            &&& t == (State { lines: s.undo.last(), undo: s.undo.drop_last(), status: "undo"@, sub:
                None, cursor: t.cursor, ..s })
            &&& s.cursor < entries_of(t).len() ==> t.cursor == s.cursor
        },
{
    if s.undo.len() > 0 {
        let t = undone(s);
        let bare = State { lines: s.undo.last(), undo: s.undo.drop_last(), sub: None, ..s };
        lemma_entries_same(bare, t, t.lines.len() as int);
    }
}

} // verus!
