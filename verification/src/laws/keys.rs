//! What holds of every key that is pressed: changes are written, undo takes them back, and
//! the application stays in order.
use crate::app::{
    initial, item_under, lemma_item_under, line_under, reloaded, remembered, undone, DestModel,
    State, UNDO_DEPTH,
};
use crate::keys::{
    asked_reloaded, changed_reloaded, command_of, commanded, history_shown, in_list, in_order,
    menu_pressed, pressed, prompt_pressed, reloadable, synced, Action, Command, Key,
};
use crate::moves::{later_cycled, movable, moved_to, reorder_pair, reordered};
use crate::prompt::{added, deleted, edited, input_committed, input_saves, sub_added, typed_text};
use crate::rotate::{archive_after, archived, rotated};
use crate::toggle::{sub_selected, sub_toggled, toggled};
use vstd::prelude::*;

verus! {

proof fn lemma_remembered(s: State)
    ensures
        remembered(s).undo.len() > 0,
        remembered(s).undo.last() == s.lines,
        s.undo.len() <= UNDO_DEPTH ==> remembered(s).undo.len() <= UNDO_DEPTH,
{
}

/// Whether an operation leads from one state to another: it keeps what is open and the ends
/// of lines, and remembers the lines for undo where it says that the file is to be written,
/// which it does where it changes them.
pub open spec fn leads(s: State, t: State, saves: bool) -> bool {
    &&& t.crlf == s.crlf
    &&& t.notes == s.notes
    &&& t.move_menu == s.move_menu
    &&& t.undo == s.undo || t.undo == remembered(s).undo
    &&& saves ==> t.undo == remembered(s).undo
    &&& !saves ==> t.lines == s.lines
}

proof fn lemma_toggled_leads(s: State, stamp: Seq<char>)
    ensures
        leads(s, toggled(s, stamp), item_under(s) is Some),
{
}

proof fn lemma_sub_toggled_leads(s: State)
    ensures
        leads(s, sub_toggled(s), sub_selected(s)),
{
}

pub proof fn lemma_moved_to_leads(s: State, dest: DestModel)
    ensures
        leads(s, moved_to(s, dest), movable(s) && dest != DestModel::NewSection),
{
}

proof fn lemma_later_cycled_leads(s: State)
    ensures
        leads(s, later_cycled(s), movable(s)),
{
}

proof fn lemma_reordered_leads(s: State, delta: int)
    ensures
        leads(s, reordered(s, delta), reorder_pair(s, delta) is Some),
{
}

proof fn lemma_added_leads(s: State, text: Seq<char>)
    ensures
        leads(s, added(s, text), true),
{
}

proof fn lemma_sub_added_leads(s: State, text: Seq<char>)
    ensures
        leads(s, sub_added(s, text), item_under(s) is Some),
{
}

proof fn lemma_deleted_leads(s: State)
    ensures
        leads(s, deleted(s), line_under(s) is Some),
{
}

proof fn lemma_edited_leads(s: State, text: Seq<char>)
    ensures
        leads(s, edited(s, text), line_under(s) is Some),
{
}

/// Taking what was typed at a prompt leads on from the state without the prompt.
pub proof fn lemma_committed_leads(s: State, typed: Seq<Seq<char>>)
    requires
        s.input is Some,
    ensures
        leads(State { input: None, ..s }, input_committed(s, typed), input_saves(s, typed)),
{
    let closed = State { input: None, ..s };
    let text = typed_text(typed);
    lemma_edited_leads(closed, text);
    lemma_added_leads(closed, text);
    lemma_sub_added_leads(closed, text);
    lemma_moved_to_leads(closed, DestModel::Section(text));
}

/// A command other than undo and the opening of notes or a menu leads on.
pub proof fn lemma_commanded_leads(s: State, what: Command, stamp: Seq<char>)
    requires
        what != Command::Undo,
        what != Command::Notes,
        what != Command::Move,
    ensures
        leads(s, commanded(s, what, stamp).0, commanded(s, what, stamp).1 == Action::Save),
{
    match what {
        Command::MoveDown => {
            lemma_reordered_leads(s, 1);
        },
        Command::MoveUp => {
            lemma_reordered_leads(s, -1);
        },
        Command::Delete => {
            lemma_deleted_leads(s);
        },
        Command::Toggle => {
            lemma_sub_toggled_leads(s);
            lemma_toggled_leads(s, stamp);
        },
        Command::Later => {
            lemma_later_cycled_leads(s);
        },
        _ => {},
    }
}

/// The application holds no unsaved changes: a key after which the lines, or the ends of
/// lines, differ is one after which the file is written.
#[verifier::rlimit(50)]
pub proof fn law_changes_are_written(
    s: State,
    key: Key,
    typed: Seq<Seq<char>>,
    columns: Option<u16>,
    stamp: Seq<char>,
)
    ensures
        ({
            let (t, action) = pressed(s, key, typed, columns, stamp);
            &&& t.lines != s.lines ==> action == Action::Save
            &&& t.crlf == s.crlf
        }),
{
    lemma_press(s, key, typed, columns, stamp);
}

/// What a key does to the lines, the ends of lines, what undo remembers and what is open.
pub open spec fn steps(s: State, r: (State, Action), undo: bool) -> bool {
    let (t, action) = r;
    &&& t.crlf == s.crlf
    &&& t.lines != s.lines ==> action == Action::Save
    &&& !undo && action == Action::Save ==> t.undo == remembered(s).undo
    &&& s.undo.len() <= UNDO_DEPTH ==> t.undo.len() <= UNDO_DEPTH
    &&& in_order(s) ==> in_order(t)
}

proof fn lemma_prompt_steps(s: State, key: Key, typed: Seq<Seq<char>>)
    requires
        s.notes is None,
        s.input is Some,
    ensures
        steps(s, prompt_pressed(s, key, typed), false),
{
    lemma_committed_leads(s, typed);
}

proof fn lemma_menu_steps(s: State, key: Key)
    requires
        s.notes is None,
        s.move_menu is Some,
    ensures
        steps(s, menu_pressed(s, key), false),
{
    let closed = State { move_menu: None, ..s };
    lemma_moved_to_leads(closed, s.move_menu->0.options[s.move_menu->0.sel]);
}

proof fn lemma_list_steps(s: State, key: Key, stamp: Seq<char>)
    requires
        s.notes is None,
    ensures
        steps(
            s,
            commanded(State { status: Seq::empty(), ..s }, command_of(key), stamp),
            command_of(key) == Command::Undo,
        ),
{
    let bare = State { status: Seq::empty(), ..s };
    let what = command_of(key);
    if what == Command::Notes || what == Command::Move || what == Command::Undo {
        lemma_item_under(bare);
    } else {
        lemma_commanded_leads(bare, what, stamp);
    }
}

#[verifier::rlimit(50)]
pub proof fn lemma_press(
    s: State,
    key: Key,
    typed: Seq<Seq<char>>,
    columns: Option<u16>,
    stamp: Seq<char>,
)
    ensures
        steps(
            s,
            pressed(s, key, typed, columns, stamp),
            in_list(s) && command_of(key) == Command::Undo,
        ),
{
    if s.notes is Some {
    } else if s.input is Some {
        lemma_prompt_steps(s, key, typed);
    } else if s.history is Some {
    } else if s.move_menu is Some {
        lemma_menu_steps(s, key);
    } else if s.show_help || s.quit_confirm is Some {
    } else {
        lemma_list_steps(s, key, stamp);
    }
}

/// Undo takes back the last change: after any key after which the file is written, save
/// undo itself, undo gives the lines as they were before that key.
#[verifier::rlimit(50)]
pub proof fn law_undo_takes_back(
    s: State,
    key: Key,
    typed: Seq<Seq<char>>,
    columns: Option<u16>,
    stamp: Seq<char>,
)
    requires
        pressed(s, key, typed, columns, stamp).1 == Action::Save,
        !(in_list(s) && command_of(key) == Command::Undo),
    ensures
        undone(pressed(s, key, typed, columns, stamp).0).lines == s.lines,
{
    lemma_remembered(s);
    lemma_press(s, key, typed, columns, stamp);
}

/// Undo takes back the archiving of a section.
pub proof fn law_undo_takes_back_archive(s: State, text: Seq<char>)
    requires
        archive_after(s, text) is Some,
    ensures
        undone(archived(s)).lines == s.lines,
{
    lemma_remembered(s);
}

/// Undo remembers no more states than its depth, whatever keys are pressed.
#[verifier::rlimit(50)]
pub proof fn law_undo_depth(
    s: State,
    key: Key,
    typed: Seq<Seq<char>>,
    columns: Option<u16>,
    stamp: Seq<char>,
)
    requires
        s.undo.len() <= UNDO_DEPTH,
    ensures
        pressed(s, key, typed, columns, stamp).0.undo.len() <= UNDO_DEPTH,
{
    lemma_press(s, key, typed, columns, stamp);
}

/// Undo remembers no more states than its depth after a section is archived either.
pub proof fn law_undo_depth_after_archive(s: State)
    requires
        s.undo.len() <= UNDO_DEPTH,
    ensures
        archived(s).undo.len() <= UNDO_DEPTH,
{
    lemma_remembered(s);
}

/// The application is in order at the start and after every key: what is edited is there,
/// and an open menu has a destination selected.
#[verifier::rlimit(50)]
pub proof fn law_stays_in_order(
    s: State,
    key: Key,
    typed: Seq<Seq<char>>,
    columns: Option<u16>,
    stamp: Seq<char>,
)
    requires
        in_order(s),
    ensures
        in_order(initial()),
        in_order(pressed(s, key, typed, columns, stamp).0),
{
    lemma_press(s, key, typed, columns, stamp);
}

/// The application is in order after a reload, a sync, an archiving or a rotation, and
/// with the history shown.
pub proof fn law_stays_in_order_beside_keys(
    s: State,
    text: Seq<char>,
    message: Seq<char>,
    due: Seq<Option<Seq<char>>>,
)
    requires
        in_order(s),
        reloadable(s),
    ensures
        in_order(reloaded(s, text)),
        in_order(changed_reloaded(s, text)),
        in_order(asked_reloaded(s, text)),
        in_order(synced(s, message, Some(text))),
        in_order(synced(s, message, None)),
        in_order(history_shown(s, text)),
        in_order(archived(s)),
        in_order(rotated(s, due)),
{
}

/// A command that asks for something changes nothing itself, and none leaves.
proof fn lemma_commanded_asks(s: State, what: Command, stamp: Seq<char>)
    ensures
        ({
            let (t, action) = commanded(s, what, stamp);
            &&& action == Action::Reload || action == Action::Sync || action == Action::History
                || action == Action::Archive ==> t == s
            &&& action != Action::Quit
        }),
{
    match what {
        Command::Toggle => {},
        _ => {},
    }
}

/// A key asks for the file to be read, for a sync, for the history or for an archiving
/// only while nothing is edited and no menu is open.
#[verifier::rlimit(50)]
pub proof fn law_asks_only_in_list(
    s: State,
    key: Key,
    typed: Seq<Seq<char>>,
    columns: Option<u16>,
    stamp: Seq<char>,
)
    ensures
        ({
            let (t, action) = pressed(s, key, typed, columns, stamp);
            action == Action::Reload || action == Action::Sync || action == Action::History
                || action == Action::Archive ==> in_list(s) && reloadable(t)
        }),
{
    if in_list(s) {
        lemma_commanded_asks(State { status: Seq::empty(), ..s }, command_of(key), stamp);
    }
}

/// The application is left only after it was asked whether to.
#[verifier::rlimit(50)]
pub proof fn law_quits_only_when_asked(
    s: State,
    key: Key,
    typed: Seq<Seq<char>>,
    columns: Option<u16>,
    stamp: Seq<char>,
)
    ensures
        pressed(s, key, typed, columns, stamp).1 == Action::Quit ==> s.quit_confirm is Some,
{
    if in_list(s) {
        lemma_commanded_asks(State { status: Seq::empty(), ..s }, command_of(key), stamp);
    }
}

} // verus!
