//! What is said of each operation, and where the selection is after it.
use crate::app::{
    clamped, entries_of, lemma_item_under, lemma_tasks_in, DestModel, EntryModel, State,
};
use crate::keys::{pressed, Key, KeyCode};
use crate::laws::entries::{holds_task, law_selected_line, law_what_can_be_moved, selects};
use crate::laws::pressed::list_open;
use crate::moves::{later_cycled, moved_to};
use crate::notes::notes_closed;
use crate::outline::{kind_at, ItemModel};
use crate::prompt::{deleted, lemma_entries_same};
use crate::rotate::{archived, collapse_toggled};
use crate::search::lemma_back_from_is;
use crate::task::{behind_box, ends_todo, heading_name, is_done, title_of, SectionKind};
use crate::text::trim;
use crate::toggle::{sub_toggled, toggled};
use vstd::prelude::*;

verus! {

/// The state with these lines instead of its own, the selection brought into range.
pub open spec fn with_lines(s: State, t: State) -> State {
    clamped(State { lines: t.lines, undo: t.undo, ..s })
}

/// After a task is deleted, the selection stays where it is as far as there is something to
/// select, and what was deleted is told by its title; of a subtask, by its text.
pub proof fn law_what_is_said_of_a_deletion(s: State, it: ItemModel, i: int)
    requires
        selects(s, it, i),
    ensures
        ({
            let t = deleted(s);
            t == (State {
                status: if s.sub is Some {
                    "deleted sub: "@ + trim(behind_box(s.lines[i]))
                } else {
                    "deleted: "@ + title_of(behind_box(s.lines[i]))
                },
                ..with_lines(s, t)
            })
        }),
{
    law_selected_line(s, it, i);
}

/// After a task is completed or opened, or moved to another section, the selection stays where
/// it is as far as there is something to select, and it is said what became of the task.
pub proof fn law_what_is_said_of_a_move(s: State, it: ItemModel, stamp: Seq<char>, dest: DestModel)
    requires
        holds_task(s, s.cursor, it),
    ensures
        ({
            let t = toggled(s, stamp);
            &&& t.status == (if is_done(s.lines[it.start]) {
                "back to todo"@
            } else {
                "done"@
            })
            &&& t == (State { status: t.status, ..with_lines(s, t) })
        }),
        s.sub is None && !is_done(s.lines[it.start]) ==> {
            let t = moved_to(s, dest);
            let u = later_cycled(s);
            &&& u.status == (if kind_at(s.lines, it.start) == SectionKind::Later {
                "moved to todo"@
            } else {
                "moved to later"@
            })
            &&& u == (State { status: u.status, ..with_lines(s, u) })
            &&& dest == DestModel::Todo ==> t.status == "moved to "@ + "todo"@
            &&& dest == DestModel::Later ==> t.status == "moved to "@ + "later"@
            &&& dest is Section ==> t.status == "moved to "@ + dest->Section_0
            &&& dest != DestModel::NewSection ==> t == (State {
                status: t.status,
                ..with_lines(s, t)
            })
            &&& dest == DestModel::NewSection ==> t == (State { undo: t.undo, ..s })
        },
{
    law_selected_line(s, it, it.start);
    law_what_can_be_moved(s, it, 0, it);
    let a = State { lines: toggled(s, stamp).lines, undo: toggled(s, stamp).undo, ..s };
    lemma_clamp_aside(a, toggled(s, stamp).status);
    if s.sub is None && !is_done(s.lines[it.start]) {
        let u = later_cycled(s);
        lemma_clamp_aside(State { lines: u.lines, undo: u.undo, ..s }, u.status);
    }
}

/// What is selected does not depend on what is said.
proof fn lemma_clamp_aside(s: State, status: Seq<char>)
    ensures
        clamped(State { status, ..s }) == (State { status, ..clamped(s) }),
{
    let t = State { status, ..s };
    lemma_entries_same(s, t, s.lines.len() as int);
    let a = State { cursor: clamped(s).cursor, ..s };
    let b = State { cursor: clamped(s).cursor, ..t };
    lemma_entries_same(s, a, s.lines.len() as int);
    lemma_entries_same(s, b, s.lines.len() as int);
}

/// Of a subtask it is said whether it is done now.
pub proof fn law_what_is_said_of_a_sub(s: State, it: ItemModel, i: int)
    requires
        s.sub is Some,
        selects(s, it, i),
    ensures
        sub_toggled(s).status == (if is_done(s.lines[i]) {
            "sub back open"@
        } else {
            "sub done"@
        }),
{
    law_selected_line(s, it, i);
    lemma_item_under(s);
    lemma_tasks_in(s.lines, it.start + 1, it.start + it.len);
}

/// Closing notes changes nothing but the lines, what undo remembers, and that they are open;
/// with the key it is said that they are saved.
pub proof fn law_what_closing_notes_changes(
    s: State,
    key: Key,
    typed: Seq<Seq<char>>,
    columns: Option<u16>,
    stamp: Seq<char>,
)
    requires
        s.notes is Some,
    ensures
        ({
            let t = notes_closed(s, typed);
            &&& t == (State { lines: t.lines, undo: t.undo, notes: None, ..s })
            &&& key.code == KeyCode::Esc || key.code == KeyCode::BackTab ==> pressed(
                s,
                key,
                typed,
                columns,
                stamp,
            ).0 == (State { status: "notes saved"@, ..t })
        }),
{
}

/// It is said when all subtasks are shown and when they no longer are, when a section that is
/// not there is to be collapsed, what was archived, and that only a collapsed section can be.
pub proof fn law_what_is_said_of_sections(
    s: State,
    key: Key,
    it: ItemModel,
    h: int,
    stamp: Seq<char>,
)
    ensures
        list_open(s) && key.code == KeyCode::Char('O') ==> pressed(
            s,
            key,
            Seq::empty(),
            None,
            stamp,
        ).0.status == (if s.expand_all {
            "collapsed"@
        } else {
            "expanded all"@
        }),
        holds_task(s, s.cursor, it) && (forall|i: int|
            0 <= i < it.start ==> !ends_todo(#[trigger] s.lines[i])) ==> collapse_toggled(s).status
            == "top area has no section to collapse"@,
        0 <= s.cursor < entries_of(s).len() && entries_of(s)[s.cursor] == EntryModel::Section(h)
            ==> archived(s) == (State {
            status: "archived: "@ + heading_name(s.lines[h]),
            ..clamped(
                State {
                    lines: archived(s).lines,
                    undo: archived(s).undo,
                    collapsed: archived(s).collapsed,
                    ..s
                },
            )
        }),
        !(0 <= s.cursor < entries_of(s).len() && entries_of(s)[s.cursor] is Section) ==> archived(
            s,
        ).status == "collapse a section first (c), then A archives it"@,
{
    if holds_task(s, s.cursor, it) && (forall|i: int|
        0 <= i < it.start ==> !ends_todo(#[trigger] s.lines[i])) {
        lemma_item_under(s);
        let p = |l: Seq<char>| ends_todo(l);
        assert forall|i: int| 0 <= i < it.start implies !p(#[trigger] s.lines[i]) by {
            assert(!ends_todo(s.lines[i]));
        }
        lemma_back_from_is(s.lines, it.start, p, 0);
    }
}

} // verus!
