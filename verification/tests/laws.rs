//! What holds over many states, tried on some.
use locdo::app::App;
use locdo::clock::{stamp_moment, Moment};
use locdo::keys::{Action, Key, KeyCode};
use locdo::task::{complete, reopen, split_stamp, task_info};

fn lines_from(lines: &[&str]) -> Vec<String> {
    lines.iter().map(|s| s.to_string()).collect()
}

fn app_from(lines: &[&str]) -> App {
    App::with_lines(lines_from(lines))
}

const LINES: [&str; 18] = [
    "# Todo",
    "",
    "- [ ] a",
    "  - [x] a1",
    "  - [ ] a2",
    "- [ ] b",
    "  note",
    "",
    "## Work",
    "",
    "- [ ] w",
    "",
    "## Later",
    "",
    "## Done",
    "",
    "- [x] d @done(2026-08-30 14:32)",
    "  d's note",
];

/// The states that the tests start from: each entry, and the subtasks of the first.
fn starts() -> Vec<(usize, Option<usize>)> {
    vec![(0, None), (0, Some(0)), (0, Some(1)), (1, None), (2, None), (3, None)]
}

fn start(cursor: usize, sub: Option<usize>) -> App {
    let mut app = app_from(&LINES);
    app.cursor = cursor;
    app.sub = sub;
    app
}

fn all_keys() -> Vec<Key> {
    let mut keys = Vec::new();
    for c in ' '..='~' {
        keys.push(Key { code: KeyCode::Char(c), shift: false, control: false });
    }
    for code in [KeyCode::Enter, KeyCode::Esc, KeyCode::Tab, KeyCode::Up, KeyCode::Down] {
        for shift in [false, true] {
            keys.push(Key { code, shift, control: false });
        }
    }
    keys
}

#[test]
fn changes_are_written_and_taken_back() {
    for (cursor, sub) in starts() {
        for key in all_keys() {
            let mut app = start(cursor, sub);
            let action = app.press_at(key, &Vec::new(), Some(80), "2026-09-01 10:00");
            if app.lines != lines_from(&LINES) {
                assert_eq!(action, Action::Save, "{key:?}");
            }
            assert!(app.undo.len() <= 100);
            assert_eq!(App::load(&app.file_text()).lines, app.lines, "{key:?}");
            if action == Action::Save {
                assert!(app.undo_last());
                assert_eq!(app.lines, lines_from(&LINES), "{key:?}");
            }
        }
    }
}

#[test]
fn the_application_stays_in_order() {
    for (cursor, sub) in starts() {
        for first in all_keys() {
            let mut app = start(cursor, sub);
            app.press_at(first, &Vec::new(), None, "");
            for second in all_keys() {
                assert!(app.ready_for(second));
            }
        }
    }
}

#[test]
fn tidying_keeps_every_other_line() {
    let messy = lines_from(&["", "# A", "x", "", " ", "- [ ] y", "## B", "", "", "z", ""]);
    let solid = |lines: &Vec<String>| -> Vec<String> {
        lines.iter().filter(|l| !l.trim().is_empty()).cloned().collect()
    };
    let tidy = locdo::outline::tidy_lines(&messy);
    assert_eq!(solid(&tidy), solid(&messy));
    assert_eq!(tidy, lines_from(&["# A", "", "x", "", "- [ ] y", "", "## B", "", "z"]));
}

#[test]
fn a_stamp_is_read_back_and_taken_away() {
    for line in ["- [ ] a", "* [ ]  spaced  ", "- [ ]", "  - [ ] sub (with brackets)"] {
        let (_, at) = task_info(line).unwrap();
        let done = complete(line, at, "2026-08-30 14:32");
        let (title, stamp) = split_stamp(&done[at + 2..]);
        assert_eq!(title, line[at + 2..].trim());
        assert_eq!(stamp, Some("2026-08-30 14:32".to_string()));
        assert_eq!(reopen(&done, at), line.trim_end());
    }
    // A line that opens a stamp already keeps the new one.
    let twice = complete("- [ ] a @done(x)", 3, "2026-08-30 14:32");
    assert_eq!(reopen(&twice, 3), "- [ ] a  @done(2026-08-30 14:32)");
}

#[test]
fn completed_tasks_are_newest_first() {
    let mut app = app_from(&["- [ ] a", "  note", "- [ ] b", "## DONE", "- [x] old"]);
    app.toggle_at("2026-09-01 10:00");
    app.toggle_at("2026-09-01 10:01");
    assert_eq!(
        app.lines,
        lines_from(&[
            "## DONE",
            "",
            "- [x] b @done(2026-09-01 10:01)",
            "- [x] a @done(2026-09-01 10:00)",
            "  note",
            "- [x] old",
        ])
    );
    // The last of them goes back to the end of Todo, block and all.
    app.cursor = 1;
    app.toggle_at("");
    assert_eq!(app.lines[..3], lines_from(&["- [ ] a", "  note", ""]));
}

#[test]
fn a_new_task_is_selected() {
    for hide_done in [false, true] {
        let mut app = app_from(&["# Todo", "- [x] x", "- [ ] a", "", "## Work", "- [ ] w"]);
        app.hide_done = hide_done;
        app.collapsed.insert("Work".to_string());
        app.add_todo("new");
        let it = app.current_item().unwrap();
        assert_eq!(app.lines[it.start], "- [ ] new");
        assert_eq!(app.section_end(0), it.start + 1);
    }
}

#[test]
fn a_new_subtask_is_selected() {
    let mut app = app_from(&["- [ ] a", "  - [x] s1", "  note", "  - [x] s2"]);
    app.add_subtask("new");
    assert_eq!(app.current_task_line(), Some(1));
    assert_eq!(app.lines[1], "  - [ ] new");
}

#[test]
fn down_and_up_again() {
    let mut app = start(0, None);
    app.expand_all = true;
    let mut seen = vec![(app.cursor, app.sub)];
    loop {
        app.nav_down();
        if seen.last() == Some(&(app.cursor, app.sub)) {
            break;
        }
        seen.push((app.cursor, app.sub));
    }
    assert_eq!(
        seen,
        vec![(0, None), (0, Some(0)), (0, Some(1)), (1, None), (2, None), (3, None)]
    );
    for place in seen.iter().rev() {
        assert_eq!((app.cursor, app.sub), *place);
        app.nav_up();
    }
}

#[test]
fn the_selection_is_brought_into_range() {
    for (cursor, sub) in [(9, None), (9, Some(3)), (0, Some(9)), (1, Some(0))] {
        let mut app = start(cursor, sub);
        app.clamp_cursor();
        assert!(app.cursor < app.entries().len());
        if let Some(k) = app.sub {
            let it = app.current_item().unwrap();
            assert!(k < app.sub_line_indices(it).len());
        }
        let (cursor, sub) = (app.cursor, app.sub);
        app.clamp_cursor();
        assert_eq!((app.cursor, app.sub), (cursor, sub));
    }
}

const HISTORY: &str = "## 2025-12\n\n- [x] older\n\n## 2026-09\n\n- [x] newer\n";

fn rotating() -> App {
    app_from(&[
        "- [ ] open",
        "",
        "## Done",
        "",
        "- [x] one @done(2026-08-30 14:32)",
        "  note",
        "- [x] two @done(2025-12-31 23:59)",
        "- [x] three @done(2026-08-31 00:00)",
        "- [x] kept @done(never)",
        "",
        "## Rest",
        "",
        "- [x] elsewhere @done(2020-01-01 00:00)",
    ])
}

fn cutoff() -> Moment {
    stamp_moment("2026-09-01 00:00").unwrap()
}

#[test]
fn rotation_loses_nothing_and_keeps_months_in_order() {
    let mut app = rotating();
    let before = app.file_text() + HISTORY;
    let after = app.rotate_before(cutoff(), HISTORY).unwrap();
    assert_eq!(
        after,
        "## 2025-12\n\n- [x] older\n\n- [x] two @done(2025-12-31 23:59)\n\n## 2026-08\n\n\
         - [x] one @done(2026-08-30 14:32)\n  note\n- [x] three @done(2026-08-31 00:00)\n\n\
         ## 2026-09\n\n- [x] newer\n"
    );
    assert_eq!(
        app.lines,
        lines_from(&[
            "- [ ] open",
            "",
            "## Done",
            "",
            "- [x] kept @done(never)",
            "",
            "## Rest",
            "",
            "- [x] elsewhere @done(2020-01-01 00:00)",
        ])
    );
    let now = app.file_text() + &after;
    let count = |text: &str, l: &str| text.lines().filter(|m| *m == l).count();
    for l in before.lines().filter(|l| !l.trim().is_empty()) {
        assert_eq!(count(&before, l), count(&now, l), "{l}");
    }
    let months: Vec<&str> = after.lines().filter(|l| l.starts_with("## ")).collect();
    assert_eq!(months, vec!["## 2025-12", "## 2026-08", "## 2026-09"]);
}

#[test]
fn tasks_that_roll_over_stand_behind_what_their_month_had() {
    let mut app = app_from(&[
        "## Done",
        "",
        "- [x] b @done(2026-02-02 00:00)",
        "- [x] c @done(2026-01-31 00:00)",
        "- [x] a @done(2026-02-01 00:00)",
        "  note",
    ]);
    let hist = "## 2026-01\n## 2026-02\n- [x] had\n## 2026-03\n- [x] last\n";
    let after = app.rotate_before(cutoff(), hist).unwrap();
    assert_eq!(
        after,
        "## 2026-01\n\n- [x] c @done(2026-01-31 00:00)\n\n## 2026-02\n\n- [x] had\n\
         - [x] b @done(2026-02-02 00:00)\n- [x] a @done(2026-02-01 00:00)\n  note\n\n\
         ## 2026-03\n\n- [x] last\n"
    );
}

#[test]
fn toggling_twice_gives_a_task_back() {
    let block = ["- [ ] a", "  note", "", "\t- [x] sub"];
    let mut lines = vec!["# Todo", ""];
    lines.extend(block);
    lines.extend(["- [ ] b", "", "## Later", "", "- [ ] c"]);
    let mut app = app_from(&lines);
    assert!(app.toggle());
    assert_eq!(app.heading_line("done"), Some(8));
    app.cursor = 2;
    assert!(app.lines[10].starts_with("- [x] a @done("));
    assert!(app.toggle());
    let mut want = vec!["# Todo", "", "- [ ] b"];
    want.extend(block);
    want.extend(["", "## Later", "", "- [ ] c", "", "## Done"]);
    assert_eq!(app.lines, lines_from(&want));
    assert_eq!(app.lines[app.todo_end() - 1], "\t- [x] sub");
}

#[test]
fn rotation_once_is_enough() {
    let mut app = rotating();
    let after = app.rotate_before(cutoff(), HISTORY).unwrap();
    let lines = app.lines.clone();
    assert_eq!(app.rotate_before(cutoff(), &after), None);
    assert_eq!(app.lines, lines);
    // Without a Done section nothing rolls over.
    let mut none = app_from(&["- [x] a @done(2020-01-01 00:00)"]);
    assert_eq!(none.rotate_before(cutoff(), ""), None);
}

#[test]
fn a_task_rolls_over_only_before_the_cutoff() {
    for (stamp, gone) in [("2026-08-31 23:59", true), ("2026-09-01 00:00", false)] {
        let mut app = app_from(&["## Done", &format!("- [x] a @done({stamp})")]);
        assert_eq!(app.rotate_before(cutoff(), "").is_some(), gone);
    }
}

#[test]
fn notes_survive_being_opened_and_closed() {
    let lines = ["- [ ] a", "  one", "", "    - [ ] two", "  three", "- [ ] b"];
    let mut app = app_from(&lines);
    app.open_notes();
    let text = app.notes.as_ref().unwrap().text.clone();
    assert!(app.close_notes(&text));
    assert_eq!(app.lines, lines_from(&lines));
    // A task without notes has an empty line in the editor.
    app.cursor = 1;
    app.open_notes();
    assert_eq!(app.notes.as_ref().unwrap().indent, 2);
    assert!(app.close_notes(&lines_from(&[""])));
    assert_eq!(app.lines, lines_from(&lines));
    assert!(!app.close_notes(&Vec::new()));
}

#[test]
fn unedited_notes_keep_their_indentation() {
    let lines = ["- [ ] a", "\tnote"];
    let mut app = app_from(&lines);
    app.open_notes();
    let text = app.notes.as_ref().unwrap().text.clone();
    assert_eq!(text, lines_from(&["note"]));
    assert!(app.close_notes(&text));
    assert_eq!(app.lines, lines_from(&lines));
    // Lines before and behind an edit stay; what is new is indented by spaces.
    let mixed = ["- [ ] a", "\tnote", " \tmixed", "\tlast"];
    let mut app = app_from(&mixed);
    app.open_notes();
    let notes = app.notes.as_ref().unwrap();
    assert_eq!(notes.text, lines_from(&["note", "\tmixed", "last"]));
    assert_eq!(notes.margin, lines_from(&["\t", " ", "\t"]));
    assert!(app.close_notes(&lines_from(&["note", "new", "last"])));
    assert_eq!(app.lines, lines_from(&["- [ ] a", "\tnote", " new", "\tlast"]));
    // So do lines that changed places.
    let mut app = app_from(&mixed);
    app.open_notes();
    assert!(app.close_notes(&lines_from(&["last", "", "\tmixed", "note"])));
    assert_eq!(
        app.lines,
        lines_from(&["- [ ] a", "\tlast", "", " \tmixed", "\tnote"])
    );
}

#[test]
fn a_line_typed_once_more_is_new() {
    let mut app = app_from(&["- [ ] a", "\tnote"]);
    app.open_notes();
    assert!(app.close_notes(&lines_from(&["note", "note"])));
    assert_eq!(app.lines, lines_from(&["- [ ] a", "\tnote", " note"]));
    // Lines that changed places take their indentation along, one each.
    let mut app = app_from(&["- [ ] a", "\tx", " y", "\tz", "\u{b}x"]);
    app.open_notes();
    assert!(app.close_notes(&lines_from(&["y", "x", "x", "x", "z"])));
    assert_eq!(
        app.lines,
        lines_from(&["- [ ] a", " y", "\tx", "\u{b}x", " x", "\tz"])
    );
}

#[test]
fn entries_come_in_file_order() {
    let app = app_from(&LINES);
    let at: Vec<usize> = app
        .entries()
        .iter()
        .map(|e| match e {
            locdo::app::Entry::Task(it) => it.start,
            locdo::app::Entry::Section(h) => *h,
        })
        .collect();
    assert_eq!(at, vec![2, 5, 10, 16]);
}

#[test]
fn lines_that_are_no_tasks_survive() {
    let count = |lines: &Vec<String>, l: &str| lines.iter().filter(|m| m.as_str() == l).count();
    for (cursor, sub) in starts() {
        for key in all_keys() {
            if key.code == KeyCode::Char('X') {
                continue;
            }
            let mut app = start(cursor, sub);
            let before = app.lines.clone();
            app.press_at(key, &Vec::new(), None, "2026-09-01 10:00");
            for l in before.iter().filter(|l| !l.is_empty() && task_info(l).is_none()) {
                assert_eq!(count(&before, l), count(&app.lines, l), "{key:?} {l}");
            }
        }
    }
}
