//! What the keys do.
use locdo::app::{App, InputKind};
use locdo::keys::{changed_on_disk, command, Action, Command, Key, KeyCode};

fn lines_from(lines: &[&str]) -> Vec<String> {
    lines.iter().map(|s| s.to_string()).collect()
}

fn app_from(lines: &[&str]) -> App {
    App::with_lines(lines_from(lines))
}

fn key(code: KeyCode) -> Key {
    Key { code, shift: false, control: false }
}

fn press(app: &mut App, code: KeyCode) -> Action {
    typed(app, code, &[])
}

fn typed(app: &mut App, code: KeyCode, lines: &[&str]) -> Action {
    assert!(app.ready_for(key(code)));
    app.press_at(key(code), &lines_from(lines), Some(24), "2026-08-30 14:32")
}

#[test]
fn keys_of_the_list() {
    let plain = |c: char| command(key(KeyCode::Char(c)));
    assert_eq!(plain('z'), Command::Nothing);
    assert_eq!(
        command(Key { code: KeyCode::Char('z'), shift: false, control: true }),
        Command::Undo
    );
    for (c, what) in [
        ('q', Command::Quit),
        ('j', Command::Down),
        ('k', Command::Up),
        ('J', Command::MoveDown),
        ('K', Command::MoveUp),
        ('n', Command::NewTask),
        ('N', Command::NewTask),
        ('s', Command::NewSub),
        ('e', Command::Edit),
        ('X', Command::Delete),
        ('c', Command::Collapse),
        ('A', Command::Archive),
        ('m', Command::Move),
        ('M', Command::Move),
        ('O', Command::Expand),
        ('~', Command::Help),
        ('S', Command::Sync),
        ('D', Command::History),
        (' ', Command::Toggle),
        ('l', Command::Later),
        ('h', Command::HideDone),
        ('g', Command::Top),
        ('G', Command::Bottom),
        ('r', Command::Reload),
        ('y', Command::Nothing),
    ] {
        assert_eq!(plain(c), what, "{c}");
    }
    let shifted = |code: KeyCode| command(Key { code, shift: true, control: false });
    assert_eq!(command(key(KeyCode::Down)), Command::Down);
    assert_eq!(command(key(KeyCode::Up)), Command::Up);
    assert_eq!(shifted(KeyCode::Down), Command::MoveDown);
    assert_eq!(shifted(KeyCode::Up), Command::MoveUp);
    assert_eq!(shifted(KeyCode::Char('J')), Command::MoveDown);
    assert_eq!(shifted(KeyCode::Char('j')), Command::Nothing);
    assert_eq!(command(key(KeyCode::Tab)), Command::Notes);
    assert_eq!(command(key(KeyCode::Enter)), Command::Toggle);
    assert_eq!(command(key(KeyCode::Esc)), Command::Quit);
    assert_eq!(command(key(KeyCode::BackTab)), Command::Nothing);
    assert_eq!(command(key(KeyCode::Left)), Command::Nothing);
}

#[test]
fn a_task_is_typed_completed_and_taken_back() {
    let mut app = app_from(&["# Todo"]);
    assert_eq!(press(&mut app, KeyCode::Char('n')), Action::Nothing);
    assert_eq!(app.input.as_ref().unwrap().kind, InputKind::NewTask);
    assert_eq!(press(&mut app, KeyCode::Char('x')), Action::Edit);
    assert_eq!(typed(&mut app, KeyCode::Enter, &[" buy", "milk "]), Action::Save);
    assert_eq!(app.lines, lines_from(&["# Todo", "", "- [ ] buy milk"]));
    assert_eq!(app.status, "added");
    assert_eq!(press(&mut app, KeyCode::Char(' ')), Action::Save);
    assert_eq!(app.lines[4], "- [x] buy milk @done(2026-08-30 14:32)");
    let undo = Key { code: KeyCode::Char('z'), shift: false, control: true };
    assert_eq!(app.press_at(undo, &Vec::new(), None, ""), Action::Save);
    assert_eq!(app.lines, lines_from(&["# Todo", "", "- [ ] buy milk"]));
    assert_eq!(app.press_at(undo, &Vec::new(), None, ""), Action::Save);
    assert_eq!(app.lines, lines_from(&["# Todo"]));
    assert_eq!(app.press_at(undo, &Vec::new(), None, ""), Action::Nothing);
    assert_eq!(app.status, "nothing to undo");
}

#[test]
fn a_task_is_completed_at_the_present_time() {
    let mut app = app_from(&["- [ ] now"]);
    let action = app.press(key(KeyCode::Enter), &Vec::new(), None);
    assert_eq!(action, Action::Save);
    assert!(app.lines[2].starts_with("- [x] now @done(2"));
    assert_eq!(app.lines[2].len(), "- [x] now @done(2026-08-30 14:32)".len());
}

#[test]
fn prompts_are_cancelled() {
    let mut app = app_from(&["- [ ] a @done(x)"]);
    press(&mut app, KeyCode::Char('e'));
    assert_eq!(app.input.as_ref().unwrap().text, "a");
    assert_eq!(press(&mut app, KeyCode::Esc), Action::Nothing);
    assert!(app.input.is_none());
    assert_eq!(app.status, "cancelled");
    press(&mut app, KeyCode::Char('s'));
    assert_eq!(typed(&mut app, KeyCode::Enter, &["  "]), Action::Nothing);
    assert_eq!(app.status, "cancelled");
    press(&mut app, KeyCode::Char('e'));
    assert_eq!(typed(&mut app, KeyCode::Enter, &["b"]), Action::Save);
    assert_eq!(app.lines, lines_from(&["- [ ] b @done(x)"]));
    assert_eq!(app.status, "edited");
    // A subtask needs a task.
    let mut none = app_from(&["text"]);
    press(&mut none, KeyCode::Char('s'));
    assert!(none.input.is_none());
}

#[test]
fn quitting_is_asked_twice() {
    let mut app = app_from(&[]);
    assert_eq!(press(&mut app, KeyCode::Char('q')), Action::Nothing);
    assert_eq!(app.quit_confirm, Some(true));
    assert_eq!(press(&mut app, KeyCode::Char('h')), Action::Nothing);
    assert_eq!(app.quit_confirm, Some(false));
    assert_eq!(press(&mut app, KeyCode::Enter), Action::Nothing);
    assert_eq!(app.quit_confirm, None);
    for code in [KeyCode::Char('q'), KeyCode::Esc, KeyCode::Char('y'), KeyCode::Enter] {
        app.quit_confirm = Some(true);
        assert_eq!(press(&mut app, code), Action::Quit);
    }
    app.quit_confirm = Some(true);
    assert_eq!(press(&mut app, KeyCode::Char('n')), Action::Nothing);
    assert_eq!(app.quit_confirm, None);
}

#[test]
fn the_menu_by_keys() {
    let mut app = app_from(&["- [ ] a", "", "## Work"]);
    assert_eq!(press(&mut app, KeyCode::Char('m')), Action::Nothing);
    press(&mut app, KeyCode::Char('k'));
    assert_eq!(app.move_menu.as_ref().unwrap().sel, 0);
    for _ in 0..9 {
        press(&mut app, KeyCode::Down);
    }
    assert_eq!(app.move_menu.as_ref().unwrap().sel, 3);
    // The last choice asks for a name.
    assert_eq!(press(&mut app, KeyCode::Enter), Action::Nothing);
    assert_eq!(app.input.as_ref().unwrap().kind, InputKind::NewSection);
    assert_eq!(typed(&mut app, KeyCode::Enter, &["Home"]), Action::Save);
    assert_eq!(app.lines, lines_from(&["## Work", "", "## Home", "", "- [ ] a"]));
    press(&mut app, KeyCode::Char('m'));
    assert_eq!(press(&mut app, KeyCode::Enter), Action::Save);
    assert_eq!(app.lines, lines_from(&["- [ ] a", "", "## Work", "", "## Home"]));
    press(&mut app, KeyCode::Char('m'));
    press(&mut app, KeyCode::Esc);
    assert!(app.move_menu.is_none());
    assert_eq!(app.status, "cancelled");
}

#[test]
fn the_history_scrolls() {
    let mut app = app_from(&[]);
    assert_eq!(press(&mut app, KeyCode::Char('D')), Action::History);
    // On a screen of 24 columns a line of 20 fills a row and counts for two.
    app.show_history(&format!("{}\nshort\n", "x".repeat(20)));
    for (code, scroll) in [
        (KeyCode::Char('k'), 0),
        (KeyCode::Char('j'), 1),
        (KeyCode::Down, 2),
        (KeyCode::Down, 2),
        (KeyCode::Up, 1),
        (KeyCode::Char('G'), 2),
        (KeyCode::Char('g'), 0),
        (KeyCode::Char('x'), 0),
    ] {
        assert_eq!(press(&mut app, code), Action::Nothing);
        assert_eq!(app.history.as_ref().unwrap().scroll, scroll);
    }
    press(&mut app, KeyCode::Char('D'));
    assert!(app.history.is_none());
    // Where the size is not known, 76 columns are taken; on a narrow screen one.
    app.show_history(&"y".repeat(76));
    app.press_at(key(KeyCode::Char('G')), &Vec::new(), None, "");
    assert_eq!(app.history.as_ref().unwrap().scroll, 1);
    app.press_at(key(KeyCode::Char('G')), &Vec::new(), Some(3), "");
    assert_eq!(app.history.as_ref().unwrap().scroll, 76);
    app.tell_no_history(None);
    assert_eq!(app.status, "no done history yet");
    app.tell_no_history(Some("denied"));
    assert_eq!(app.status, "done history: denied");
}

#[test]
fn an_empty_history_does_not_scroll() {
    let mut app = app_from(&[]);
    app.show_history("");
    press(&mut app, KeyCode::Char('G'));
    assert_eq!(app.history.as_ref().unwrap().scroll, 0);
}

#[test]
fn notes_by_keys() {
    let mut app = app_from(&["- [ ] a", "  one", "", "    two", "- [ ] b"]);
    assert_eq!(press(&mut app, KeyCode::Tab), Action::Nothing);
    let notes = app.notes.as_ref().unwrap();
    assert_eq!(notes.title, "a");
    assert_eq!(notes.text, lines_from(&["one", "", "  two"]));
    assert_eq!((notes.start, notes.child_len, notes.indent), (0, 3, 2));
    assert_eq!(press(&mut app, KeyCode::Enter), Action::Edit);
    assert_eq!(
        typed(&mut app, KeyCode::BackTab, &["one", " ", "- [ ] sub", ""]),
        Action::Save
    );
    assert_eq!(
        app.lines,
        lines_from(&["- [ ] a", "  one", "", "  - [ ] sub", "- [ ] b"])
    );
    assert_eq!(app.status, "notes saved");
}

#[test]
fn notes_that_cannot_be_opened() {
    // The least indentation is one byte, in the middle of a wide blank's three.
    let mut app = app_from(&["- [ ] a", "\u{3000}wide", " narrow"]);
    assert!(!app.can_open_notes());
    assert!(!app.ready_for(key(KeyCode::Tab)));
    assert!(app.ready_for(key(KeyCode::Enter)));
    app.cursor = 5;
    assert!(app.can_open_notes());
    let mut wide = app_from(&["- [ ] a", "\u{3000}one", "\u{3000} two"]);
    assert_eq!(press(&mut wide, KeyCode::Tab), Action::Nothing);
    assert_eq!(wide.notes.as_ref().unwrap().text, lines_from(&["one", " two"]));
    assert_eq!(wide.notes.as_ref().unwrap().indent, 3);
}

#[test]
fn switches_of_the_list() {
    let mut app = app_from(&["- [ ] a", "  - [ ] s", "- [x] d", "- [ ] b"]);
    press(&mut app, KeyCode::Char('O'));
    assert!(app.expand_all);
    assert_eq!(app.status, "expanded all");
    app.sub = Some(0);
    press(&mut app, KeyCode::Char('O'));
    assert_eq!((app.expand_all, app.sub), (false, None));
    assert_eq!(app.status, "collapsed");
    press(&mut app, KeyCode::Char('G'));
    assert_eq!(app.cursor, 2);
    press(&mut app, KeyCode::Char('h'));
    assert!(app.hide_done);
    assert_eq!(app.cursor, 1);
    press(&mut app, KeyCode::Char('g'));
    assert_eq!(app.cursor, 0);
    press(&mut app, KeyCode::Char('~'));
    assert!(app.show_help);
    assert_eq!(press(&mut app, KeyCode::Char('X')), Action::Nothing);
    assert!(!app.show_help);
    assert_eq!(app.lines.len(), 4);
    assert_eq!(press(&mut app, KeyCode::Char('X')), Action::Save);
    assert_eq!(app.lines.len(), 2);
}

#[test]
fn a_collapsed_section_is_expanded_by_enter() {
    let mut app = app_from(&["## Later", "", "- [ ] a"]);
    assert_eq!(press(&mut app, KeyCode::Char('c')), Action::Nothing);
    assert!(app.collapsed.contains("Later"));
    assert_eq!(press(&mut app, KeyCode::Enter), Action::Nothing);
    assert!(app.collapsed.is_empty());
    app.collapsed.insert("Later".to_string());
    assert_eq!(press(&mut app, KeyCode::Char('A')), Action::Archive);
}

#[test]
fn what_follows_a_key() {
    let mut app = app_from(&["- [ ] a", "  - [ ] s"]);
    app.sub = Some(0);
    assert!(app.may_reload());
    assert_eq!(press(&mut app, KeyCode::Char('r')), Action::Reload);
    app.reload_asked("- [ ] b\n  - [ ] s\n");
    assert_eq!((app.sub, app.status.as_str()), (None, "reloaded"));
    app.reload_changed("- [ ] c\n");
    assert_eq!(app.status, "reloaded (changed on disk)");
    assert_eq!(press(&mut app, KeyCode::Char('S')), Action::Sync);
    app.tell_sync("pushed", Some("- [ ] d\n"));
    assert_eq!((app.lines[0].as_str(), app.status.as_str()), ("- [ ] d", "sync: pushed"));
    app.tell_sync("no", None);
    assert_eq!((app.lines[0].as_str(), app.status.as_str()), ("- [ ] d", "sync: no"));
    press(&mut app, KeyCode::Char('n'));
    assert!(!app.may_reload());
}

#[test]
fn changes_on_disk() {
    assert!(changed_on_disk(None, Some(1)));
    assert!(changed_on_disk(Some(1), Some(2)));
    assert!(!changed_on_disk(Some(1), Some(1)));
    assert!(!changed_on_disk(Some(1), None));
    assert!(!changed_on_disk(None, None));
}
