//! The todo file's text and the lines in it.
use locdo::app::{App, STARTER};

fn lines_from(lines: &[&str]) -> Vec<String> {
    lines.iter().map(|s| s.to_string()).collect()
}

#[test]
fn the_starter_file() {
    let app = App::load(STARTER);
    assert_eq!(
        app.lines,
        lines_from(&["# Todo", "", "- [ ] Add your first item", "", "## Later", "", "## Done"])
    );
    assert_eq!(app.file_text(), STARTER);
    assert!(!app.crlf);
}

#[test]
fn line_ends_are_kept() {
    let text = "# Todo\r\n\r\n- [ ] a\r\n";
    let app = App::load(text);
    assert!(app.crlf);
    assert_eq!(app.lines, lines_from(&["# Todo", "", "- [ ] a"]));
    assert_eq!(app.file_text(), text);
    // One such end is enough for all.
    let mixed = App::load("a\nb\r\nc");
    assert_eq!(mixed.file_text(), "a\r\nb\r\nc\r\n");
}

#[test]
fn lines_are_split_as_they_end() {
    assert_eq!(App::load("a\n\nb").lines, lines_from(&["a", "", "b"]));
    assert_eq!(App::load("a\n\n").lines, lines_from(&["a", ""]));
    assert_eq!(App::load("").lines, Vec::<String>::new());
    assert_eq!(App::load("\n").lines, lines_from(&[""]));
    // A carriage return is part of the end only before a newline, and at most twice.
    assert_eq!(App::load("a\rb\r").lines, lines_from(&["a\rb\r"]));
    assert_eq!(App::load("a\r\r\nb").lines, lines_from(&["a", "b"]));
    assert_eq!(App::load("a\r\r\r\nb").lines, lines_from(&["a\r", "b"]));
}

#[test]
fn what_is_written_is_read() {
    for crlf in [false, true] {
        let lines = lines_from(&["# Todo", "", "- [ ] a  ", "\tnote – ünï", "#x"]);
        let mut app = App::with_lines(lines);
        app.crlf = crlf;
        let again = App::load(&app.file_text());
        assert_eq!(again.lines, app.lines);
        assert_eq!(again.crlf, crlf);
    }
    // No lines at all are written as an empty one.
    assert_eq!(App::with_lines(Vec::new()).file_text(), "\n");
}

#[test]
fn reading_keeps_the_selection_within_what_there_is() {
    let mut app = App::load("- [ ] a\n- [ ] b\n  - [ ] s1\n  - [ ] s2\n");
    app.cursor = 1;
    app.sub = Some(1);
    app.reload("- [ ] a\n- [ ] b\n  - [ ] s1\n");
    assert_eq!((app.cursor, app.sub), (1, Some(0)));
    app.reload("- [ ] a\n");
    assert_eq!((app.cursor, app.sub), (0, None));
    app.reload("text\n");
    assert_eq!((app.cursor, app.sub), (0, None));
}
