//! What is shown.
use locdo::app::{App, InputKind};
use locdo::rows::Row;
use locdo::screen::{
    history_tone, menu_area, popup, prompt_area, prompt_title, row_pieces, selected_row, Area,
    Tone,
};

fn app_from(lines: &[&str]) -> App {
    App::with_lines(lines.iter().map(|s| s.to_string()).collect())
}

fn shown(row: &Row, width: usize) -> Vec<(String, Tone)> {
    row_pieces(row, width).into_iter().map(|p| (p.text, p.tone)).collect()
}

fn text_of(row: &Row) -> String {
    match row {
        Row::Header(text) => format!("# {text}"),
        Row::Task { text, done, subs, has_notes, .. } => {
            format!("task {text} {done} {subs:?} {has_notes}")
        }
        Row::Sub { text, done } => format!("sub {text} {done}"),
        Row::CollapsedSection { name, done, total } => format!("+ {name} {done}/{total}"),
    }
}

fn texts_of(app: &App) -> Vec<String> {
    app.rows().iter().map(text_of).collect()
}

const LINES: [&str; 10] = [
    "# Todo",
    "- [ ] a",
    "  - [x] a1 @done(x)",
    "  - [ ] a2",
    "- [ ] b",
    "  note",
    "  - [ ] b1",
    "## Done",
    "- [x] d @done(2026-08-30 14:32)",
    "text",
];

#[test]
fn rows_of_the_list() {
    let mut app = app_from(&LINES);
    assert_eq!(
        texts_of(&app),
        vec![
            "# Todo",
            "task a false Some((1, 2)) false",
            "sub a1 @done(x) true",
            "sub a2 false",
            "task b false Some((0, 1)) true",
            "# Done",
            "task d true None false",
        ]
    );
    app.cursor = 2;
    app.hide_done = true;
    assert_eq!(
        texts_of(&app),
        vec!["# Todo", "task a false Some((1, 2)) false", "task b false Some((0, 1)) true"]
    );
    app.hide_done = false;
    app.collapsed.insert("Done".to_string());
    assert_eq!(
        texts_of(&app),
        vec![
            "# Todo",
            "task a false Some((1, 2)) false",
            "task b false Some((0, 1)) true",
            "+ Done 1/1",
        ]
    );
    app.expand_all = true;
    app.hide_done = true;
    assert_eq!(texts_of(&app).len(), 6);
}

#[test]
fn the_selected_row() {
    let mut app = app_from(&LINES);
    let at = |app: &App| selected_row(&app.rows(), app.cursor, app.sub);
    assert_eq!(at(&app), Some(1));
    app.sub = Some(1);
    assert_eq!(at(&app), Some(3));
    app.sub = None;
    app.cursor = 1;
    assert_eq!(at(&app), Some(2));
    app.cursor = 2;
    assert_eq!(at(&app), Some(4));
    app.collapsed.insert("Done".to_string());
    assert_eq!(at(&app), Some(3));
    app.cursor = 3;
    assert_eq!(at(&app), None);
    // As many stops as there are entries.
    let stops = app
        .rows()
        .iter()
        .filter(|r| matches!(r, Row::Task { .. } | Row::CollapsedSection { .. }))
        .count();
    assert_eq!(stops, app.entries().len());
}

#[test]
fn pieces_of_rows() {
    let row = Row::Task {
        text: "Fix bug".to_string(),
        done: true,
        stamp: Some("2026-08-30 14:32".to_string()),
        subs: Some((1, 3)),
        has_notes: true,
    };
    // Four for the box, seven, five and three for text, count and marker, thirteen for the
    // stamp.
    assert_eq!(
        shown(&row, 40),
        vec![
            ("[x] ".to_string(), Tone::Gray),
            ("Fix bug".to_string(), Tone::Struck),
            ("  1/3".to_string(), Tone::Gray),
            ("  ≡".to_string(), Tone::Gray),
            (" ".repeat(8), Tone::Plain),
            ("Aug 30, 14:32".to_string(), Tone::Faint),
        ]
    );
    for width in [0, 10, 32, 33] {
        assert_eq!(shown(&row, width)[4].0, " ");
    }
    assert_eq!(shown(&row, 34)[4].0, "  ");
    let open = Row::Task {
        text: "ä".to_string(),
        done: false,
        stamp: None,
        subs: None,
        has_notes: false,
    };
    assert_eq!(
        shown(&open, 40),
        vec![("[ ] ".to_string(), Tone::Green), ("ä".to_string(), Tone::Plain)]
    );
    assert_eq!(
        shown(&Row::Sub { text: "s".to_string(), done: true }, 9),
        vec![
            ("    ".to_string(), Tone::Plain),
            ("[x] ".to_string(), Tone::Gray),
            ("s".to_string(), Tone::Struck),
        ]
    );
    assert_eq!(
        shown(&Row::Header("Later".to_string()), 9),
        vec![("Later".to_string(), Tone::CyanBold)]
    );
    assert_eq!(
        shown(&Row::CollapsedSection { name: "Later".to_string(), done: 2, total: 10 }, 9),
        vec![
            ("▸ ".to_string(), Tone::Cyan),
            ("Later".to_string(), Tone::CyanBold),
            ("  2/10".to_string(), Tone::Gray),
        ]
    );
}

#[test]
fn titles_and_footers() {
    let mut app = app_from(&LINES);
    assert_eq!(app.title("todo.md"), " todo.md — 1/3 done ");
    app.hide_done = true;
    assert_eq!(app.title("x"), " x — 1/3 done (hiding done) ");
    assert!(app.footer().starts_with(" j/k move · space done"));
    app.status = "added".to_string();
    assert_eq!(app.footer(), " added");
    app.open_input(InputKind::NewTask);
    assert_eq!(app.footer(), " enter save · esc cancel");
    app.input = None;
    app.open_move_menu();
    assert_eq!(app.footer(), " j/k choose · enter move · esc cancel");
    app.quit_confirm = Some(true);
    assert_eq!(app.footer(), " q/esc/y quit · n stay · h/l choose · enter select");
    app.show_help = true;
    assert_eq!(app.footer(), " any key to close");
    app.open_notes();
    assert_eq!(app.title("x"), " notes: a ");
    assert!(app.footer().starts_with(" shift+tab save & close"));
    app.show_history("x");
    assert_eq!(app.title("x"), " done history (read-only) ");
    assert_eq!(app.footer(), " j/k scroll · g/G top/bottom · D or q close");
    assert_eq!(prompt_title(InputKind::NewTask), " new todo ");
    assert_eq!(prompt_title(InputKind::NewSub), " new subtask ");
    assert_eq!(prompt_title(InputKind::NewSection), " new section ");
    assert_eq!(prompt_title(InputKind::Edit), " edit ");
}

#[test]
fn tones_of_the_history() {
    assert_eq!(history_tone("## 2026-08"), Tone::CyanBold);
    assert_eq!(history_tone("- [x] a"), Tone::Plain);
    assert_eq!(history_tone("  note"), Tone::Gray);
}

#[test]
fn areas_of_popups() {
    let main = Area { x: 2, y: 1, width: 80, height: 23 };
    assert_eq!(popup(main, 26, 3), Area { x: 29, y: 11, width: 26, height: 3 });
    assert_eq!(popup(main, 100, 100), main);
    assert_eq!(prompt_area(main), Area { x: 2, y: 21, width: 80, height: 3 });
    let low = Area { x: 0, y: 0, width: 10, height: 2 };
    assert_eq!(prompt_area(low), low);
    assert_eq!(menu_area(main, 5), Area { x: 24, y: 9, width: 36, height: 7 });
    assert_eq!(menu_area(main, 65536), Area { x: 24, y: 11, width: 36, height: 2 });
}
