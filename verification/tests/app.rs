//! What the application does to the todo file.
use chrono::Local;
use locdo::app::{App, Entry, MoveDest};
use locdo::task::SectionKind;

fn lines_from(lines: &[&str]) -> Vec<String> {
    lines.iter().map(|s| s.to_string()).collect()
}

fn app_from(lines: &[&str]) -> App {
    App::with_lines(lines_from(lines))
}

#[test]
fn toggle_moves_to_done_top_and_back() {
    let mut app = app_from(&[
        "# Todo",
        "",
        "- [ ] first",
        "- [ ] second",
        "",
        "## Done",
        "",
        "- [x] older @done(2026-08-29 09:00)",
    ]);
    assert!(app.toggle());
    let done_h = app.heading_line("done").unwrap();
    let top = &app.lines[app.after_heading(done_h)];
    assert!(top.starts_with("- [x] first @done("), "got: {top}");
    // untoggle it: it is now the second visible item (second, then first)
    app.cursor = 1;
    assert!(app.toggle());
    let todo_tasks: Vec<_> = app
        .visible_items()
        .iter()
        .filter(|it| !it.done)
        .map(|it| app.lines[it.start].clone())
        .collect();
    assert_eq!(todo_tasks, vec!["- [ ] second", "- [ ] first"]);
}

#[test]
fn cycle_later_round_trips() {
    let mut app = app_from(&["# Todo", "", "- [ ] a", "- [ ] b", "", "## Later"]);
    assert!(app.cycle_later());
    assert_eq!(
        app.section_at(app.heading_line("later").unwrap() + 2),
        SectionKind::Later
    );
    let vis = app.visible_items();
    assert_eq!(app.lines[vis[1].start], "- [ ] a");
    assert_eq!(app.section_at(vis[1].start), SectionKind::Later);
    // move it back
    app.cursor = 1;
    assert!(app.cycle_later());
    let vis = app.visible_items();
    assert_eq!(app.lines[vis[1].start], "- [ ] a");
    assert_eq!(app.section_at(vis[1].start), SectionKind::Todo);
}

#[test]
fn add_todo_appends_to_todo_section() {
    let mut app = app_from(&["# Todo", "", "- [ ] a", "", "## Later", "", "- [ ] l1"]);
    assert!(app.add_todo("new task"));
    let vis = app.visible_items();
    assert_eq!(app.lines[vis[1].start], "- [ ] new task");
    assert_eq!(app.section_at(vis[1].start), SectionKind::Todo);
    assert_eq!(app.cursor, 1);
}

#[test]
fn delete_removes_item_with_children() {
    let mut app = app_from(&[
        "# Todo",
        "",
        "- [ ] parent",
        "  note line",
        "  - [ ] sub",
        "",
        "- [ ] second",
    ]);
    assert!(app.delete_current());
    assert!(!app.lines.iter().any(|l| l.contains("parent")));
    assert!(!app.lines.iter().any(|l| l.contains("note line")));
    assert!(!app.lines.iter().any(|l| l.contains("sub")));
    let vis = app.visible_items();
    assert_eq!(vis.len(), 1);
    assert_eq!(app.lines[vis[0].start], "- [ ] second");
}

#[test]
fn edit_title_preserves_children_and_stamp() {
    let mut app = app_from(&[
        "# Todo",
        "",
        "- [ ] old title",
        "  note line",
        "",
        "## Done",
        "",
        "- [x] finished @done(2026-08-29 09:00)",
    ]);
    assert!(app.edit_title("new title"));
    let vis = app.visible_items();
    assert_eq!(app.lines[vis[0].start], "- [ ] new title");
    assert_eq!(app.lines[vis[0].start + 1], "  note line");

    app.cursor = 1;
    assert!(app.edit_title("renamed"));
    let vis = app.visible_items();
    assert_eq!(
        app.lines[vis[1].start],
        "- [x] renamed @done(2026-08-29 09:00)"
    );
}

#[test]
fn nav_walks_into_subs_of_current_item_only() {
    let mut app = app_from(&[
        "# Todo",
        "",
        "- [ ] a",
        "  - [ ] a1",
        "  - [ ] a2",
        "",
        "- [ ] b",
    ]);
    app.nav_down();
    assert_eq!((app.cursor, app.sub), (0, Some(0)));
    app.nav_down();
    assert_eq!((app.cursor, app.sub), (0, Some(1)));
    app.nav_down();
    assert_eq!((app.cursor, app.sub), (1, None));
    // collapsed: moving up lands on a's main line, not its subs
    app.nav_up();
    assert_eq!((app.cursor, app.sub), (0, None));
    // expand_all: moving up from b lands on a's last sub
    app.expand_all = true;
    app.cursor = 1;
    app.sub = None;
    app.nav_up();
    assert_eq!((app.cursor, app.sub), (0, Some(1)));
}

#[test]
fn sub_toggle_sinks_below_open_subs_and_stays_in_block() {
    let mut app = app_from(&[
        "# Todo",
        "",
        "- [ ] p",
        "  - [ ] s1",
        "  - [ ] s2",
        "  - [ ] s3",
        "",
        "## Done",
    ]);
    app.sub = Some(0);
    assert!(app.toggle_sub());
    assert_eq!(app.lines[3], "  - [ ] s2");
    assert_eq!(app.lines[4], "  - [ ] s3");
    assert_eq!(app.lines[5], "  - [x] s1");
    assert_eq!(app.sub, Some(2));
    // parent block untouched: still one top-level item, nothing in Done
    assert_eq!(app.visible_items().len(), 1);
    assert_eq!(app.section_at(5), SectionKind::Todo);
    // untoggle: floats back to end of the open group
    assert!(app.toggle_sub());
    assert_eq!(app.lines[3], "  - [ ] s2");
    assert_eq!(app.lines[4], "  - [ ] s3");
    assert_eq!(app.lines[5], "  - [ ] s1");
    assert_eq!(app.sub, Some(2));
}

#[test]
fn add_subtask_goes_after_open_subs_before_done() {
    let mut app = app_from(&[
        "# Todo",
        "",
        "- [ ] p",
        "  - [ ] open1",
        "  - [x] done1",
        "",
        "- [ ] q",
    ]);
    assert!(app.add_subtask("newsub"));
    assert_eq!(app.lines[3], "  - [ ] open1");
    assert_eq!(app.lines[4], "  - [ ] newsub");
    assert_eq!(app.lines[5], "  - [x] done1");
    assert_eq!(app.sub, Some(1));

    // no subtasks yet: goes directly beneath the parent line, above notes
    let mut app2 = app_from(&["# Todo", "", "- [ ] p", "  note line"]);
    assert!(app2.add_subtask("first"));
    assert_eq!(app2.lines[3], "  - [ ] first");
    assert_eq!(app2.lines[4], "  note line");
}

#[test]
fn todo_end_stops_before_custom_sections() {
    let app = app_from(&[
        "# Todo",
        "",
        "- [ ] inbox1",
        "",
        "## Groceries",
        "",
        "- [ ] milk",
        "",
        "## Done",
    ]);
    assert_eq!(app.todo_end(), 3);
}

#[test]
fn move_to_section_appends_and_creates() {
    let mut app = app_from(&[
        "# Todo",
        "",
        "- [ ] task a",
        "",
        "## Groceries",
        "",
        "- [ ] milk",
    ]);
    assert!(app.move_current_to(&MoveDest::Section("Groceries".into())));
    let g = app.heading_line("groceries").unwrap();
    assert_eq!(app.lines[g + 2], "- [ ] milk");
    assert_eq!(app.lines[g + 3], "- [ ] task a");

    // moving to a section that doesn't exist creates it
    app.cursor = 0; // milk
    assert!(app.move_current_to(&MoveDest::Section("Work".into())));
    let w = app.heading_line("work").unwrap();
    assert_eq!(app.lines[w + 2], "- [ ] milk");
    assert_eq!(
        app.section_at(app.heading_line("groceries").unwrap() + 2),
        SectionKind::Todo
    );
}

#[test]
fn entries_include_collapsed_sections_as_single_stop() {
    let mut app = app_from(&[
        "# Todo",
        "",
        "- [ ] a",
        "",
        "## Later",
        "",
        "- [ ] l1",
        "",
        "## Done",
        "",
        "- [x] d1",
    ]);
    let e = app.entries();
    assert_eq!(e.len(), 3);
    assert!(e.iter().all(|x| matches!(x, Entry::Task(_))));
    app.collapsed.insert("Later".to_string());
    let e = app.entries();
    assert_eq!(e.len(), 3);
    assert!(matches!(e[0], Entry::Task(_)));
    assert!(matches!(e[1], Entry::Section(4)));
    assert!(matches!(e[2], Entry::Task(_)));
}

#[test]
fn collapse_key_targets_containing_section() {
    let mut app = app_from(&[
        "# Todo",
        "",
        "- [ ] inbox",
        "",
        "## Groceries",
        "",
        "- [ ] milk",
    ]);
    app.cursor = 1; // milk
    app.toggle_collapse();
    assert!(app.collapsed.contains("Groceries"));
    assert!(matches!(app.entries()[app.cursor], Entry::Section(4)));
    app.toggle_collapse();
    assert!(app.collapsed.is_empty());
    // top inbox area has no section to collapse
    app.cursor = 0;
    app.toggle_collapse();
    assert!(app.collapsed.is_empty());
    assert_eq!(app.status, "top area has no section to collapse");
}

#[test]
fn archive_section_moves_to_sidecar() {
    let mut app = app_from(&[
        "# Todo",
        "",
        "- [ ] keep",
        "",
        "## Old",
        "",
        "- [ ] gone",
        "  - [x] sub",
    ]);
    app.collapsed.insert("Old".to_string());
    app.cursor = 1; // the collapsed section entry
    let archived = app.archive_section("").unwrap();
    assert!(app.heading_line("old").is_none());
    assert!(!app.lines.iter().any(|l| l.contains("gone")));
    assert_eq!(app.lines[2], "- [ ] keep");
    assert!(app.collapsed.is_empty());
    assert!(archived.contains("## Old"));
    assert!(archived.contains("- [ ] gone"));
    assert!(archived.contains("  - [x] sub"));
}

#[test]
fn reload_discards_stale_undo_snapshots() {
    let mut app = app_from(&["# Todo", "", "- [ ] a", "- [ ] b"]);
    assert!(app.delete_current()); // builds an undo snapshot
    assert!(!app.undo.is_empty());
    app.reload("# Todo\n\n- [ ] external edit\n");
    assert!(!app.undo_last());
    assert_eq!(app.status, "nothing to undo");
    assert_eq!(app.lines[2], "- [ ] external edit");
}

#[test]
fn rotate_done_moves_week_old_tasks_to_sidecar() {
    let old = (Local::now() - chrono::Duration::days(10))
        .format("%Y-%m-%d %H:%M")
        .to_string();
    let recent = (Local::now() - chrono::Duration::days(2))
        .format("%Y-%m-%d %H:%M")
        .to_string();
    let mut app = app_from(&[
        "# Todo",
        "",
        "- [ ] open task",
        "",
        "## Done",
        "",
        &format!("- [x] recent one @done({recent})"),
        &format!("- [x] old one @done({old})"),
        "  a note on the old one",
        "- [x] unstamped",
    ]);
    let hist = app.rotate_done("").unwrap();
    assert!(!app.lines.iter().any(|l| l.contains("old one")));
    assert!(!app.lines.iter().any(|l| l.contains("a note on the old one")));
    assert!(app.lines.iter().any(|l| l.contains("recent one")));
    assert!(app.lines.iter().any(|l| l.contains("unstamped")));
    let month = (Local::now() - chrono::Duration::days(10))
        .format("## %Y-%m")
        .to_string();
    assert!(hist.contains(&month), "got: {hist}");
    assert!(hist.contains("- [x] old one @done("));
    assert!(hist.contains("  a note on the old one"));
    // rotating again is a no-op and doesn't duplicate
    assert_eq!(app.rotate_done(&hist), None);
}

#[test]
fn rotate_done_orders_months_ascending_with_separation() {
    let old_aug = (Local::now() - chrono::Duration::days(10))
        .format("%Y-%m-%d %H:%M")
        .to_string();
    let old_far = (Local::now() - chrono::Duration::days(400))
        .format("%Y-%m-%d %H:%M")
        .to_string();
    let mut app = app_from(&[
        "# Todo",
        "",
        "## Done",
        "",
        &format!("- [x] newer old @done({old_aug})"),
        &format!("- [x] ancient @done({old_far})"),
    ]);
    let hist = app.rotate_done("").unwrap();
    let m_far = (Local::now() - chrono::Duration::days(400))
        .format("## %Y-%m")
        .to_string();
    let m_aug = (Local::now() - chrono::Duration::days(10))
        .format("## %Y-%m")
        .to_string();
    let (pf, pa) = (hist.find(&m_far).unwrap(), hist.find(&m_aug).unwrap());
    assert!(pf < pa, "months not ascending:\n{hist}");
    assert!(
        hist.contains(&format!("\n\n{m_aug}")),
        "no blank line before later month heading:\n{hist}"
    );
}

#[test]
fn undo_restores_previous_state() {
    let mut app = app_from(&["# Todo", "", "- [ ] a", "- [ ] b"]);
    assert!(app.delete_current());
    assert_eq!(app.visible_items().len(), 1);
    assert!(app.undo_last());
    assert_eq!(app.visible_items().len(), 2);
    assert_eq!(app.lines[2], "- [ ] a");
    // empty stack: no panic, just a status
    assert!(!app.undo_last());
    assert_eq!(app.status, "nothing to undo");
}

#[test]
fn a_file_without_a_done_section_gets_one() {
    let mut app = app_from(&["# Todo", "", "- [ ] only", "  note"]);
    assert!(app.toggle_at("2026-08-30 14:32"));
    assert_eq!(
        app.lines,
        lines_from(&[
            "# Todo",
            "",
            "## Done",
            "",
            "- [x] only @done(2026-08-30 14:32)",
            "  note",
        ])
    );
    assert_eq!(app.status, "done");
    app.cursor = 0;
    assert!(app.toggle_at("unused"));
    assert_eq!(
        app.lines,
        lines_from(&["# Todo", "", "- [ ] only", "  note", "", "## Done"])
    );
    assert_eq!(app.status, "back to todo");
}

#[test]
fn later_is_created_before_done() {
    let mut app = app_from(&["# Todo", "", "- [ ] a", "", "## Done", "", "- [x] d"]);
    assert!(app.cycle_later());
    assert_eq!(
        app.lines,
        lines_from(&["# Todo", "", "## Later", "", "- [ ] a", "", "## Done", "", "- [x] d"])
    );
    assert_eq!(app.status, "moved to later");
}

#[test]
fn an_open_task_under_done_goes_to_a_new_later_section() {
    let mut app = app_from(&["# Todo", "", "## Done", "", "- [ ] stray", "  note", "- [x] d"]);
    assert!(app.cycle_later());
    assert_eq!(
        app.lines,
        lines_from(&[
            "# Todo", "", "## Later", "", "- [ ] stray", "  note", "", "## Done", "", "- [x] d",
        ])
    );
}

#[test]
fn a_new_section_goes_before_later_and_done() {
    let mut app = app_from(&["# Todo", "", "- [ ] a", "", "## Later", "", "## Done"]);
    assert!(app.move_current_to(&MoveDest::Section("Work".into())));
    assert_eq!(
        app.lines,
        lines_from(&["# Todo", "", "## Work", "", "- [ ] a", "", "## Later", "", "## Done"])
    );
    assert_eq!(app.status, "moved to Work");
    // The section's own placeholder moves nothing.
    assert!(!app.move_current_to(&MoveDest::NewSection));
}

#[test]
fn done_tasks_are_not_moved() {
    let mut app = app_from(&["- [x] d", "- [ ] a", "  - [ ] s"]);
    assert!(!app.cycle_later());
    assert_eq!(app.status, "item is done — untick it first");
    app.cursor = 1;
    app.sub = Some(0);
    app.status = String::new();
    assert!(!app.cycle_later());
    assert_eq!(app.status, "");
    app.open_move_menu();
    assert!(app.move_menu.is_none());
}

#[test]
fn tasks_change_places() {
    let mut app = app_from(&[
        "# Todo", "", "- [ ] a", "  note", "", "- [ ] b", "", "## X", "", "- [ ] c",
    ]);
    assert!(app.move_item(1));
    assert_eq!(
        app.lines,
        lines_from(&["# Todo", "", "- [ ] b", "- [ ] a", "  note", "", "## X", "", "- [ ] c"])
    );
    assert_eq!(app.cursor, 1);
    // Past the last task of a section it goes into the next one.
    assert!(app.move_item(1));
    assert_eq!(
        app.lines,
        lines_from(&["# Todo", "", "- [ ] b", "", "## X", "", "- [ ] c", "- [ ] a", "  note"])
    );
    assert_eq!(app.cursor, 2);
    assert!(!app.move_item(1));
    assert!(app.move_item(-1));
    assert_eq!(app.cursor, 1);
    assert_eq!(app.lines[6], "- [ ] a");
}

#[test]
fn deleting_a_subtask_leaves_the_rest_of_the_block() {
    let mut app = app_from(&["- [ ] a", "  - [ ] s1", "  note", "  - [x] s2 "]);
    app.sub = Some(1);
    assert!(app.delete_current());
    assert_eq!(app.lines, lines_from(&["- [ ] a", "  - [ ] s1", "  note"]));
    assert_eq!(app.status, "deleted sub: s2");
    assert_eq!(app.sub, Some(0));
    assert!(app.delete_current());
    assert_eq!(app.sub, None);
    app.cursor = 7;
    assert!(!app.delete_current());
}

#[test]
fn archive_adds_an_empty_line_between_sections() {
    let lines = ["- [ ] keep", "", "## Old", "", "- [ ] gone", ""];
    for (before, after) in [
        ("", "## Old\n\n- [ ] gone\n"),
        ("# Archive\n", "# Archive\n\n## Old\n\n- [ ] gone\n"),
        ("# Archive\n\n", "# Archive\n\n## Old\n\n- [ ] gone\n"),
        ("x", "x\n## Old\n\n- [ ] gone\n"),
    ] {
        let mut app = app_from(&lines);
        app.collapsed.insert("Old".to_string());
        app.cursor = 1;
        assert_eq!(app.archive_section(before), Some(after.to_string()));
        assert_eq!(app.lines, lines_from(&["- [ ] keep"]));
        assert_eq!(app.status, "archived: Old");
        assert!(app.undo_last());
        assert_eq!(app.lines, lines_from(&lines));
    }
    let mut app = app_from(&lines);
    assert_eq!(app.archive_section(""), None);
    assert_eq!(app.status, "collapse a section first (c), then A archives it");
}

#[test]
fn done_of_level_one_ends_todo() {
    let lines = [
        "# Todo", "", "- [ ] a", "", "# Done", "", "- [x] d @done(2026-08-29 09:00)",
    ];
    let mut app = app_from(&lines);
    assert_eq!(app.todo_end(), 3);
    app.cursor = 1;
    assert!(app.toggle());
    assert_eq!(
        app.lines,
        lines_from(&["# Todo", "", "- [ ] a", "- [ ] d", "", "# Done"])
    );
    // New tasks go there too, and so do tasks that come back from Later.
    let mut added = app_from(&lines);
    assert!(added.add_todo("b"));
    assert_eq!(added.lines[3], "- [ ] b");
    let mut back = app_from(&["- [ ] a", "", "# Later", "", "- [ ] b", "", "# Done"]);
    back.cursor = 1;
    assert!(back.cycle_later());
    assert_eq!(
        back.lines,
        lines_from(&["- [ ] a", "- [ ] b", "", "# Later", "", "# Done"])
    );
}

#[test]
fn later_of_level_one_ends_done() {
    let mut app = app_from(&[
        "## Done",
        "",
        "- [x] a @done(2020-01-01 00:00)",
        "",
        "# Later",
        "",
        "- [x] b @done(2020-01-01 00:00)",
    ]);
    assert_eq!(app.section_end(0), 3);
    let hist = app.rotate_done("").unwrap();
    assert_eq!(hist, "## 2020-01\n\n- [x] a @done(2020-01-01 00:00)\n");
    assert_eq!(
        app.lines,
        lines_from(&["## Done", "", "# Later", "", "- [x] b @done(2020-01-01 00:00)"])
    );
}

#[test]
fn only_sections_of_level_two_and_below_collapse() {
    let mut app = app_from(&["## Work", "", "- [ ] a", "", "# Later", "", "- [ ] b"]);
    app.cursor = 1;
    app.toggle_collapse();
    assert!(app.collapsed.is_empty());
    assert_eq!(app.status, "top area has no section to collapse");
    app.cursor = 0;
    app.toggle_collapse();
    assert!(app.collapsed.contains("Work"));
}

#[test]
fn a_new_section_goes_before_the_first_of_later_and_done() {
    let mut app = app_from(&["- [ ] a", "", "## Done", "", "## Later"]);
    assert!(app.move_current_to(&MoveDest::Section("Work".to_string())));
    assert_eq!(
        app.lines,
        lines_from(&["## Work", "", "- [ ] a", "", "## Done", "", "## Later"])
    );
}

#[test]
fn the_menu_offers_the_sections() {
    let mut app = app_from(&[
        "- [ ] a", "", "## Work", "", "## later", "", "## Done", "", "### Home",
    ]);
    app.open_move_menu();
    let menu = app.move_menu.as_ref().unwrap();
    let labels: Vec<&str> = menu.options.iter().map(|d| d.label()).collect();
    assert_eq!(labels, vec!["todo", "Work", "later", "new section…"]);
    assert_eq!(menu.sel, 0);
    app.move_menu.as_mut().unwrap().sel = 1;
    assert!(app.commit_move());
    assert_eq!(app.lines[0], "## Work");
    assert_eq!(app.lines[2], "- [ ] a");
    assert!(app.move_menu.is_none());
    assert!(!app.commit_move());
}

#[test]
fn undo_keeps_a_hundred_states() {
    let mut app = app_from(&["- [ ] 0"]);
    for n in 1..=130 {
        assert!(app.edit_title(&format!("{n}")));
    }
    assert_eq!(app.undo.len(), 100);
    for _ in 0..100 {
        assert!(app.undo_last());
    }
    assert_eq!(app.lines, lines_from(&["- [ ] 30"]));
    assert!(!app.undo_last());
}

#[test]
fn sections_created_by_name() {
    let mut app = app_from(&["- [ ] a"]);
    let h = app.ensure_section("Later");
    assert_eq!((h, app.lines[h].as_str()), (2, "## Later"));
    assert_eq!(app.ensure_section("later"), 2);
    let w = app.create_section("Work");
    assert_eq!((w, app.lines[w].as_str()), (2, "## Work"));
    assert_eq!(app.heading_line("LATER"), Some(4));
    assert_eq!(app.section_end(w), 3);
    assert_eq!(app.later_end(), 5);
}
