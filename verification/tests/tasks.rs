//! Single lines: tasks, headings, completion stamps, and the blocks under tasks.
use locdo::outline::{items, tidy_lines};
use locdo::task::{
    complete, is_heading, is_section, reopen, retitle, section_kind, split_stamp, task_info,
    task_mark, SectionKind,
};

fn lines_from(lines: &[&str]) -> Vec<String> {
    lines.iter().map(|s| s.to_string()).collect()
}

#[test]
fn parses_task_lines() {
    assert_eq!(task_info("- [ ] open"), Some((false, 3)));
    assert_eq!(task_info("- [x] done"), Some((true, 3)));
    assert_eq!(task_info("- [X] done caps"), Some((true, 3)));
    assert_eq!(task_info("  - [ ] nested"), Some((false, 5)));
    assert_eq!(task_info("* [ ] star bullet"), Some((false, 3)));
    assert_eq!(task_info("# heading"), None);
    assert_eq!(task_info("- plain bullet"), None);
    assert_eq!(task_info("- [?] weird status"), None);
    assert_eq!(task_info(""), None);
}

#[test]
fn splits_stamps() {
    assert_eq!(split_stamp("plain task"), ("plain task".into(), None));
    assert_eq!(
        split_stamp("task @done(2026-08-30 14:32)"),
        ("task".into(), Some("2026-08-30 14:32".into()))
    );
}

#[test]
fn items_capture_child_blocks() {
    let lines = lines_from(&[
        "# Todo",
        "",
        "- [ ] parent",
        "  note line",
        "  - [ ] sub",
        "",
        "- [ ] second",
        "",
        "## Later",
    ]);
    let its = items(&lines);
    assert_eq!(its.len(), 2);
    assert_eq!((its[0].start, its[0].len), (2, 3));
    assert_eq!((its[1].start, its[1].len), (6, 1));
}

#[test]
fn mark_of_a_task_behind_wide_blanks() {
    // An ideographic space is one character and three bytes.
    assert_eq!(task_info("\u{3000}- [x] wide"), Some((true, 6)));
    assert_eq!(task_mark("\u{3000}- [x] wide"), Some((true, 4)));
    assert_eq!(task_info("\t- [ ] tabbed"), Some((false, 4)));
}

#[test]
fn boxes_that_are_no_tasks() {
    assert_eq!(task_info("- []"), None);
    assert_eq!(task_info("- [ ]"), Some((false, 3)));
    assert_eq!(task_info("-[ ] tight"), None);
    assert_eq!(task_info("+ [ ] plus"), None);
    assert_eq!(task_info("- (x) round"), None);
}

#[test]
fn stamps_that_do_not_close() {
    assert_eq!(split_stamp("task @done(soon"), ("task @done(soon".into(), None));
    assert_eq!(
        split_stamp(" a @done(x) b "),
        ("a  b".into(), Some("x".into()))
    );
    assert_eq!(split_stamp("@done()"), ("".into(), Some("".into())));
}

#[test]
fn headings_of_every_level() {
    assert!(is_heading("# Todo"));
    assert!(is_heading("#"));
    assert!(!is_heading(" # indented"));
    assert!(!is_heading(""));
    assert!(is_section("## Later"));
    assert!(is_section("### deeper"));
    assert!(!is_section("# Todo"));
    assert_eq!(section_kind("LATER"), SectionKind::Later);
    assert_eq!(section_kind("done"), SectionKind::Done);
    assert_eq!(section_kind("done "), SectionKind::Todo);
    assert_eq!(section_kind("Groceries"), SectionKind::Todo);
}

#[test]
fn completing_and_opening_a_line() {
    let done = complete("- [ ] buy milk", 3, "2026-08-30 14:32");
    assert_eq!(done, "- [x] buy milk @done(2026-08-30 14:32)");
    assert_eq!(reopen(done.as_str(), 3), "- [ ] buy milk");
    assert_eq!(reopen("- [X] capital", 3), "- [ ] capital");
}

#[test]
fn another_title_keeps_box_and_stamp() {
    assert_eq!(
        retitle("- [x] a @done(2026-08-29 09:00)", 3, "b"),
        "- [x] b @done(2026-08-29 09:00)"
    );
    assert_eq!(retitle("  * [ ]old", 5, "new"), "  * [ ] new");
}

#[test]
fn blank_lines_in_order() {
    let lines = lines_from(&["", "# Todo", "- [ ] a", " ", "", "- [ ] b", "## Done", "x", "\t"]);
    assert_eq!(
        tidy_lines(&lines),
        lines_from(&["# Todo", "", "- [ ] a", " ", "- [ ] b", "", "## Done", "", "x"])
    );
    // Once more changes nothing.
    let once = tidy_lines(&lines);
    assert_eq!(tidy_lines(&once), once);
    assert_eq!(tidy_lines(&lines_from(&["", " "])), Vec::<String>::new());
}

#[test]
fn blocks_hold_blank_lines_between_indented_ones() {
    let lines = lines_from(&["- [ ] a", "  one", "", "  two", "", "", "- [x] b", "text"]);
    let its = items(&lines);
    assert_eq!(its.len(), 2);
    assert_eq!((its[0].start, its[0].len, its[0].done), (0, 4, false));
    assert_eq!((its[1].start, its[1].len, its[1].done), (6, 1, true));
}
