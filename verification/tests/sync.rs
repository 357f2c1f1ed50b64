//! Syncs, with git played by a list of outcomes.
use locdo::sync::{git_outcome, GitSync, Goal, Stage};

fn ok(s: &str) -> Result<String, String> {
    Ok(s.to_string())
}

fn err(s: &str) -> Result<String, String> {
    Err(s.to_string())
}

/// Runs a sync on these outcomes, and returns the commands that it ran and how it ended.
fn run(
    goal: Goal,
    files: &[&str],
    outcomes: Vec<Result<String, String>>,
) -> (Vec<String>, Result<String, String>) {
    let mut sync = GitSync::new(goal, files.iter().map(|s| s.to_string()).collect());
    let mut ran = Vec::new();
    for outcome in outcomes {
        let args = sync.arguments_at("2026-08-30 14:32").unwrap();
        ran.push(args.join(" "));
        sync.advance(outcome);
    }
    assert!(sync.arguments_at("").is_none());
    match sync.stage {
        Stage::End(end) => (ran, end),
        _ => unreachable!(),
    }
}

#[test]
fn what_git_says() {
    assert_eq!(git_outcome(true, " true\n", "warning"), ok("true"));
    assert_eq!(
        git_outcome(false, "out", "hint: do this\nerror: x\n  fatal: no upstream\r\nsome line"),
        err("fatal: no upstream")
    );
    assert_eq!(git_outcome(false, "", "error: first\nerror: second\n"), err("error: second"));
    assert_eq!(git_outcome(false, "", "one\ntwo\nhint: a\n"), err("two"));
    assert_eq!(git_outcome(false, "", "error: x"), err("error: x"));
    assert_eq!(git_outcome(false, "", "To remote\n ! [rejected]"), err("! [rejected]"));
    assert_eq!(git_outcome(false, "", "\nhint: a\n plain \n"), err("plain"));
    assert_eq!(git_outcome(false, "x", "hint: a\n\n"), err("git failed"));
    assert_eq!(git_outcome(false, "", ""), err("git failed"));
}

#[test]
fn changed_files_are_committed_and_pushed() {
    let (ran, end) = run(
        Goal::Push,
        &["todo.md", "todo.done.md"],
        vec![
            ok("true"),
            ok("origin"),
            ok(""),
            ok(""),
            err("git failed"),
            ok(""),
            ok(""),
            ok("abc"),
            ok(""),
            ok(""),
        ],
    );
    assert_eq!(
        ran,
        vec![
            "rev-parse --is-inside-work-tree",
            "remote",
            "add todo.md",
            "add todo.done.md",
            "diff --cached --quiet -- todo.md todo.done.md",
            "commit --quiet -m locdo sync 2026-08-30 14:32 -- todo.md todo.done.md",
            "fetch --quiet origin",
            "rev-parse --verify --quiet @{u}",
            "rebase --autostash --quiet @{u}",
            "push --quiet -u origin HEAD",
        ]
    );
    assert_eq!(end, ok("pushed"));
}

#[test]
fn unchanged_files_are_not_committed() {
    let (ran, end) = run(
        Goal::Push,
        &["todo.md"],
        vec![ok("true"), ok("origin"), ok(""), ok(""), ok(""), err("git failed"), ok("")],
    );
    assert_eq!(
        ran[3..],
        [
            "diff --cached --quiet -- todo.md".to_string(),
            "fetch --quiet origin".to_string(),
            "rev-parse --verify --quiet @{u}".to_string(),
            "push --quiet -u origin HEAD".to_string(),
        ]
    );
    assert_eq!(end, ok("nothing to push"));
}

#[test]
fn no_sync_without_a_repository_and_a_remote() {
    let none = "todo file is not in a git repo with a remote";
    let (ran, end) = run(Goal::Push, &["todo.md"], vec![err("fatal: not a git repository")]);
    assert_eq!((ran.len(), end), (1, err(none)));
    let (ran, end) = run(Goal::Push, &["todo.md"], vec![ok("false")]);
    assert_eq!((ran.len(), end), (1, err(none)));
    let (ran, end) = run(Goal::Push, &["todo.md"], vec![ok("true"), ok("")]);
    assert_eq!((ran.len(), end), (2, err(none)));
    assert_eq!(run(Goal::Pull, &[], vec![ok("")]).1, err("no repo"));
    assert_eq!(run(Goal::Probe, &[], vec![ok("true"), ok("origin")]).1, ok(""));
    assert_eq!(run(Goal::Probe, &[], vec![ok("true"), err("x")]).1, err("no repo"));
}

#[test]
fn a_pull_fetches_and_rebases() {
    let (ran, end) = run(
        Goal::Pull,
        &[],
        vec![ok("true"), ok("origin"), ok(""), ok("abc"), ok("")],
    );
    assert_eq!(
        ran[2..],
        [
            "fetch --quiet origin".to_string(),
            "rev-parse --verify --quiet @{u}".to_string(),
            "rebase --autostash --quiet @{u}".to_string(),
        ]
    );
    assert_eq!(end, ok(""));
}

#[test]
fn a_failed_rebase_is_aborted() {
    for abort in [ok(""), err("fatal: no rebase in progress")] {
        let (ran, end) = run(
            Goal::Pull,
            &[],
            vec![ok("true"), ok("origin"), ok(""), ok("abc"), err("error: conflict"), abort],
        );
        assert_eq!(ran[5], "rebase --abort");
        assert_eq!(end, err("error: conflict"));
    }
}

#[test]
fn errors_end_a_sync() {
    let start = || vec![ok("true"), ok("origin")];
    let mut add = start();
    add.push(err("fatal: add"));
    assert_eq!(run(Goal::Push, &["t"], add).1, err("fatal: add"));
    let mut commit = start();
    commit.extend([ok(""), err("changed"), err("fatal: commit")]);
    assert_eq!(run(Goal::Push, &["t"], commit).1, err("fatal: commit"));
    let mut fetch = start();
    fetch.push(err("fatal: fetch"));
    assert_eq!(run(Goal::Pull, &[], fetch).1, err("fatal: fetch"));
    let mut push = start();
    push.extend([ok(""), ok(""), err("none"), err("! [rejected]")]);
    assert_eq!(run(Goal::Push, &[], push).1, err("! [rejected]"));
}

#[test]
fn the_commit_is_made_at_the_present_time() {
    let mut sync = GitSync::new(Goal::Push, vec!["t".to_string()]);
    for outcome in [ok("true"), ok("origin"), ok(""), err("changed")] {
        sync.advance(outcome);
    }
    let args = sync.arguments().unwrap();
    assert!(args[3].starts_with("locdo sync 2"), "{}", args[3]);
    assert_eq!(args[3].len(), "locdo sync 2026-08-30 14:32".len());
    assert_eq!(args[4..], ["--".to_string(), "t".to_string()]);
}
