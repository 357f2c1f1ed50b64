//! Keeping the todo file and the files beside it in step with a git remote: which commands
//! are run, in what order, and what is made of their outcomes.
use crate::clock::{stamp_now, stamp_text};
use crate::lines::{push_line, split_lines, texts, to_lines};
use crate::search::back_from;
use crate::text::{cat, same, starts_with, trim, trimmed};
use vstd::prelude::*;

verus! {

// ---------------------------------------------------------------------------------
// The outcome of a command

/// What a result says.
pub open spec fn outcome_model(r: Result<String, String>) -> Result<Seq<char>, Seq<char>> {
    match r {
        Ok(s) => Ok(s@),
        Err(e) => Err(e@),
    }
}

/// Whether a line of git's is a diagnostic.
pub open spec fn diagnostic(l: Seq<char>) -> bool {
    "fatal:"@.is_prefix_of(trim(l)) || "error:"@.is_prefix_of(trim(l)) || "!"@.is_prefix_of(trim(l))
}

/// Whether a line of git's says something other than advice.
pub open spec fn telling(l: Seq<char>) -> bool {
    trim(l).len() > 0 && !"hint:"@.is_prefix_of(trim(l))
}

/// The line that says why git failed, looked for from the end of what it wrote: its last
/// diagnostic, behind which context and advice may follow, or else the last line that is not
/// advice.
pub open spec fn reason_in(lines: Seq<Seq<char>>) -> Seq<char> {
    let n = lines.len() as int;
    let i = back_from(lines, n, |l: Seq<char>| diagnostic(l));
    let j = back_from(lines, n, |l: Seq<char>| telling(l));
    if i > 0 {
        trim(lines[i - 1])
    } else if j > 0 {
        trim(lines[j - 1])
    } else {
        "git failed"@
    }
}

/// The outcome of a run of git: what it wrote, or the line that says why it failed.
pub open spec fn outcome_of(
    success: bool,
    stdout: Seq<char>,
    stderr: Seq<char>,
) -> Result<Seq<char>, Seq<char>> {
    if success {
        Ok(trim(stdout))
    } else {
        Err(reason_in(split_lines(stderr, 1)))
    }
}

fn is_diagnostic(line: &str) -> (r: bool)
    ensures
        r == diagnostic(line@),
{
    let l: String = trimmed(line);
    starts_with(l.as_str(), "fatal:") || starts_with(l.as_str(), "error:") || starts_with(
        l.as_str(),
        "!",
    )
}

fn is_telling(line: &str) -> (r: bool)
    ensures
        r == telling(line@),
{
    let l: String = trimmed(line);
    !l.as_str().is_empty() && !starts_with(l.as_str(), "hint:")
}

fn find_reason(lines: &Vec<String>) -> (r: String)
    ensures
        r@ == reason_in(texts(lines@)),
{
    let n: usize = lines.len();
    let ghost t = texts(lines@);
    let mut i: usize = n;
    while i > 0 && !is_diagnostic(lines[i - 1].as_str())
        invariant
            i <= n,
            n == lines@.len(),
            t == texts(lines@),
            back_from(t, i as int, |l: Seq<char>| diagnostic(l)) == back_from(
                t,
                n as int,
                |l: Seq<char>| diagnostic(l),
            ),
        decreases i,
    {
        assert(t[i - 1] == lines@[i - 1]@);
        i -= 1;
    }
    if i > 0 {
        assert(t[i - 1] == lines@[i - 1]@);
        return trimmed(lines[i - 1].as_str());
    }
    let mut j: usize = n;
    while j > 0 && !is_telling(lines[j - 1].as_str())
        invariant
            j <= n,
            n == lines@.len(),
            t == texts(lines@),
            back_from(t, j as int, |l: Seq<char>| telling(l)) == back_from(
                t,
                n as int,
                |l: Seq<char>| telling(l),
            ),
        decreases j,
    {
        assert(t[j - 1] == lines@[j - 1]@);
        j -= 1;
    }
    if j > 0 {
        assert(t[j - 1] == lines@[j - 1]@);
        trimmed(lines[j - 1].as_str())
    } else {
        "git failed".to_string()
    }
}

/// The outcome of a run of git, from its success and what it wrote.
pub fn git_outcome(success: bool, stdout: &str, stderr: &str) -> (r: Result<String, String>)
    ensures
        outcome_model(r) == outcome_of(success, stdout@, stderr@),
{
    if success {
        Ok(trimmed(stdout))
    } else {
        Err(find_reason(&to_lines(stderr, 1)))
    }
}

// ---------------------------------------------------------------------------------
// The commands

/// What is wanted: to know whether there is a repository with a remote, to take over what
/// the remote has, or to give it what is here as well.
#[derive(Clone, Copy, PartialEq, Eq, Debug, Structural)]
pub enum Goal {
    Probe,
    Pull,
    Push,
}

/// How far a sync has come: which command is next, or how it ended.
pub enum Stage {
    Inside,
    Remote,
    AddFile(usize),
    Diff,
    Commit,
    Fetch,
    Upstream,
    Rebase,
    Abort(String),
    Push,
    End(Result<String, String>),
}

/// What a `Stage` says.
#[verifier::ext_equal]
pub enum StageModel {
    Inside,
    Remote,
    AddFile(int),
    Diff,
    Commit,
    Fetch,
    Upstream,
    Rebase,
    Abort(Seq<char>),
    Push,
    End(Result<Seq<char>, Seq<char>>),
}

impl View for Stage {
    type V = StageModel;

    open spec fn view(&self) -> StageModel {
        match self {
            Stage::Inside => StageModel::Inside,
            Stage::Remote => StageModel::Remote,
            Stage::AddFile(k) => StageModel::AddFile(*k as int),
            Stage::Diff => StageModel::Diff,
            Stage::Commit => StageModel::Commit,
            Stage::Fetch => StageModel::Fetch,
            Stage::Upstream => StageModel::Upstream,
            Stage::Rebase => StageModel::Rebase,
            Stage::Abort(e) => StageModel::Abort(e@),
            Stage::Push => StageModel::Push,
            Stage::End(r) => StageModel::End(outcome_model(*r)),
        }
    }
}

/// A sync under way: what is wanted, the files that it is about, whether they were found
/// changed, and how far it has come.
pub struct GitSync {
    pub goal: Goal,
    pub files: Vec<String>,
    pub dirty: bool,
    pub stage: Stage,
}

/// What a `GitSync` says.
#[verifier::ext_equal]
pub struct GitSyncModel {
    pub goal: Goal,
    pub files: Seq<Seq<char>>,
    pub dirty: bool,
    pub stage: StageModel,
}

impl View for GitSync {
    type V = GitSyncModel;

    open spec fn view(&self) -> GitSyncModel {
        GitSyncModel {
            goal: self.goal,
            files: texts(self.files@),
            dirty: self.dirty,
            stage: self.stage@,
        }
    }
}

/// A sync that has not begun.
pub open spec fn begun(goal: Goal, files: Seq<Seq<char>>) -> GitSyncModel {
    GitSyncModel { goal, files, dirty: false, stage: StageModel::Inside }
}

/// The message of the commit that a sync makes at the time `stamp`.
pub open spec fn commit_message(stamp: Seq<char>) -> Seq<char> {
    "locdo sync "@ + stamp
}

/// The arguments of the next command, if the sync has not ended.
pub open spec fn arguments_of(y: GitSyncModel, stamp: Seq<char>) -> Option<Seq<Seq<char>>> {
    match y.stage {
        StageModel::Inside => Some(seq!["rev-parse"@, "--is-inside-work-tree"@]),
        StageModel::Remote => Some(seq!["remote"@]),
        StageModel::AddFile(k) => Some(seq!["add"@, y.files[k]]),
        StageModel::Diff => Some(seq!["diff"@, "--cached"@, "--quiet"@, "--"@] + y.files),
        StageModel::Commit => Some(
            seq!["commit"@, "--quiet"@, "-m"@, commit_message(stamp), "--"@] + y.files,
        ),
        StageModel::Fetch => Some(seq!["fetch"@, "--quiet"@, "origin"@]),
        StageModel::Upstream => Some(seq!["rev-parse"@, "--verify"@, "--quiet"@, "@{u}"@]),
        StageModel::Rebase => Some(seq!["rebase"@, "--autostash"@, "--quiet"@, "@{u}"@]),
        StageModel::Abort(_) => Some(seq!["rebase"@, "--abort"@]),
        StageModel::Push => Some(seq!["push"@, "--quiet"@, "-u"@, "origin"@, "HEAD"@]),
        StageModel::End(_) => None,
    }
}

/// What is said where there is no repository with a remote.
pub open spec fn no_repo(goal: Goal) -> Seq<char> {
    match goal {
        Goal::Push => "todo file is not in a git repo with a remote"@,
        _ => "no repo"@,
    }
}

/// The stage that stages file `k`, or what follows the last file.
pub open spec fn staging(files: Seq<Seq<char>>, k: int) -> StageModel {
    if k < files.len() {
        StageModel::AddFile(k)
    } else {
        StageModel::Diff
    }
}

/// The stage after what the remote has is taken over.
pub open spec fn pulled(goal: Goal) -> StageModel {
    match goal {
        Goal::Push => StageModel::Push,
        _ => StageModel::End(Ok(Seq::empty())),
    }
}

/// What is said after a push.
pub open spec fn push_message(dirty: bool) -> Seq<char> {
    if dirty {
        "pushed"@
    } else {
        "nothing to push"@
    }
}

/// The stage after a command that has to succeed.
pub open spec fn on_success(
    outcome: Result<Seq<char>, Seq<char>>,
    next: StageModel,
) -> StageModel {
    match outcome {
        Ok(_) => next,
        Err(e) => StageModel::End(Err(e)),
    }
}

/// The stage after a command with this outcome.
pub open spec fn stage_after(y: GitSyncModel, outcome: Result<Seq<char>, Seq<char>>) -> StageModel {
    match y.stage {
        StageModel::Inside => if outcome == Ok::<Seq<char>, Seq<char>>("true"@) {
            StageModel::Remote
        } else {
            StageModel::End(Err(no_repo(y.goal)))
        },
        StageModel::Remote => if outcome matches Ok(names) && names.len() > 0 {
            match y.goal {
                Goal::Probe => StageModel::End(Ok(Seq::empty())),
                Goal::Pull => StageModel::Fetch,
                Goal::Push => staging(y.files, 0),
            }
        } else {
            StageModel::End(Err(no_repo(y.goal)))
        },
        StageModel::AddFile(k) => on_success(outcome, staging(y.files, k + 1)),
        StageModel::Diff => if outcome is Err {
            StageModel::Commit
        } else {
            StageModel::Fetch
        },
        StageModel::Commit => on_success(outcome, StageModel::Fetch),
        StageModel::Fetch => on_success(outcome, StageModel::Upstream),
        StageModel::Upstream => if outcome is Err {
            pulled(y.goal)
        } else {
            StageModel::Rebase
        },
        StageModel::Rebase => match outcome {
            Ok(_) => pulled(y.goal),
            Err(e) => StageModel::Abort(e),
        },
        StageModel::Abort(e) => StageModel::End(Err(e)),
        StageModel::Push => on_success(outcome, StageModel::End(Ok(push_message(y.dirty)))),
        StageModel::End(r) => StageModel::End(r),
    }
}

/// The sync after a command with this outcome. The comparison of what is staged with the
/// last commit fails where they differ.
pub open spec fn advanced(y: GitSyncModel, outcome: Result<Seq<char>, Seq<char>>) -> GitSyncModel {
    GitSyncModel {
        stage: stage_after(y, outcome),
        dirty: if y.stage is Diff {
            outcome is Err
        } else {
            y.dirty
        },
        ..y
    }
}

/// Whether the file that is to be staged next is one of the sync's.
pub open spec fn on_course(y: GitSyncModel) -> bool {
    y.stage matches StageModel::AddFile(k) ==> 0 <= k < y.files.len()
}

fn words(list: &[&str]) -> (r: Vec<String>)
    ensures
        texts(r@) == Seq::new(list@.len(), |i: int| list@[i]@),
{
    let mut out: Vec<String> = Vec::new();
    let n: usize = list.len();
    let ghost want = Seq::new(list@.len(), |i: int| list@[i]@);
    assert(texts(out@) =~= want.take(0));
    for i in 0..n
        invariant
            n == list@.len(),
            want == Seq::new(list@.len(), |i: int| list@[i]@),
            texts(out@) == want.take(i as int),
    {
        push_line(&mut out, list[i].to_string());
        assert(want.take(i + 1) =~= want.take(i as int).push(list@[i as int]@));
    }
    assert(want.take(n as int) =~= want);
    out
}

fn push_all(out: &mut Vec<String>, more: &Vec<String>)
    ensures
        texts(final(out)@) == texts(old(out)@) + texts(more@),
{
    let n: usize = more.len();
    let ghost first = texts(out@);
    let ghost rest = texts(more@);
    assert(first =~= first + rest.take(0));
    for i in 0..n
        invariant
            n == more@.len(),
            rest == texts(more@),
            texts(out@) == first + rest.take(i as int),
    {
        push_line(out, more[i].clone());
        assert(first + rest.take(i + 1) =~= (first + rest.take(i as int)).push(rest[i as int]));
    }
    assert(rest.take(n as int) =~= rest);
}

fn next_if_ok(outcome: Result<String, String>, next: Stage) -> (r: Stage)
    ensures
        r@ == on_success(outcome_model(outcome), next@),
{
    match outcome {
        Ok(_) => next,
        Err(e) => Stage::End(Err(e)),
    }
}

impl GitSync {
    /// A sync that has not begun. The files' names are relative to the directory that git
    /// is run in.
    pub fn new(goal: Goal, files: Vec<String>) -> (r: GitSync)
        ensures
            r@ == begun(goal, texts(files@)),
    {
        GitSync { goal, files, dirty: false, stage: Stage::Inside }
    }

    /// The arguments of the next command, at the time `stamp`.
    pub fn arguments_at(&self, stamp: &str) -> (r: Option<Vec<String>>)
        requires
            on_course(self@),
        ensures
            match r {
                Some(list) => arguments_of(self@, stamp@) == Some(texts(list@)),
                None => arguments_of(self@, stamp@) is None,
            },
    {
        let list: Vec<String> = match &self.stage {
            Stage::Inside => words(&["rev-parse", "--is-inside-work-tree"]),
            Stage::Remote => words(&["remote"]),
            Stage::AddFile(k) => {
                assert(texts(self.files@)[*k as int] == self.files@[*k as int]@);
                words(&["add", self.files[*k].as_str()])
            },
            Stage::Diff => {
                let mut list: Vec<String> = words(&["diff", "--cached", "--quiet", "--"]);
                push_all(&mut list, &self.files);
                list
            },
            Stage::Commit => {
                let message: String = cat("locdo sync ", stamp);
                let mut list: Vec<String> = words(
                    &["commit", "--quiet", "-m", message.as_str(), "--"],
                );
                push_all(&mut list, &self.files);
                list
            },
            Stage::Fetch => words(&["fetch", "--quiet", "origin"]),
            Stage::Upstream => words(&["rev-parse", "--verify", "--quiet", "@{u}"]),
            Stage::Rebase => words(&["rebase", "--autostash", "--quiet", "@{u}"]),
            Stage::Abort(_) => words(&["rebase", "--abort"]),
            Stage::Push => words(&["push", "--quiet", "-u", "origin", "HEAD"]),
            Stage::End(_) => return None,
        };
        assert(texts(list@) =~= arguments_of(self@, stamp@)->0);
        Some(list)
    }

    /// The arguments of the next command, at the present time.
    pub fn arguments(&self) -> (r: Option<Vec<String>>)
        requires
            on_course(self@),
        ensures
            exists|stamp: Seq<char>|
                stamp_text(stamp) && (#[trigger] arguments_of(self@, stamp)) == (match r {
                    Some(list) => Some(texts(list@)),
                    None => None,
                }),
    {
        let stamp: String = stamp_now();
        let r: Option<Vec<String>> = self.arguments_at(stamp.as_str());
        assert(arguments_of(self@, stamp@) == (match r {
            Some(list) => Some(texts(list@)),
            None => None,
        }));
        r
    }

    /// Takes the outcome of the command.
    pub fn advance(&mut self, outcome: Result<String, String>)
        requires
            on_course(old(self)@),
        ensures
            final(self)@ == advanced(old(self)@, outcome_model(outcome)),
            on_course(final(self)@),
    {
        let goal: Goal = self.goal;
        let n: usize = self.files.len();
        let after_pull: Stage = match goal {
            Goal::Push => Stage::Push,
            _ => Stage::End(Ok(String::new())),
        };
        let missing: String = match goal {
            Goal::Push => "todo file is not in a git repo with a remote".to_string(),
            _ => "no repo".to_string(),
        };
        let failed: bool = outcome.is_err();
        let next: Stage = match &self.stage {
            Stage::Inside => {
                let inside: bool = match &outcome {
                    Ok(s) => same(s.as_str(), "true"),
                    Err(_) => false,
                };
                if inside {
                    Stage::Remote
                } else {
                    Stage::End(Err(missing))
                }
            },
            Stage::Remote => {
                let named: bool = match &outcome {
                    Ok(s) => !s.as_str().is_empty(),
                    Err(_) => false,
                };
                if named {
                    match goal {
                        Goal::Probe => Stage::End(Ok(String::new())),
                        Goal::Pull => Stage::Fetch,
                        Goal::Push => if n > 0 {
                            Stage::AddFile(0)
                        } else {
                            Stage::Diff
                        },
                    }
                } else {
                    Stage::End(Err(missing))
                }
            },
            Stage::AddFile(k) => {
                let after: Stage = if *k < n - 1 {
                    Stage::AddFile(*k + 1)
                } else {
                    Stage::Diff
                };
                next_if_ok(outcome, after)
            },
            Stage::Diff => {
                self.dirty = failed;
                if failed {
                    Stage::Commit
                } else {
                    Stage::Fetch
                }
            },
            Stage::Commit => next_if_ok(outcome, Stage::Fetch),
            Stage::Fetch => next_if_ok(outcome, Stage::Upstream),
            Stage::Upstream => if failed {
                after_pull
            } else {
                Stage::Rebase
            },
            Stage::Rebase => match outcome {
                Ok(_) => after_pull,
                Err(e) => Stage::Abort(e),
            },
            Stage::Abort(e) => Stage::End(Err(e.clone())),
            Stage::Push => {
                let message: String = if self.dirty {
                    "pushed".to_string()
                } else {
                    "nothing to push".to_string()
                };
                next_if_ok(outcome, Stage::End(Ok(message)))
            },
            Stage::End(_) => return ,
        };
        self.stage = next;
    }
}

} // verus!
