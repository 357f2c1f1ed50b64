//! Which commands a sync runs, and what it says of those that fail.
use crate::laws::sync::after_all;
use crate::lines::split_lines;
use crate::search::lemma_back_from_is;
use crate::sync::{
    advanced, arguments_of, begun, diagnostic, outcome_of, telling, GitSyncModel, Goal, StageModel,
};
use crate::text::trim;
use vstd::prelude::*;

verus! {

/// Whether all of these went well.
pub open spec fn all_ok(outcomes: Seq<Result<Seq<char>, Seq<char>>>) -> bool {
    forall|i: int| 0 <= i < outcomes.len() ==> (#[trigger] outcomes[i]) is Ok
}

/// A sync without a repository or a remote says so: one that was asked for, in full.
pub proof fn law_what_is_said_without_a_repo(files: Seq<Seq<char>>, error: Seq<char>)
    ensures
        advanced(begun(Goal::Push, files), Err(error)).stage == StageModel::End(
            Err("todo file is not in a git repo with a remote"@),
        ),
        advanced(begun(Goal::Pull, files), Err(error)).stage == StageModel::End(Err("no repo"@)),
        advanced(begun(Goal::Probe, files), Err(error)).stage == StageModel::End(Err("no repo"@)),
{
}

/// A sync first asks whether there is a repository and a remote.
pub proof fn law_sync_asks_first(
    goal: Goal,
    files: Seq<Seq<char>>,
    names: Seq<char>,
    stamp: Seq<char>,
)
    requires
        names.len() > 0,
    ensures
        arguments_of(begun(goal, files), stamp) == Some(
            seq!["rev-parse"@, "--is-inside-work-tree"@],
        ),
        ({
            let inside = advanced(begun(goal, files), Ok("true"@));
            let remote = advanced(inside, Ok(names));
            &&& arguments_of(inside, stamp) == Some(seq!["remote"@])
            &&& goal == Goal::Probe ==> remote.stage == StageModel::End(Ok(Seq::empty()))
            &&& goal == Goal::Pull ==> arguments_of(remote, stamp) == Some(
                seq!["fetch"@, "--quiet"@, "origin"@],
            )
        }),
{
}

proof fn lemma_staged(
    y: GitSyncModel,
    files: Seq<Seq<char>>,
    adds: Seq<Result<Seq<char>, Seq<char>>>,
)
    requires
        y == (GitSyncModel { stage: y.stage, ..begun(Goal::Push, files) }),
        y.stage == (if files.len() > 0 {
            StageModel::AddFile(0)
        } else {
            StageModel::Diff
        }),
        all_ok(adds),
        adds.len() <= files.len(),
    ensures
        ({
            let z = after_all(y, adds);
            &&& z == (GitSyncModel { stage: z.stage, ..begun(Goal::Push, files) })
            &&& z.stage == (if adds.len() < files.len() {
                StageModel::AddFile(adds.len() as int)
            } else {
                StageModel::Diff
            })
        }),
    decreases adds.len(),
{
    if adds.len() > 0 {
        let rest = adds.drop_last();
        assert forall|i: int| 0 <= i < rest.len() implies (#[trigger] rest[i]) is Ok by {
            assert(adds[i] is Ok);
        }
        lemma_staged(y, files, rest);
        assert(adds[adds.len() - 1] is Ok);
    }
}

/// A push stages every file, one after the other, and then looks whether any of them is
/// changed; a file that cannot be staged ends it.
pub proof fn law_push_stages_every_file(
    files: Seq<Seq<char>>,
    names: Seq<char>,
    adds: Seq<Result<Seq<char>, Seq<char>>>,
    error: Seq<char>,
    stamp: Seq<char>,
)
    requires
        names.len() > 0,
        all_ok(adds),
        adds.len() <= files.len(),
    ensures
        ({
            let y = advanced(advanced(begun(Goal::Push, files), Ok("true"@)), Ok(names));
            let z = after_all(y, adds);
            &&& adds.len() < files.len() ==> arguments_of(z, stamp) == Some(
                seq!["add"@, files[adds.len() as int]],
            ) && advanced(z, Err(error)).stage == StageModel::End(Err(error))
            &&& adds.len() == files.len() ==> arguments_of(z, stamp) == Some(
                seq!["diff"@, "--cached"@, "--quiet"@, "--"@] + files,
            )
        }),
{
    let y = advanced(advanced(begun(Goal::Push, files), Ok("true"@)), Ok(names));
    lemma_staged(y, files, adds);
}

/// A push whose files are staged commits them if they are changed, and only then, takes over
/// what the remote has, pushes, and says whether anything was pushed.
pub proof fn law_push_commits_what_is_changed(
    files: Seq<Seq<char>>,
    names: Seq<char>,
    adds: Seq<Result<Seq<char>, Seq<char>>>,
    said: Seq<char>,
    stamp: Seq<char>,
)
    requires
        names.len() > 0,
        all_ok(adds),
        adds.len() == files.len(),
    ensures
        ({
            let y = advanced(advanced(begun(Goal::Push, files), Ok("true"@)), Ok(names));
            let z = after_all(y, adds);
            let clean = advanced(z, Ok(said));
            let changed = advanced(z, Err(said));
            let committed = advanced(changed, Ok(said));
            &&& arguments_of(changed, stamp) == Some(
                seq!["commit"@, "--quiet"@, "-m"@, "locdo sync "@ + stamp, "--"@] + files,
            )
            &&& advanced(changed, Err(said)).stage == StageModel::End(Err(said))
            &&& takes_over(clean, "nothing to push"@)
            &&& takes_over(committed, "pushed"@)
        }),
{
    let y = advanced(advanced(begun(Goal::Push, files), Ok("true"@)), Ok(names));
    lemma_staged(y, files, adds);
    let z = after_all(y, adds);
    let clean = advanced(z, Ok(said));
    let changed = advanced(z, Err(said));
    let committed = advanced(changed, Ok(said));
    lemma_takes_over(clean);
    lemma_takes_over(committed);
}

/// Whether a push goes on to fetch, to rebase if there is an upstream, and to push, and ends
/// in these words; a command that fails ends it in its error.
pub open spec fn takes_over(y: GitSyncModel, words: Seq<char>) -> bool {
    forall|a: Seq<char>, b: Seq<char>, stamp: Seq<char>|
        #![trigger advanced(y, Ok(a)), advanced(y, Err(b)), arguments_of(y, stamp)]
        {
            let fetched = advanced(y, Ok(a));
            let rebasing = advanced(fetched, Ok(a));
            let alone = advanced(fetched, Err(b));
            let rebased = advanced(rebasing, Ok(a));
            let push = Some(seq!["push"@, "--quiet"@, "-u"@, "origin"@, "HEAD"@]);
            &&& arguments_of(y, stamp) == Some(seq!["fetch"@, "--quiet"@, "origin"@])
            &&& advanced(y, Err(b)).stage == StageModel::End(Err(b))
            &&& arguments_of(fetched, stamp) == Some(
                seq!["rev-parse"@, "--verify"@, "--quiet"@, "@{u}"@],
            )
            &&& arguments_of(rebasing, stamp) == Some(
                seq!["rebase"@, "--autostash"@, "--quiet"@, "@{u}"@],
            )
            &&& arguments_of(alone, stamp) == push
            &&& arguments_of(rebased, stamp) == push
            &&& advanced(alone, Ok(a)).stage == StageModel::End(Ok(words))
            &&& advanced(rebased, Ok(a)).stage == StageModel::End(Ok(words))
            &&& advanced(alone, Err(b)).stage == StageModel::End(Err(b))
            &&& advanced(rebased, Err(b)).stage == StageModel::End(Err(b))
        }
}

proof fn lemma_takes_over(y: GitSyncModel)
    requires
        y.stage is Fetch,
        y.goal == Goal::Push,
    ensures
        takes_over(
            y,
            if y.dirty {
                "pushed"@
            } else {
                "nothing to push"@
            },
        ),
{
}

/// A pull fetches, and rebases if there is an upstream, and that is all.
pub proof fn law_pull_takes_over(
    files: Seq<Seq<char>>,
    names: Seq<char>,
    a: Seq<char>,
    b: Seq<char>,
    stamp: Seq<char>,
)
    requires
        names.len() > 0,
    ensures
        ({
            let y = advanced(advanced(begun(Goal::Pull, files), Ok("true"@)), Ok(names));
            let fetched = advanced(y, Ok(a));
            let rebasing = advanced(fetched, Ok(a));
            &&& arguments_of(y, stamp) == Some(seq!["fetch"@, "--quiet"@, "origin"@])
            &&& advanced(y, Err(b)).stage == StageModel::End(Err(b))
            &&& arguments_of(fetched, stamp) == Some(
                seq!["rev-parse"@, "--verify"@, "--quiet"@, "@{u}"@],
            )
            &&& advanced(fetched, Err(b)).stage == StageModel::End(Ok(Seq::empty()))
            &&& arguments_of(rebasing, stamp) == Some(
                seq!["rebase"@, "--autostash"@, "--quiet"@, "@{u}"@],
            )
            &&& advanced(rebasing, Ok(a)).stage == StageModel::End(Ok(Seq::empty()))
        }),
{
}

/// A sync that has ended runs nothing more.
pub proof fn law_an_ended_sync_runs_nothing(y: GitSyncModel, stamp: Seq<char>)
    ensures
        arguments_of(y, stamp) is None <==> y.stage is End,
{
}

// ---------------------------------------------------------------------------------
// Reasons

/// Whether a line starts like this, blanks aside.
pub open spec fn opens_with(l: Seq<char>, word: Seq<char>) -> bool {
    word.is_prefix_of(trim(l))
}

/// Whether a line is what git says of a failure.
pub open spec fn blames(l: Seq<char>) -> bool {
    opens_with(l, "fatal:"@) || opens_with(l, "error:"@) || opens_with(l, "!"@)
}

/// A run of git that went well gives what it wrote, blanks at both ends aside.
pub proof fn law_git_gives_what_it_wrote(stdout: Seq<char>, stderr: Seq<char>)
    ensures
        outcome_of(true, stdout, stderr) == Ok::<Seq<char>, Seq<char>>(trim(stdout)),
{
}

/// The reason of a failure is git's last line that names one, whatever follows it.
pub proof fn law_reason_is_the_last_named(stdout: Seq<char>, stderr: Seq<char>, i: int)
    requires
        ({
            let lines = split_lines(stderr, 1);
            &&& 0 <= i < lines.len()
            &&& blames(lines[i])
            &&& forall|j: int| i < j < lines.len() ==> !blames(#[trigger] lines[j])
        }),
    ensures
        outcome_of(false, stdout, stderr) == Err::<Seq<char>, Seq<char>>(
            trim(split_lines(stderr, 1)[i]),
        ),
{
    let lines = split_lines(stderr, 1);
    let p = |l: Seq<char>| diagnostic(l);
    assert(p(lines[i]));
    assert forall|j: int| i + 1 <= j < lines.len() implies !p(#[trigger] lines[j]) by {
        assert(!blames(lines[j]));
    }
    lemma_back_from_is(lines, lines.len() as int, p, i + 1);
}

/// Where no line names one, the reason is the last that is neither blank nor advice; without
/// such a line it is said only that git failed.
pub proof fn law_reason_without_a_name(stdout: Seq<char>, stderr: Seq<char>, i: int)
    requires
        ({
            let lines = split_lines(stderr, 1);
            &&& -1 <= i < lines.len()
            &&& forall|j: int| 0 <= j < lines.len() ==> !blames(#[trigger] lines[j])
            &&& i >= 0 ==> trim(lines[i]).len() > 0 && !opens_with(lines[i], "hint:"@)
            &&& forall|j: int|
                i < j < lines.len() ==> trim(#[trigger] lines[j]).len() == 0 || opens_with(
                    lines[j],
                    "hint:"@,
                )
        }),
    ensures
        outcome_of(false, stdout, stderr) == Err::<Seq<char>, Seq<char>>(
            if i >= 0 {
                trim(split_lines(stderr, 1)[i])
            } else {
                "git failed"@
            },
        ),
{
    let lines = split_lines(stderr, 1);
    let n = lines.len() as int;
    let p = |l: Seq<char>| diagnostic(l);
    let q = |l: Seq<char>| telling(l);
    assert forall|j: int| 0 <= j < lines.len() implies !p(#[trigger] lines[j]) by {
        assert(!blames(lines[j]));
    }
    lemma_back_from_is(lines, n, p, 0);
    assert forall|j: int| i + 1 <= j < n implies !q(#[trigger] lines[j]) by {
        assert(trim(lines[j]).len() == 0 || opens_with(lines[j], "hint:"@));
    }
    lemma_back_from_is(lines, n, q, i + 1);
}

} // verus!
