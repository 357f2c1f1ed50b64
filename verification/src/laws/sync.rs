//! A sync always ends, leaves no rebase under way, and tells what it did.
use crate::sync::{
    advanced, arguments_of, begun, no_repo, on_course, push_message, GitSyncModel, Goal, StageModel,
};
use vstd::prelude::*;

verus! {

/// The most commands that a sync still runs.
pub open spec fn commands_left(y: GitSyncModel) -> int {
    match y.stage {
        StageModel::Inside => 8int + y.files.len(),
        StageModel::Remote => 7int + y.files.len(),
        StageModel::AddFile(k) => 6int + y.files.len() - k,
        StageModel::Diff => 6,
        StageModel::Commit => 5,
        StageModel::Fetch => 4,
        StageModel::Upstream => 3,
        StageModel::Rebase => 2,
        StageModel::Abort(_) => 1,
        StageModel::Push => 1,
        StageModel::End(_) => 0,
    }
}

/// The sync after commands with these outcomes.
pub open spec fn after_all(
    y: GitSyncModel,
    outcomes: Seq<Result<Seq<char>, Seq<char>>>,
) -> GitSyncModel
    decreases outcomes.len(),
{
    if outcomes.len() == 0 {
        y
    } else {
        advanced(after_all(y, outcomes.drop_last()), outcomes.last())
    }
}

proof fn lemma_fewer_left(y: GitSyncModel, outcomes: Seq<Result<Seq<char>, Seq<char>>>)
    requires
        on_course(y),
    ensures
        ({
            let z = after_all(y, outcomes);
            &&& on_course(z)
            &&& 0 <= commands_left(z)
            &&& z.stage is End || commands_left(z) + outcomes.len() <= commands_left(y)
        }),
    decreases outcomes.len(),
{
    if outcomes.len() > 0 {
        lemma_fewer_left(y, outcomes.drop_last());
    }
}

/// Whatever the outcomes of its commands, a sync ends, after no more commands than eight and
/// one for each file.
pub proof fn law_sync_ends(
    goal: Goal,
    files: Seq<Seq<char>>,
    outcomes: Seq<Result<Seq<char>, Seq<char>>>,
)
    requires
        outcomes.len() >= 8 + files.len(),
    ensures
        after_all(begun(goal, files), outcomes).stage is End,
{
    lemma_fewer_left(begun(goal, files), outcomes);
}

/// A rebase that fails is aborted: that is the next command, and after it the sync ends in
/// the rebase's error, whatever became of the abort.
pub proof fn law_failed_rebase_is_aborted(
    y: GitSyncModel,
    error: Seq<char>,
    outcome: Result<Seq<char>, Seq<char>>,
    stamp: Seq<char>,
)
    requires
        y.stage is Rebase,
    ensures
        ({
            let failed = advanced(y, Err(error));
            &&& arguments_of(failed, stamp) == Some(seq!["rebase"@, "--abort"@])
            &&& advanced(failed, outcome).stage == StageModel::End(Err(error))
        }),
{
}

/// Where the todo file is in no repository, or the repository has no remote, nothing is
/// run but the question, and the sync says so.
pub proof fn law_no_repo_no_sync(
    goal: Goal,
    files: Seq<Seq<char>>,
    outcome: Result<Seq<char>, Seq<char>>,
)
    ensures
        outcome != Ok::<Seq<char>, Seq<char>>("true"@) ==> advanced(
            begun(goal, files),
            outcome,
        ).stage == StageModel::End(Err(no_repo(goal))),
        outcome is Err || outcome->Ok_0.len() == 0 ==> advanced(
            GitSyncModel { stage: StageModel::Remote, ..begun(goal, files) },
            outcome,
        ).stage == StageModel::End(Err(no_repo(goal))),
{
}

/// A push says that something was pushed exactly if the files were found changed, and
/// committed, before it.
pub proof fn law_push_tells_of_changes(
    y: GitSyncModel,
    changed: Result<Seq<char>, Seq<char>>,
    outcomes: Seq<Result<Seq<char>, Seq<char>>>,
    message: Seq<char>,
)
    requires
        y.stage is Diff,
        y.goal == Goal::Push,
        after_all(advanced(y, changed), outcomes).stage == StageModel::End(Ok(message)),
    ensures
        message == push_message(changed is Err),
{
    lemma_dirty_stays(advanced(y, changed), outcomes, changed is Err);
}

proof fn lemma_dirty_stays(
    y: GitSyncModel,
    outcomes: Seq<Result<Seq<char>, Seq<char>>>,
    dirty: bool,
)
    requires
        y.goal == Goal::Push,
        y.dirty == dirty,
        commands_left(y) < 6,
        !(y.stage is AddFile),
        y.stage !is End,
    ensures
        ({
            let z = after_all(y, outcomes);
            &&& z.goal == Goal::Push
            &&& z.dirty == dirty
            &&& commands_left(z) < 6
            &&& !(z.stage is AddFile)
            &&& z.stage matches StageModel::End(Ok(message)) ==> message == push_message(dirty)
        }),
    decreases outcomes.len(),
{
    if outcomes.len() > 0 {
        lemma_dirty_stays(y, outcomes.drop_last(), dirty);
    }
}

} // verus!
