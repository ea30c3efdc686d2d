//! How the answers of Git become results.
use vstd::prelude::*;

use crate::cache::GitStatusCache;
use crate::path::{GitPath, PathView};
use crate::refresh::{
    answered_by_discovery, deduplicate_git_refresh_items, discovered_view, jobs_for, keyed_targets,
    GitRefreshItem, GitRefreshJob, GitRefreshTarget, JobView, TargetView,
};
use crate::status::{
    CacheEntryView, GitStatusCacheEntry, GitStatusRefreshDemand, PaneGitStatus, PaneStatusView,
    SnapshotView, WorkspaceGitStatus, WorkspaceGitStatusSnapshot, WorkspaceStatusView,
};
use crate::views::{option_view, seq_view};

verus! {

/// What Git answers for one job: the snapshot of the checkout, and what to
/// cache of it.
#[derive(Debug, PartialEq, Eq)]
pub struct GitRefreshAnswer {
    pub snapshot: WorkspaceGitStatusSnapshot,
    pub cache_entry: Option<GitStatusCacheEntry>,
}

/// What a [`GitRefreshAnswer`] stands for.
pub struct AnswerView {
    pub snapshot: SnapshotView,
    pub cache_entry: Option<CacheEntryView>,
}

impl View for GitRefreshAnswer {
    type V = AnswerView;

    open spec fn view(&self) -> AnswerView {
        AnswerView { snapshot: self.snapshot@, cache_entry: option_view(self.cache_entry) }
    }
}

/// The results of one refresh.
#[derive(Debug, PartialEq, Eq)]
pub struct GitRefreshOutput {
    pub workspace_results: Vec<WorkspaceGitStatus>,
    pub pane_results: Vec<PaneGitStatus>,
    pub cache_updates: Vec<(GitPath, GitStatusCacheEntry)>,
}

/// What a [`GitRefreshOutput`] stands for.
#[verifier::ext_equal]
pub struct OutputView {
    pub workspace_results: Seq<WorkspaceStatusView>,
    pub pane_results: Seq<PaneStatusView>,
    pub cache_updates: Seq<(PathView, CacheEntryView)>,
}

impl View for GitRefreshOutput {
    type V = OutputView;

    open spec fn view(&self) -> OutputView {
        OutputView {
            workspace_results: seq_view(self.workspace_results@),
            pane_results: seq_view(self.pane_results@),
            cache_updates: crate::cache::entries_view(self.cache_updates@),
        }
    }
}

/// A job and its answer.
pub struct AnsweredJob {
    pub job: JobView,
    pub answer: AnswerView,
}

/// The jobs, each with its answer.
pub open spec fn answered_jobs(jobs: Seq<JobView>, answers: Seq<AnswerView>) -> Seq<AnsweredJob> {
    Seq::new(jobs.len(), |j: int| AnsweredJob { job: jobs[j], answer: answers[j] })
}

impl AnsweredJob {
    /// The result for a target, if it is a workspace.
    pub open spec fn workspace_result(
        self,
        demand: GitStatusRefreshDemand,
        target: TargetView,
    ) -> Option<WorkspaceStatusView> {
        match target {
            TargetView::Workspace { workspace_id, resolved_identity_cwd } => Some(
                self.answer.snapshot.for_workspace(
                    workspace_id,
                    resolved_identity_cwd,
                    self.job.cache_key,
                    demand,
                ),
            ),
            TargetView::Pane { .. } => None,
        }
    }

    /// The result for a target, if it is a pane.
    pub open spec fn pane_result(
        self,
        demand: GitStatusRefreshDemand,
        target: TargetView,
    ) -> Option<PaneStatusView> {
        match target {
            TargetView::Workspace { .. } => None,
            TargetView::Pane { pane_id, cwd } => Some(
                self.answer.snapshot.for_pane(pane_id, cwd, demand),
            ),
        }
    }

    /// The results for the targets that are workspaces, in order.
    pub open spec fn workspace_results(
        self,
        demand: GitStatusRefreshDemand,
    ) -> Seq<WorkspaceStatusView> {
        self.job.targets.filter_map(|target: TargetView| self.workspace_result(demand, target))
    }

    /// The results for the targets that are panes, in order.
    pub open spec fn pane_results(self, demand: GitStatusRefreshDemand) -> Seq<PaneStatusView> {
        self.job.targets.filter_map(|target: TargetView| self.pane_result(demand, target))
    }

    /// What to cache for the checkout.
    pub open spec fn cache_update(self) -> Option<(PathView, CacheEntryView)> {
        match self.answer.cache_entry {
            Some(entry) => Some((self.job.cache_key, entry)),
            None => None,
        }
    }
}

/// Every cache entry that came with an answer, in the order of the jobs.
pub open spec fn cache_updates_of(answered: Seq<AnsweredJob>) -> Seq<(PathView, CacheEntryView)> {
    answered.filter_map(|a: AnsweredJob| a.cache_update())
}

/// The results of a refresh: for every target of every job what the answer for
/// its checkout says, and every cache entry that came with an answer. All of
/// them follow the order of the jobs, and of the targets in a job.
pub open spec fn refresh_results(
    answered: Seq<AnsweredJob>,
    demand: GitStatusRefreshDemand,
) -> OutputView {
    OutputView {
        workspace_results: answered.flat_map(|a: AnsweredJob| a.workspace_results(demand)),
        pane_results: answered.flat_map(|a: AnsweredJob| a.pane_results(demand)),
        cache_updates: cache_updates_of(answered),
    }
}

/// The results for answered jobs.
pub fn collect_refresh_results(
    jobs: Vec<GitRefreshJob>,
    answers: Vec<GitRefreshAnswer>,
    demand: GitStatusRefreshDemand,
) -> (output: GitRefreshOutput)
    requires
        jobs@.len() == answers@.len(),
    ensures
        output@ == refresh_results(
            answered_jobs(seq_view(jobs@), seq_view(answers@)),
            demand,
        ),
{
    let ghost answered = answered_jobs(seq_view(jobs@), seq_view(answers@));
    let ghost for_workspaces = |a: AnsweredJob| a.workspace_results(demand);
    let ghost for_panes = |a: AnsweredJob| a.pane_results(demand);
    let ghost for_cache = |a: AnsweredJob| a.cache_update();
    let mut output = GitRefreshOutput {
        workspace_results: Vec::new(),
        pane_results: Vec::new(),
        cache_updates: Vec::new(),
    };
    let mut i: usize = 0;
    proof {
        assert(answered.take(0) =~= Seq::empty());
        assert(answered.take(0).map_values(for_workspaces) =~= Seq::empty());
        assert(answered.take(0).map_values(for_panes) =~= Seq::empty());
        assert(output@ =~= refresh_results(answered.take(0), demand));
    }
    while i < jobs.len()
        invariant
            i <= jobs.len(),
            jobs@.len() == answers@.len(),
            answered == answered_jobs(seq_view(jobs@), seq_view(answers@)),
            for_workspaces == (|a: AnsweredJob| a.workspace_results(demand)),
            for_panes == (|a: AnsweredJob| a.pane_results(demand)),
            for_cache == (|a: AnsweredJob| a.cache_update()),
            output@ == refresh_results(answered.take(i as int), demand),
        decreases jobs.len() - i,
    {
        collect_job_results(&jobs[i], &answers[i], demand, &mut output);
        proof {
            answered.lemma_flat_map_take_append(for_workspaces, i as int);
            answered.lemma_flat_map_take_append(for_panes, i as int);
            answered.lemma_filter_map_take_succ(for_cache, i as int);
            assert(answered[i as int].job == jobs@[i as int]@);
            assert(answered[i as int].answer == answers@[i as int]@);
        }
        i = i + 1;
        assert(output@ =~= refresh_results(answered.take(i as int), demand));
    }
    assert(answered.take(jobs@.len() as int) =~= answered);
    output
}

/// Adds the results of one job.
fn collect_job_results(
    job: &GitRefreshJob,
    answer: &GitRefreshAnswer,
    demand: GitStatusRefreshDemand,
    output: &mut GitRefreshOutput,
)
    ensures
        ({
            let answered = AnsweredJob { job: job@, answer: answer@ };
            &&& final(output)@.workspace_results == old(output)@.workspace_results
                + answered.workspace_results(demand)
            &&& final(output)@.pane_results == old(output)@.pane_results + answered.pane_results(
                demand,
            )
            &&& final(output)@.cache_updates == match answered.cache_update() {
                Some(update) => old(output)@.cache_updates + seq![update],
                None => old(output)@.cache_updates,
            }
        }),
{
    let ghost answered = AnsweredJob { job: job@, answer: answer@ };
    let ghost before = output@;
    let ghost targets = seq_view(job.targets@);
    let ghost for_workspace = |target: TargetView| answered.workspace_result(demand, target);
    let ghost for_pane = |target: TargetView| answered.pane_result(demand, target);
    match &answer.cache_entry {
        Some(entry) => {
            output.cache_updates.push((job.cache_key.clone(), entry.clone()));
            assert(output@.cache_updates =~= before.cache_updates + seq![
                (job@.cache_key, entry@),
            ]);
        },
        None => {},
    }
    let ghost updates = output@.cache_updates;
    let mut i: usize = 0;
    proof {
        assert(targets.take(0) =~= Seq::empty());
        assert(output@.workspace_results =~= before.workspace_results + targets.take(0).filter_map(
            for_workspace,
        ));
        assert(output@.pane_results =~= before.pane_results + targets.take(0).filter_map(for_pane));
    }
    while i < job.targets.len()
        invariant
            i <= job.targets.len(),
            answered == (AnsweredJob { job: job@, answer: answer@ }),
            targets == seq_view(job.targets@),
            for_workspace == (|target: TargetView| answered.workspace_result(demand, target)),
            for_pane == (|target: TargetView| answered.pane_result(demand, target)),
            output@.workspace_results == before.workspace_results + targets.take(
                i as int,
            ).filter_map(for_workspace),
            output@.pane_results == before.pane_results + targets.take(i as int).filter_map(
                for_pane,
            ),
            output@.cache_updates == updates,
        decreases job.targets.len() - i,
    {
        let ghost earlier = output@;
        proof {
            targets.lemma_filter_map_take_succ(for_workspace, i as int);
            targets.lemma_filter_map_take_succ(for_pane, i as int);
        }
        match &job.targets[i] {
            GitRefreshTarget::Workspace { workspace_id, resolved_identity_cwd } => {
                let status = answer.snapshot.clone().into_workspace_status(
                    workspace_id.clone(),
                    resolved_identity_cwd.clone(),
                    job.cache_key.clone(),
                    demand,
                );
                output.workspace_results.push(status);
                assert(output@.workspace_results =~= earlier.workspace_results.push(status@));
            },
            GitRefreshTarget::Pane { pane_id, cwd } => {
                let status = answer.snapshot.pane_status(*pane_id, cwd.clone(), demand);
                output.pane_results.push(status);
                assert(output@.pane_results =~= earlier.pane_results.push(status@));
            },
        }
        i = i + 1;
        proof {
            assert(output@.workspace_results =~= before.workspace_results + targets.take(
                i as int,
            ).filter_map(for_workspace));
            assert(output@.pane_results =~= before.pane_results + targets.take(
                i as int,
            ).filter_map(for_pane));
        }
    }
    assert(targets.take(job.targets@.len() as int) =~= targets);
}

/// The answer cached for a job, as it is handed to Git.
pub open spec fn held_cached(job: &GitRefreshJob) -> Option<&GitStatusCacheEntry> {
    match job.cached {
        Some(entry) => Some(&entry),
        None => None,
    }
}

/// `answers` holds an answer of `probe` for each job.
pub open spec fn answered_by_probe<
    P: Fn(&GitPath, Option<&GitStatusCacheEntry>, GitStatusRefreshDemand) -> GitRefreshAnswer,
>(
    probe: P,
    demand: GitStatusRefreshDemand,
    jobs: Seq<GitRefreshJob>,
    answers: Seq<GitRefreshAnswer>,
) -> bool {
    &&& answers.len() == jobs.len()
    &&& forall|j: int|
        #![trigger answers[j]]
        0 <= j < jobs.len() ==> call_ensures(
            probe,
            (&jobs[j].cache_key, held_cached(&jobs[j]), demand),
            answers[j],
        )
}

/// Refreshes the Git status of `items`. `discover` finds the checkout of a
/// directory; it is asked for the items that do not know theirs. `probe` asks
/// Git about a checkout, given what is cached for it; it is asked once for each
/// checkout.
pub fn refresh_git_statuses_with_cache_and_demand<
    D: Fn(&GitPath) -> Option<GitPath>,
    P: Fn(&GitPath, Option<&GitStatusCacheEntry>, GitStatusRefreshDemand) -> GitRefreshAnswer,
>(
    items: Vec<GitRefreshItem>,
    cache: &GitStatusCache,
    demand: GitStatusRefreshDemand,
    discover: &D,
    probe: &P,
) -> (output: GitRefreshOutput)
    requires
        forall|cwd: &GitPath| call_requires(*discover, (cwd,)),
        forall|key: &GitPath, cached: Option<&GitStatusCacheEntry>|
            call_requires(*probe, (key, cached, demand)),
    ensures
        exists|
            discovered: Seq<Option<GitPath>>,
            jobs: Seq<GitRefreshJob>,
            answers: Seq<GitRefreshAnswer>,
        |
            {
                &&& #[trigger] answered_by_discovery(*discover, items@, discovered)
                &&& seq_view(jobs) == jobs_for(
                    keyed_targets(seq_view(items@), discovered_view(discovered)),
                    cache@,
                )
                &&& #[trigger] answered_by_probe(*probe, demand, jobs, answers)
                &&& output@ == refresh_results(
                    answered_jobs(seq_view(jobs), seq_view(answers)),
                    demand,
                )
            },
{
    let jobs = deduplicate_git_refresh_items(items, cache, discover);
    let mut answers: Vec<GitRefreshAnswer> = Vec::new();
    let mut i: usize = 0;
    while i < jobs.len()
        invariant
            i <= jobs.len(),
            i == answers.len(),
            forall|key: &GitPath, cached: Option<&GitStatusCacheEntry>|
                call_requires(*probe, (key, cached, demand)),
            forall|j: int|
                #![trigger answers@[j]]
                0 <= j < i ==> call_ensures(
                    *probe,
                    (&jobs@[j].cache_key, held_cached(&jobs@[j]), demand),
                    answers@[j],
                ),
        decreases jobs.len() - i,
    {
        let cached = jobs[i].cached.as_ref();
        assert(cached == held_cached(&jobs@[i as int]));
        answers.push(probe(&jobs[i].cache_key, cached, demand));
        i = i + 1;
    }
    assert(answered_by_probe(*probe, demand, jobs@, answers@));
    collect_refresh_results(jobs, answers, demand)
}

} // verus!
