//! What holds of a refresh as a whole, from its items to its results.
use vstd::prelude::*;

use crate::cache::CacheView;
use crate::output::{AnswerView, AnsweredJob, OutputView};
use crate::path::PathView;
use crate::refresh::{ItemView, JobView, KeyedTarget, TargetView};
use crate::status::{
    CacheEntryView, GitStatusRefreshDemand, PaneStatusView, SnapshotView, WorkspaceStatusView,
};

verus! {

/// Git is asked about a checkout once: no two jobs are for the same one.
pub proof fn one_job_for_each_checkout(keyed: Seq<KeyedTarget>, cache: CacheView)
    ensures
        forall|i: int, j: int|
            0 <= i < j < crate::refresh::jobs_for(keyed, cache).len() ==> (
            #[trigger] crate::refresh::jobs_for(keyed, cache)[i]).cache_key != (
            #[trigger] crate::refresh::jobs_for(keyed, cache)[j]).cache_key,
{
    crate::refresh::lemma_distinct_keys(keyed);
}

/// Every target has a job, and that job is for the checkout that answers for
/// the target.
pub proof fn every_target_has_a_job(keyed: Seq<KeyedTarget>, cache: CacheView, i: int)
    requires
        0 <= i < keyed.len(),
    ensures
        exists|j: int|
            {
                &&& 0 <= j < crate::refresh::jobs_for(keyed, cache).len()
                &&& (#[trigger] crate::refresh::jobs_for(keyed, cache)[j]).cache_key == keyed[i].key
                &&& crate::refresh::jobs_for(keyed, cache)[j].targets.contains(keyed[i].target)
            },
{
    let keys = crate::refresh::distinct_keys(keyed);
    let jobs = crate::refresh::jobs_for(keyed, cache);
    let key = keyed[i].key;
    crate::refresh::lemma_distinct_keys(keyed);
    assert(keys.contains(key));
    let j = choose|j: int| 0 <= j < keys.len() && keys[j] == key;
    let f = |entry: KeyedTarget|
        if entry.key == key {
            Some(entry.target)
        } else {
            None
        };
    lemma_filter_map_has(keyed, f, i);
    assert(jobs[j].cache_key == key);
    assert(jobs[j].targets == keyed.filter_map(f));
}

proof fn lemma_filter_map_has<A, B>(s: Seq<A>, f: spec_fn(A) -> Option<B>, i: int)
    requires
        0 <= i < s.len(),
        f(s[i]) is Some,
    ensures
        s.filter_map(f).contains(f(s[i])->0),
    decreases s.len(),
{
    let rest = s.drop_last();
    let n = s.len() - 1;
    s.lemma_filter_map_take_succ(f, n);
    assert(s.take(n) =~= rest);
    assert(s.take(n + 1) =~= s);
    let out = s.filter_map(f);
    if i == n {
        assert(out[out.len() - 1] == f(s[i])->0);
    } else {
        lemma_filter_map_has(rest, f, i);
        let k = choose|k: int|
            0 <= k < rest.filter_map(f).len() && rest.filter_map(f)[k] == f(s[i])->0;
        assert(out[k] == f(s[i])->0);
    }
}

/// A target whose checkout had to be discovered keeps the whole checkout from
/// being answered from the cache.
pub proof fn discovery_overrides_cache(keyed: Seq<KeyedTarget>, cache: CacheView, i: int, j: int)
    requires
        0 <= i < keyed.len(),
        !keyed[i].hinted,
        0 <= j < crate::refresh::jobs_for(keyed, cache).len(),
        crate::refresh::jobs_for(keyed, cache)[j].cache_key == keyed[i].key,
    ensures
        crate::refresh::jobs_for(keyed, cache)[j].cached is None,
{
}

/// Where no item knows its checkout, as when checkouts are discovered anew,
/// nothing is answered from the cache.
pub proof fn rediscovery_ignores_cache(
    items: Seq<ItemView>,
    discovered: Seq<Option<PathView>>,
    cache: CacheView,
)
    requires
        items.len() == discovered.len(),
        forall|i: int| 0 <= i < items.len() ==> (#[trigger] items[i]).cache_key_hint is None,
    ensures
        forall|j: int|
            #![trigger crate::refresh::jobs_for(
                crate::refresh::keyed_targets(items, discovered),
                cache,
            )[j]]
            0 <= j < crate::refresh::jobs_for(
                crate::refresh::keyed_targets(items, discovered),
                cache,
            ).len() ==> crate::refresh::jobs_for(
                crate::refresh::keyed_targets(items, discovered),
                cache,
            )[j].cached is None,
{
    let keyed = crate::refresh::keyed_targets(items, discovered);
    let keys = crate::refresh::distinct_keys(keyed);
    let jobs = crate::refresh::jobs_for(keyed, cache);
    crate::refresh::lemma_distinct_keys(keyed);
    assert forall|j: int| 0 <= j < jobs.len() implies (#[trigger] jobs[j]).cached is None by {
        assert(keys.contains(keys[j]));
        let i = choose|i: int| 0 <= i < keyed.len() && (#[trigger] keyed[i]).key == keys[j];
        assert(items[i].cache_key_hint is None);
        discovery_overrides_cache(keyed, cache, i, j);
    }
}

/// No job is made for a checkout that nothing is displayed of.
pub proof fn every_job_has_a_target(keyed: Seq<KeyedTarget>, cache: CacheView, j: int)
    requires
        0 <= j < crate::refresh::jobs_for(keyed, cache).len(),
    ensures
        crate::refresh::jobs_for(keyed, cache)[j].targets.len() > 0,
{
    let keys = crate::refresh::distinct_keys(keyed);
    crate::refresh::lemma_distinct_keys(keyed);
    assert(keys.contains(keys[j]));
    let i = choose|i: int| 0 <= i < keyed.len() && (#[trigger] keyed[i]).key == keys[j];
    let f = |entry: KeyedTarget|
        if entry.key == keys[j] {
            Some(entry.target)
        } else {
            None
        };
    lemma_filter_map_has(keyed, f, i);
    assert(crate::refresh::jobs_for(keyed, cache)[j].targets == keyed.filter_map(f));
}

/// What a job has from the cache is what the cache holds for its checkout.
pub proof fn cached_answer_is_of_own_checkout(
    keyed: Seq<KeyedTarget>,
    cache: CacheView,
    j: int,
)
    requires
        0 <= j < crate::refresh::jobs_for(keyed, cache).len(),
    ensures
        ({
            let job = crate::refresh::jobs_for(keyed, cache)[j];
            job.cached is Some ==> cache.contains_key(job.cache_key) && job.cached->0
                == cache[job.cache_key]
        }),
        ({
            let job = crate::refresh::jobs_for(keyed, cache)[j];
            crate::refresh::all_hinted(keyed, job.cache_key) && cache.contains_key(job.cache_key)
                ==> job.cached is Some
        }),
{
}

/// All the targets of jobs, in order.
pub open spec fn targets_of_jobs(jobs: Seq<JobView>) -> Seq<TargetView> {
    jobs.flat_map(|job: JobView| job.targets)
}

/// The targets, without their checkouts.
pub open spec fn bare_targets(keyed: Seq<KeyedTarget>) -> Seq<TargetView> {
    keyed.map_values(|entry: KeyedTarget| entry.target)
}

proof fn lemma_flat_map_split<A, B>(s: Seq<A>, t: Seq<A>, f: spec_fn(A) -> Seq<B>)
    ensures
        (s + t).flat_map(f) == s.flat_map(f) + t.flat_map(f),
    decreases t.len(),
{
    if t.len() == 0 {
        assert(s + t =~= s);
        assert(t.map_values(f) =~= Seq::empty());
        assert(s.flat_map(f) + t.flat_map(f) =~= s.flat_map(f));
    } else {
        let rest = t.drop_last();
        lemma_flat_map_split(s, rest, f);
        rest.lemma_flat_map_push(f, t.last());
        (s + rest).lemma_flat_map_push(f, t.last());
        assert(rest.push(t.last()) =~= t);
        assert((s + rest).push(t.last()) =~= s + t);
        assert((s + t).flat_map(f) =~= s.flat_map(f) + t.flat_map(f));
    }
}

/// Grouping items into jobs loses no target and repeats none.
pub proof fn grouping_keeps_every_target(keyed: Seq<KeyedTarget>, cache: CacheView)
    ensures
        targets_of_jobs(crate::refresh::jobs_for(keyed, cache)).to_multiset() == bare_targets(
            keyed,
        ).to_multiset(),
    decreases keyed.len(),
{
    broadcast use vstd::seq_lib::group_to_multiset_ensures;

    let f = |job: JobView| job.targets;
    if keyed.len() == 0 {
        assert(keyed.map_values(|entry: KeyedTarget| entry.key) =~= Seq::empty());
        assert(crate::refresh::jobs_for(keyed, cache) =~= Seq::empty());
        assert(crate::refresh::jobs_for(keyed, cache).map_values(f) =~= Seq::empty());
        assert(targets_of_jobs(crate::refresh::jobs_for(keyed, cache)) =~= bare_targets(keyed));
    } else {
        let rest = keyed.drop_last();
        let entry = keyed.last();
        let jobs = crate::refresh::jobs_for(rest, cache);
        let longer = crate::refresh::jobs_for(keyed, cache);
        grouping_keeps_every_target(rest, cache);
        assert(rest.push(entry) =~= keyed);
        assert(bare_targets(keyed) =~= bare_targets(rest).push(entry.target));
        crate::refresh::lemma_jobs_push(rest, cache, entry);
        if forall|j: int| 0 <= j < jobs.len() ==> (#[trigger] jobs[j]).cache_key != entry.key {
            jobs.lemma_flat_map_push(f, crate::refresh::first_job(cache, entry));
            assert(targets_of_jobs(longer) =~= targets_of_jobs(jobs).push(entry.target));
        } else {
            let j = choose|j: int|
                0 <= j < jobs.len() && (#[trigger] jobs[j]).cache_key == entry.key;
            let job = crate::refresh::job_with(jobs[j], entry);
            let head = jobs.take(j);
            let tail = jobs.skip(j + 1);
            assert(jobs =~= head + seq![jobs[j]] + tail);
            assert(longer =~= head + seq![job] + tail);
            lemma_flat_map_split(head, seq![jobs[j]], f);
            lemma_flat_map_split(head + seq![jobs[j]], tail, f);
            lemma_flat_map_split(head, seq![job], f);
            lemma_flat_map_split(head + seq![job], tail, f);
            seq![jobs[j]].lemma_flat_map_singleton(f);
            seq![job].lemma_flat_map_singleton(f);
            let before = head.flat_map(f) + jobs[j].targets;
            let after = tail.flat_map(f);
            assert(head.flat_map(f) + job.targets =~= before.push(entry.target));
            vstd::seq_lib::lemma_multiset_commutative(before, after);
            vstd::seq_lib::lemma_multiset_commutative(before.push(entry.target), after);
            assert(targets_of_jobs(longer).to_multiset() =~= targets_of_jobs(
                jobs,
            ).to_multiset().insert(entry.target));
        }
    }
}

/// The target that a workspace result is for.
pub open spec fn workspace_result_target(status: WorkspaceStatusView) -> TargetView {
    TargetView::Workspace {
        workspace_id: status.workspace_id,
        resolved_identity_cwd: status.resolved_identity_cwd,
    }
}

/// The target that a pane result is for.
pub open spec fn pane_result_target(status: PaneStatusView) -> TargetView {
    TargetView::Pane { pane_id: status.pane_id, cwd: status.cwd }
}

/// The targets that workspace results are for.
pub open spec fn workspace_result_targets(results: Seq<WorkspaceStatusView>) -> Seq<TargetView> {
    results.map_values(|status: WorkspaceStatusView| workspace_result_target(status))
}

/// The targets that pane results are for.
pub open spec fn pane_result_targets(results: Seq<PaneStatusView>) -> Seq<TargetView> {
    results.map_values(|status: PaneStatusView| pane_result_target(status))
}

/// The targets that the results of a refresh are for.
pub open spec fn answered_targets(output: OutputView) -> Seq<TargetView> {
    workspace_result_targets(output.workspace_results) + pane_result_targets(output.pane_results)
}

proof fn lemma_job_answers_targets(
    answered: AnsweredJob,
    demand: GitStatusRefreshDemand,
    targets: Seq<TargetView>,
)
    ensures
        (workspace_result_targets(
            targets.filter_map(|t: TargetView| answered.workspace_result(demand, t)),
        ) + pane_result_targets(
            targets.filter_map(|t: TargetView| answered.pane_result(demand, t)),
        )).to_multiset() == targets.to_multiset(),
    decreases targets.len(),
{
    broadcast use vstd::seq_lib::group_to_multiset_ensures;

    let for_workspace = |t: TargetView| answered.workspace_result(demand, t);
    let for_pane = |t: TargetView| answered.pane_result(demand, t);
    if targets.len() == 0 {
        assert(workspace_result_targets(targets.filter_map(for_workspace)) + pane_result_targets(
            targets.filter_map(for_pane),
        ) =~= targets);
    } else {
        let rest = targets.drop_last();
        let n = targets.len() - 1;
        let last = targets.last();
        lemma_job_answers_targets(answered, demand, rest);
        targets.lemma_filter_map_take_succ(for_workspace, n);
        targets.lemma_filter_map_take_succ(for_pane, n);
        assert(targets.take(n) =~= rest);
        assert(targets.take(n + 1) =~= targets);
        assert(rest.push(last) =~= targets);
        let ws = workspace_result_targets(rest.filter_map(for_workspace));
        let panes = pane_result_targets(rest.filter_map(for_pane));
        let ws_all = workspace_result_targets(targets.filter_map(for_workspace));
        let panes_all = pane_result_targets(targets.filter_map(for_pane));
        vstd::seq_lib::lemma_multiset_commutative(ws, panes);
        vstd::seq_lib::lemma_multiset_commutative(ws_all, panes_all);
        match last {
            TargetView::Workspace { .. } => {
                assert(ws_all =~= ws.push(last));
                assert(panes_all =~= panes);
            },
            TargetView::Pane { .. } => {
                assert(ws_all =~= ws);
                assert(panes_all =~= panes.push(last));
            },
        }
        assert((ws_all + panes_all).to_multiset() =~= (ws + panes).to_multiset().insert(last));
    }
}

proof fn lemma_results_answer_targets(
    jobs: Seq<JobView>,
    answers: Seq<AnswerView>,
    demand: GitStatusRefreshDemand,
)
    requires
        jobs.len() == answers.len(),
    ensures
        answered_targets(
            crate::output::refresh_results(crate::output::answered_jobs(jobs, answers), demand),
        ).to_multiset() == targets_of_jobs(jobs).to_multiset(),
    decreases jobs.len(),
{
    broadcast use vstd::seq_lib::group_to_multiset_ensures;

    let answered = crate::output::answered_jobs(jobs, answers);
    let output = crate::output::refresh_results(answered, demand);
    let for_workspaces = |a: AnsweredJob| a.workspace_results(demand);
    let for_panes = |a: AnsweredJob| a.pane_results(demand);
    let targets = |job: JobView| job.targets;
    if jobs.len() == 0 {
        assert(answered =~= Seq::empty());
        assert(answered.map_values(for_workspaces) =~= Seq::empty());
        assert(answered.map_values(for_panes) =~= Seq::empty());
        assert(jobs.map_values(targets) =~= Seq::empty());
        assert(answered_targets(output) =~= targets_of_jobs(jobs));
    } else {
        let n = jobs.len() - 1;
        let rest = crate::output::answered_jobs(jobs.drop_last(), answers.drop_last());
        let earlier = crate::output::refresh_results(rest, demand);
        let last = AnsweredJob { job: jobs.last(), answer: answers.last() };
        lemma_results_answer_targets(jobs.drop_last(), answers.drop_last(), demand);
        lemma_job_answers_targets(last, demand, last.job.targets);
        assert(rest.push(last) =~= answered);
        rest.lemma_flat_map_push(for_workspaces, last);
        rest.lemma_flat_map_push(for_panes, last);
        jobs.drop_last().lemma_flat_map_push(targets, jobs.last());
        assert(jobs.drop_last().push(jobs.last()) =~= jobs);
        let ws = workspace_result_targets(earlier.workspace_results);
        let panes = pane_result_targets(earlier.pane_results);
        let ws_last = workspace_result_targets(last.workspace_results(demand));
        let panes_last = pane_result_targets(last.pane_results(demand));
        assert(workspace_result_targets(output.workspace_results) =~= ws + ws_last);
        assert(pane_result_targets(output.pane_results) =~= panes + panes_last);
        vstd::seq_lib::lemma_multiset_commutative(ws, panes);
        vstd::seq_lib::lemma_multiset_commutative(ws, ws_last);
        vstd::seq_lib::lemma_multiset_commutative(panes, panes_last);
        vstd::seq_lib::lemma_multiset_commutative(ws_last, panes_last);
        vstd::seq_lib::lemma_multiset_commutative(ws + ws_last, panes + panes_last);
        vstd::seq_lib::lemma_multiset_commutative(
            targets_of_jobs(jobs.drop_last()),
            jobs.last().targets,
        );
        assert(answered_targets(output).to_multiset() =~= targets_of_jobs(jobs).to_multiset());
    }
}

/// A refresh gives every item one result: the workspaces and panes that the
/// results are for are those of the items, each as often as it occurs there.
pub proof fn every_item_gets_one_result(
    keyed: Seq<KeyedTarget>,
    cache: CacheView,
    answers: Seq<AnswerView>,
    demand: GitStatusRefreshDemand,
)
    requires
        answers.len() == crate::refresh::jobs_for(keyed, cache).len(),
    ensures
        ({
            let output = crate::output::refresh_results(
                crate::output::answered_jobs(crate::refresh::jobs_for(keyed, cache), answers),
                demand,
            );
            &&& answered_targets(output).to_multiset() == bare_targets(keyed).to_multiset()
            &&& output.workspace_results.len() + output.pane_results.len() == keyed.len()
        }),
{
    broadcast use vstd::seq_lib::group_to_multiset_ensures;

    let jobs = crate::refresh::jobs_for(keyed, cache);
    let output = crate::output::refresh_results(crate::output::answered_jobs(jobs, answers), demand);
    grouping_keeps_every_target(keyed, cache);
    lemma_results_answer_targets(jobs, answers, demand);
    assert(answered_targets(output).len() == answered_targets(output).to_multiset().len());
    assert(bare_targets(keyed).len() == bare_targets(keyed).to_multiset().len());
}

proof fn lemma_flat_map_has<A, B>(s: Seq<A>, f: spec_fn(A) -> Seq<B>, i: int, b: B)
    requires
        0 <= i < s.len(),
        f(s[i]).contains(b),
    ensures
        s.flat_map(f).contains(b),
{
    let head = s.take(i);
    let tail = s.skip(i + 1);
    assert(s =~= head + seq![s[i]] + tail);
    lemma_flat_map_split(head, seq![s[i]], f);
    lemma_flat_map_split(head + seq![s[i]], tail, f);
    seq![s[i]].lemma_flat_map_singleton(f);
    let own = f(s[i]);
    let k = choose|k: int| 0 <= k < own.len() && own[k] == b;
    assert(s.flat_map(f)[head.flat_map(f).len() + k] == b);
}

/// Every target is answered from its own checkout: there is a job for that
/// checkout, and the answer for that job is what the result of the target is
/// made from.
pub proof fn targets_are_answered_by_their_checkout(
    keyed: Seq<KeyedTarget>,
    cache: CacheView,
    answers: Seq<AnswerView>,
    demand: GitStatusRefreshDemand,
    i: int,
)
    requires
        answers.len() == crate::refresh::jobs_for(keyed, cache).len(),
        0 <= i < keyed.len(),
    ensures
        ({
            let jobs = crate::refresh::jobs_for(keyed, cache);
            let output = crate::output::refresh_results(
                crate::output::answered_jobs(jobs, answers),
                demand,
            );
            exists|j: int|
                {
                    &&& 0 <= j < jobs.len()
                    &&& (#[trigger] jobs[j]).cache_key == keyed[i].key
                    &&& match keyed[i].target {
                        TargetView::Workspace { workspace_id, resolved_identity_cwd } => {
                            output.workspace_results.contains(
                                answers[j].snapshot.for_workspace(
                                    workspace_id,
                                    resolved_identity_cwd,
                                    keyed[i].key,
                                    demand,
                                ),
                            )
                        },
                        TargetView::Pane { pane_id, cwd } => output.pane_results.contains(
                            answers[j].snapshot.for_pane(pane_id, cwd, demand),
                        ),
                    }
                }
        }),
{
    let jobs = crate::refresh::jobs_for(keyed, cache);
    let answered = crate::output::answered_jobs(jobs, answers);
    let output = crate::output::refresh_results(answered, demand);
    every_target_has_a_job(keyed, cache, i);
    let j = choose|j: int|
        {
            &&& 0 <= j < jobs.len()
            &&& (#[trigger] jobs[j]).cache_key == keyed[i].key
            &&& jobs[j].targets.contains(keyed[i].target)
        };
    let k = choose|k: int| 0 <= k < jobs[j].targets.len() && jobs[j].targets[k] == keyed[i].target;
    let own = answered[j];
    let for_workspaces = |a: AnsweredJob| a.workspace_results(demand);
    let for_panes = |a: AnsweredJob| a.pane_results(demand);
    let for_workspace = |t: TargetView| own.workspace_result(demand, t);
    let for_pane = |t: TargetView| own.pane_result(demand, t);
    match keyed[i].target {
        TargetView::Workspace { workspace_id, resolved_identity_cwd } => {
            lemma_filter_map_has(own.job.targets, for_workspace, k);
            let result = own.workspace_result(demand, keyed[i].target)->0;
            assert(own.workspace_results(demand).contains(result));
            lemma_flat_map_has(answered, for_workspaces, j, result);
        },
        TargetView::Pane { pane_id, cwd } => {
            lemma_filter_map_has(own.job.targets, for_pane, k);
            let result = own.pane_result(demand, keyed[i].target)->0;
            assert(own.pane_results(demand).contains(result));
            lemma_flat_map_has(answered, for_panes, j, result);
        },
    }
}

/// The checkouts of cache updates.
pub open spec fn updated_keys(updates: Seq<(PathView, CacheEntryView)>) -> Seq<PathView> {
    updates.map_values(|update: (PathView, CacheEntryView)| update.0)
}

proof fn lemma_updated_keys(answered: Seq<AnsweredJob>)
    requires
        forall|i: int, j: int|
            0 <= i < j < answered.len() ==> (#[trigger] answered[i]).job.cache_key != (
            #[trigger] answered[j]).job.cache_key,
    ensures
        updated_keys(crate::output::cache_updates_of(answered)).no_duplicates(),
        forall|key: PathView| #[trigger]
            updated_keys(crate::output::cache_updates_of(answered)).contains(key)
                ==> exists|i: int|
                0 <= i < answered.len() && (#[trigger] answered[i]).job.cache_key == key,
    decreases answered.len(),
{
    let f = |a: AnsweredJob| a.cache_update();
    if answered.len() > 0 {
        let rest = answered.drop_last();
        let n = answered.len() - 1;
        assert forall|i: int, j: int| 0 <= i < j < rest.len() implies (
        #[trigger] rest[i]).job.cache_key != (#[trigger] rest[j]).job.cache_key by {
            assert(answered[i].job.cache_key != answered[j].job.cache_key);
        }
        lemma_updated_keys(rest);
        answered.lemma_filter_map_take_succ(f, n);
        assert(answered.take(n) =~= rest);
        assert(answered.take(n + 1) =~= answered);
        let before = updated_keys(rest.filter_map(f));
        let after = updated_keys(answered.filter_map(f));
        let last = answered[n];
        assert forall|key: PathView| #[trigger] before.contains(key) implies exists|i: int|
            0 <= i < n && (#[trigger] answered[i]).job.cache_key == key by {
            let i = choose|i: int| 0 <= i < rest.len() && (#[trigger] rest[i]).job.cache_key == key;
            assert(answered[i].job.cache_key == key);
        }
        if last.cache_update() is Some {
            assert(after =~= before.push(last.job.cache_key));
            if before.contains(last.job.cache_key) {
                let i = choose|i: int|
                    0 <= i < n && (#[trigger] answered[i]).job.cache_key == last.job.cache_key;
                assert(answered[i].job.cache_key != answered[n].job.cache_key);
            }
            assert forall|i: int, j: int|
                0 <= i < after.len() && 0 <= j < after.len() && i != j implies after[i]
                != after[j] by {
                if i == before.len() {
                    assert(before.contains(before[j]));
                } else if j == before.len() {
                    assert(before.contains(before[i]));
                }
            }
            assert forall|key: PathView| #[trigger] after.contains(key) implies exists|i: int|
                0 <= i < answered.len() && (#[trigger] answered[i]).job.cache_key == key by {
                if key == last.job.cache_key {
                    assert(answered[n].job.cache_key == key);
                } else {
                    let k = choose|k: int| 0 <= k < after.len() && after[k] == key;
                    assert(before[k] == key);
                    assert(before.contains(key));
                }
            }
        } else {
            assert(after =~= before);
        }
    }
}

/// A refresh updates the cache at most once for each checkout.
pub proof fn one_cache_update_for_each_checkout(
    keyed: Seq<KeyedTarget>,
    cache: CacheView,
    answers: Seq<AnswerView>,
    demand: GitStatusRefreshDemand,
)
    requires
        answers.len() == crate::refresh::jobs_for(keyed, cache).len(),
    ensures
        updated_keys(
            crate::output::refresh_results(
                crate::output::answered_jobs(crate::refresh::jobs_for(keyed, cache), answers),
                demand,
            ).cache_updates,
        ).no_duplicates(),
{
    let jobs = crate::refresh::jobs_for(keyed, cache);
    let answered = crate::output::answered_jobs(jobs, answers);
    one_job_for_each_checkout(keyed, cache);
    assert forall|i: int, j: int| 0 <= i < j < answered.len() implies (
    #[trigger] answered[i]).job.cache_key != (#[trigger] answered[j]).job.cache_key by {
        assert(jobs[i].cache_key != jobs[j].cache_key);
    }
    lemma_updated_keys(answered);
}

/// Panes in one checkout show the same branch, repository and worktree mark,
/// whatever their directories are: their results are made from one answer.
pub proof fn panes_of_one_checkout_agree(
    keyed: Seq<KeyedTarget>,
    cache: CacheView,
    answers: Seq<AnswerView>,
    demand: GitStatusRefreshDemand,
    first: int,
    second: int,
)
    requires
        answers.len() == crate::refresh::jobs_for(keyed, cache).len(),
        0 <= first < keyed.len(),
        0 <= second < keyed.len(),
        keyed[first].key == keyed[second].key,
        keyed[first].target is Pane,
        keyed[second].target is Pane,
    ensures
        ({
            let results = crate::output::refresh_results(
                crate::output::answered_jobs(crate::refresh::jobs_for(keyed, cache), answers),
                demand,
            ).pane_results;
            exists|one: PaneStatusView, other: PaneStatusView|
                {
                    &&& #[trigger] results.contains(one)
                    &&& #[trigger] results.contains(other)
                    &&& pane_result_target(one) == keyed[first].target
                    &&& pane_result_target(other) == keyed[second].target
                    &&& one.branch == other.branch
                    &&& one.repo_name == other.repo_name
                    &&& one.is_linked_worktree == other.is_linked_worktree
                }
        }),
{
    let jobs = crate::refresh::jobs_for(keyed, cache);
    targets_are_answered_by_their_checkout(keyed, cache, answers, demand, first);
    targets_are_answered_by_their_checkout(keyed, cache, answers, demand, second);
    one_job_for_each_checkout(keyed, cache);
    let results = crate::output::refresh_results(
        crate::output::answered_jobs(jobs, answers),
        demand,
    ).pane_results;
    let one_pane = keyed[first].target->pane_id;
    let one_cwd = keyed[first].target->cwd;
    let other_pane = keyed[second].target->pane_id;
    let other_cwd = keyed[second].target->cwd;
    let i = choose|i: int|
        {
            &&& 0 <= i < jobs.len()
            &&& (#[trigger] jobs[i]).cache_key == keyed[first].key
            &&& results.contains(answers[i].snapshot.for_pane(one_pane, one_cwd, demand))
        };
    let j = choose|j: int|
        {
            &&& 0 <= j < jobs.len()
            &&& (#[trigger] jobs[j]).cache_key == keyed[second].key
            &&& results.contains(answers[j].snapshot.for_pane(other_pane, other_cwd, demand))
        };
    if i < j {
        assert(jobs[i].cache_key != jobs[j].cache_key);
    }
    if j < i {
        assert(jobs[j].cache_key != jobs[i].cache_key);
    }
    let one = answers[i].snapshot.for_pane(one_pane, one_cwd, demand);
    let other = answers[j].snapshot.for_pane(other_pane, other_cwd, demand);
    assert(results.contains(one) && results.contains(other));
}

/// Workspaces in a checkout at the file system root are labelled by their own
/// directories; in any other checkout they share its label.
pub proof fn root_checkout_keeps_workspace_labels(
    snapshot: SnapshotView,
    workspace_id: Seq<char>,
    cwd: PathView,
    key: PathView,
    demand: GitStatusRefreshDemand,
)
    ensures
        crate::path::file_name_of(key) is None && crate::path::file_name_of(cwd) is Some
            ==> snapshot.for_workspace(workspace_id, cwd, key, demand).auto_label
            == crate::path::display_name_of(cwd)->0,
        crate::path::file_name_of(key) is Some ==> snapshot.for_workspace(
            workspace_id,
            cwd,
            key,
            demand,
        ).auto_label == snapshot.auto_label,
{
}

} // verus!
