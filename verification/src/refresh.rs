//! Refresh items, and the jobs that items of one checkout share.
use vstd::prelude::*;

use crate::cache::{CacheView, GitStatusCache};
use crate::path::{GitPath, PathView};
use crate::status::{CacheEntryView, GitStatusCacheEntry, PaneId};
use crate::views::{option_view, seq_view};

verus! {

/// What consumes a refreshed Git snapshot: a workspace row or one pane.
#[derive(Debug, PartialEq, Eq)]
pub enum GitRefreshTarget {
    Workspace { workspace_id: String, resolved_identity_cwd: GitPath },
    Pane { pane_id: PaneId, cwd: GitPath },
}

/// What a [`GitRefreshTarget`] stands for.
pub enum TargetView {
    Workspace { workspace_id: Seq<char>, resolved_identity_cwd: PathView },
    Pane { pane_id: PaneId, cwd: PathView },
}

impl TargetView {
    /// The directory the target displays the status of.
    pub open spec fn cwd(self) -> PathView {
        match self {
            TargetView::Workspace { resolved_identity_cwd, .. } => resolved_identity_cwd,
            TargetView::Pane { cwd, .. } => cwd,
        }
    }
}

impl View for GitRefreshTarget {
    type V = TargetView;

    open spec fn view(&self) -> TargetView {
        match *self {
            GitRefreshTarget::Workspace { workspace_id, resolved_identity_cwd } => {
                TargetView::Workspace {
                    workspace_id: workspace_id@,
                    resolved_identity_cwd: resolved_identity_cwd@,
                }
            },
            GitRefreshTarget::Pane { pane_id, cwd } => TargetView::Pane { pane_id, cwd: cwd@ },
        }
    }
}

impl Clone for GitRefreshTarget {
    fn clone(&self) -> (res: Self)
        ensures
            res@ == self@,
    {
        match self {
            GitRefreshTarget::Workspace { workspace_id, resolved_identity_cwd } => {
                GitRefreshTarget::Workspace {
                    workspace_id: workspace_id.clone(),
                    resolved_identity_cwd: resolved_identity_cwd.clone(),
                }
            },
            GitRefreshTarget::Pane { pane_id, cwd } => GitRefreshTarget::Pane {
                pane_id: *pane_id,
                cwd: cwd.clone(),
            },
        }
    }
}

impl GitRefreshTarget {
    /// The directory the target displays the status of, as it is held.
    pub open spec fn held_cwd(self) -> GitPath {
        match self {
            GitRefreshTarget::Workspace { resolved_identity_cwd, .. } => resolved_identity_cwd,
            GitRefreshTarget::Pane { cwd, .. } => cwd,
        }
    }

    /// The directory the target displays the status of.
    pub fn cwd(&self) -> (res: &GitPath)
        ensures
            *res == self.held_cwd(),
            res@ == self@.cwd(),
    {
        match self {
            GitRefreshTarget::Workspace { resolved_identity_cwd, .. } => resolved_identity_cwd,
            GitRefreshTarget::Pane { cwd, .. } => cwd,
        }
    }
}

/// One directory that needs a refreshed Git snapshot.
#[derive(Debug, PartialEq, Eq)]
pub struct GitRefreshItem {
    pub target: GitRefreshTarget,
    /// The checkout the directory is known to belong to. Where it is not known,
    /// the checkout is discovered, and nothing cached for it is used.
    pub cache_key_hint: Option<GitPath>,
}

/// What a [`GitRefreshItem`] stands for.
pub struct ItemView {
    pub target: TargetView,
    pub cache_key_hint: Option<PathView>,
}

impl View for GitRefreshItem {
    type V = ItemView;

    open spec fn view(&self) -> ItemView {
        ItemView { target: self.target@, cache_key_hint: option_view(self.cache_key_hint) }
    }
}

impl Clone for GitRefreshItem {
    fn clone(&self) -> (res: Self)
        ensures
            res@ == self@,
    {
        GitRefreshItem {
            target: self.target.clone(),
            cache_key_hint: self.cache_key_hint.clone(),
        }
    }
}

/// One checkout to ask Git about, for all the targets in it.
#[derive(Debug, PartialEq, Eq)]
pub struct GitRefreshJob {
    pub cache_key: GitPath,
    pub cached: Option<GitStatusCacheEntry>,
    pub targets: Vec<GitRefreshTarget>,
}

/// What a [`GitRefreshJob`] stands for.
pub struct JobView {
    pub cache_key: PathView,
    pub cached: Option<CacheEntryView>,
    pub targets: Seq<TargetView>,
}

impl View for GitRefreshJob {
    type V = JobView;

    open spec fn view(&self) -> JobView {
        JobView {
            cache_key: self.cache_key@,
            cached: option_view(self.cached),
            targets: seq_view(self.targets@),
        }
    }
}

/// A target with the checkout that answers for it.
pub struct KeyedTarget {
    pub key: PathView,
    /// The checkout was known, not discovered.
    pub hinted: bool,
    pub target: TargetView,
}

/// The checkout that answers for an item: the one it is known to belong to, or
/// else the discovered one, or else, outside any repository, its own directory.
pub open spec fn key_of(item: ItemView, discovered: Option<PathView>) -> PathView {
    match item.cache_key_hint {
        Some(hint) => hint,
        None => match discovered {
            Some(key) => key,
            None => item.target.cwd(),
        },
    }
}

/// The targets of `items` with the checkouts that answer for them.
/// `discovered[i]` is what discovery found for item `i`.
pub open spec fn keyed_targets(
    items: Seq<ItemView>,
    discovered: Seq<Option<PathView>>,
) -> Seq<KeyedTarget> {
    Seq::new(
        items.len(),
        |i: int|
            KeyedTarget {
                key: key_of(items[i], discovered[i]),
                hinted: items[i].cache_key_hint is Some,
                target: items[i].target,
            },
    )
}

/// The checkouts of `keyed`, each once, in the order in which they first occur.
pub open spec fn distinct_keys(keyed: Seq<KeyedTarget>) -> Seq<PathView> {
    keyed.map_values(|entry: KeyedTarget| entry.key).remove_duplicates(Seq::empty())
}

/// The targets that the checkout `key` answers for, in order.
pub open spec fn targets_of(keyed: Seq<KeyedTarget>, key: PathView) -> Seq<TargetView> {
    keyed.filter_map(
        |entry: KeyedTarget|
            if entry.key == key {
                Some(entry.target)
            } else {
                None
            },
    )
}

/// Every target that the checkout `key` answers for was known to be in it.
pub open spec fn all_hinted(keyed: Seq<KeyedTarget>, key: PathView) -> bool {
    forall|i: int| 0 <= i < keyed.len() && (#[trigger] keyed[i]).key == key ==> keyed[i].hinted
}

/// The job for the checkout `key`. A cached answer is handed to it only if
/// nothing about the checkout had to be discovered.
pub open spec fn job_for(keyed: Seq<KeyedTarget>, cache: CacheView, key: PathView) -> JobView {
    JobView {
        cache_key: key,
        cached: if all_hinted(keyed, key) && cache.contains_key(key) {
            Some(cache[key])
        } else {
            None
        },
        targets: targets_of(keyed, key),
    }
}

/// One job for each checkout.
pub open spec fn jobs_for(keyed: Seq<KeyedTarget>, cache: CacheView) -> Seq<JobView> {
    distinct_keys(keyed).map_values(|key: PathView| job_for(keyed, cache, key))
}

/// `job` once one more target of its checkout has been added.
pub(crate) open spec fn job_with(job: JobView, entry: KeyedTarget) -> JobView {
    JobView {
        cache_key: job.cache_key,
        cached: if entry.hinted {
            job.cached
        } else {
            None
        },
        targets: job.targets.push(entry.target),
    }
}

/// The first job for the checkout of `entry`.
pub(crate) open spec fn first_job(cache: CacheView, entry: KeyedTarget) -> JobView {
    JobView {
        cache_key: entry.key,
        cached: if entry.hinted && cache.contains_key(entry.key) {
            Some(cache[entry.key])
        } else {
            None
        },
        targets: seq![entry.target],
    }
}

pub(crate) proof fn lemma_distinct_keys(keyed: Seq<KeyedTarget>)
    ensures
        forall|key: PathView| #[trigger]
            distinct_keys(keyed).contains(key) <==> exists|i: int|
                0 <= i < keyed.len() && (#[trigger] keyed[i]).key == key,
        distinct_keys(keyed).no_duplicates(),
    decreases keyed.len(),
{
    let keys = keyed.map_values(|entry: KeyedTarget| entry.key);
    keys.lemma_remove_duplicates_properties(Seq::empty());
    assert(keys + Seq::<PathView>::empty() =~= keys);
    assert forall|key: PathView| #[trigger] distinct_keys(keyed).contains(key) implies exists|i: int|
        0 <= i < keyed.len() && (#[trigger] keyed[i]).key == key by {
        assert((keys + Seq::<PathView>::empty()).contains(key));
        let i = choose|i: int| 0 <= i < keys.len() && keys[i] == key;
        assert(keyed[i].key == key);
    }
    assert forall|key: PathView|
        (exists|i: int| 0 <= i < keyed.len() && (#[trigger] keyed[i]).key == key) implies
        #[trigger] distinct_keys(keyed).contains(key) by {
        let i = choose|i: int| 0 <= i < keyed.len() && (#[trigger] keyed[i]).key == key;
        assert(keys[i] == key);
        assert((keys + Seq::<PathView>::empty()).contains(key));
    }
    if keyed.len() > 0 {
        let rest = keyed.drop_last();
        lemma_distinct_keys(rest);
        lemma_distinct_keys_push(rest, keyed.last());
        assert(rest.push(keyed.last()) =~= keyed);
    }
}

pub(crate) proof fn lemma_distinct_keys_push(keyed: Seq<KeyedTarget>, entry: KeyedTarget)
    ensures
        distinct_keys(keyed).contains(entry.key) ==> distinct_keys(keyed.push(entry))
            == distinct_keys(keyed),
        !distinct_keys(keyed).contains(entry.key) ==> distinct_keys(keyed.push(entry))
            == distinct_keys(keyed).push(entry.key),
{
    let keys = keyed.map_values(|e: KeyedTarget| e.key);
    let none = Seq::<PathView>::empty();
    keys.lemma_remove_duplicates_append(entry.key, none);
    keys.lemma_remove_duplicates_properties(none);
    assert(keys + none =~= keys);
    assert(distinct_keys(keyed).contains(entry.key) <==> (keys + none).contains(entry.key));
    assert(keyed.push(entry).map_values(|e: KeyedTarget| e.key) =~= keys + seq![entry.key]);
    assert(distinct_keys(keyed) + seq![entry.key] =~= distinct_keys(keyed).push(entry.key));
}

proof fn lemma_targets_push(keyed: Seq<KeyedTarget>, entry: KeyedTarget, key: PathView)
    ensures
        targets_of(keyed.push(entry), key) == if entry.key == key {
            targets_of(keyed, key).push(entry.target)
        } else {
            targets_of(keyed, key)
        },
{
    let f = |e: KeyedTarget|
        if e.key == key {
            Some(e.target)
        } else {
            None
        };
    let longer = keyed.push(entry);
    longer.lemma_filter_map_take_succ(f, keyed.len() as int);
    assert(longer.take(keyed.len() as int) =~= keyed);
    assert(longer.take((keyed.len() + 1) as int) =~= longer);
}

proof fn lemma_job_push(
    keyed: Seq<KeyedTarget>,
    cache: CacheView,
    entry: KeyedTarget,
    key: PathView,
)
    ensures
        job_for(keyed.push(entry), cache, key) == if entry.key == key {
            job_with(job_for(keyed, cache, key), entry)
        } else {
            job_for(keyed, cache, key)
        },
{
    lemma_targets_push(keyed, entry, key);
    let longer = keyed.push(entry);
    assert(all_hinted(longer, key) <==> all_hinted(keyed, key) && (entry.key == key
        ==> entry.hinted)) by {
        if all_hinted(longer, key) {
            assert(longer[keyed.len() as int] == entry);
            assert forall|i: int| 0 <= i < keyed.len() && (#[trigger] keyed[i]).key == key implies
                keyed[i].hinted by {
                assert(longer[i] == keyed[i]);
            }
        }
    }
}

/// How one more target changes the jobs: it joins the job of its checkout, or
/// opens a new one at the end.
pub(crate) proof fn lemma_jobs_push(keyed: Seq<KeyedTarget>, cache: CacheView, entry: KeyedTarget)
    ensures
        ({
            let jobs = jobs_for(keyed, cache);
            let longer = jobs_for(keyed.push(entry), cache);
            &&& (forall|j: int| 0 <= j < jobs.len() ==> (#[trigger] jobs[j]).cache_key != entry.key)
                ==> longer == jobs.push(first_job(cache, entry))
            &&& forall|j: int|
                0 <= j < jobs.len() && (#[trigger] jobs[j]).cache_key == entry.key ==> longer
                    == jobs.update(j, job_with(jobs[j], entry))
        }),
{
    let keys = distinct_keys(keyed);
    let jobs = jobs_for(keyed, cache);
    let longer = jobs_for(keyed.push(entry), cache);
    lemma_distinct_keys(keyed);
    lemma_distinct_keys_push(keyed, entry);
    assert(forall|j: int| 0 <= j < jobs.len() ==> (#[trigger] jobs[j]).cache_key == keys[j]);
    assert forall|k: PathView| true implies #[trigger] job_for(keyed.push(entry), cache, k) == if entry.key
        == k {
        job_with(job_for(keyed, cache, k), entry)
    } else {
        job_for(keyed, cache, k)
    } by {
        lemma_job_push(keyed, cache, entry, k);
    }
    if forall|j: int| 0 <= j < jobs.len() ==> (#[trigger] jobs[j]).cache_key != entry.key {
        assert(!keys.contains(entry.key)) by {
            if keys.contains(entry.key) {
                let j = choose|j: int| 0 <= j < keys.len() && keys[j] == entry.key;
                assert(jobs[j].cache_key == entry.key);
            }
        }
        assert(job_for(keyed, cache, entry.key).targets =~= Seq::<TargetView>::empty()) by {
            lemma_no_targets(keyed, entry.key);
        }
        assert(job_with(job_for(keyed, cache, entry.key), entry).targets =~= seq![entry.target]);
        assert(all_hinted(keyed, entry.key)) by {
            assert forall|i: int|
                0 <= i < keyed.len() && (#[trigger] keyed[i]).key == entry.key implies
                keyed[i].hinted by {
                assert(keys.contains(entry.key));
            }
        }
        assert(longer =~= jobs.push(first_job(cache, entry)));
    }
    assert forall|j: int| 0 <= j < jobs.len() && (#[trigger] jobs[j]).cache_key == entry.key implies
        longer == jobs.update(j, job_with(jobs[j], entry)) by {
        assert(keys[j] == entry.key);
        assert(keys.contains(entry.key));
        assert(longer =~= jobs.update(j, job_with(jobs[j], entry)));
    }
}

proof fn lemma_no_targets(keyed: Seq<KeyedTarget>, key: PathView)
    requires
        !distinct_keys(keyed).contains(key),
    ensures
        targets_of(keyed, key) == Seq::<TargetView>::empty(),
    decreases keyed.len(),
{
    if keyed.len() > 0 {
        let rest = keyed.drop_last();
        assert(rest.push(keyed.last()) =~= keyed);
        lemma_distinct_keys(keyed);
        lemma_distinct_keys(rest);
        lemma_targets_push(rest, keyed.last(), key);
        assert(keyed[keyed.len() - 1].key != key);
        if distinct_keys(rest).contains(key) {
            let i = choose|i: int| 0 <= i < rest.len() && (#[trigger] rest[i]).key == key;
            assert(keyed[i].key == key);
        }
        lemma_no_targets(rest, key);
    }
}

/// What discovery found, item by item.
pub open spec fn discovered_view(discovered: Seq<Option<GitPath>>) -> Seq<Option<PathView>> {
    discovered.map_values(|key: Option<GitPath>| option_view(key))
}

/// `discovered` holds, for each item that does not know its checkout, an answer
/// of `discover` for the directory of the item.
pub open spec fn answered_by_discovery<D: Fn(&GitPath) -> Option<GitPath>>(
    discover: D,
    items: Seq<GitRefreshItem>,
    discovered: Seq<Option<GitPath>>,
) -> bool {
    &&& discovered.len() == items.len()
    &&& forall|i: int|
        #![trigger discovered[i]]
        0 <= i < items.len() ==> if items[i].cache_key_hint is None {
            call_ensures(discover, (&items[i].target.held_cwd(),), discovered[i])
        } else {
            discovered[i] is None
        }
}

/// Groups items into one job for each checkout, in the order in which the
/// checkouts first occur. `discover` finds the checkout of a directory; it is
/// asked for the items that do not know theirs.
pub fn deduplicate_git_refresh_items<D: Fn(&GitPath) -> Option<GitPath>>(
    items: Vec<GitRefreshItem>,
    cache: &GitStatusCache,
    discover: &D,
) -> (jobs: Vec<GitRefreshJob>)
    requires
        forall|cwd: &GitPath| call_requires(*discover, (cwd,)),
    ensures
        exists|discovered: Seq<Option<GitPath>>|
            #[trigger] answered_by_discovery(*discover, items@, discovered) && seq_view(jobs@)
                == jobs_for(
                keyed_targets(seq_view(items@), discovered_view(discovered)),
                cache@,
            ),
{
    let mut discovered: Vec<Option<GitPath>> = Vec::new();
    let mut i: usize = 0;
    while i < items.len()
        invariant
            i <= items.len(),
            i == discovered.len(),
            forall|cwd: &GitPath| call_requires(*discover, (cwd,)),
            forall|j: int|
                #![trigger discovered@[j]]
                0 <= j < i ==> if items@[j].cache_key_hint is None {
                    call_ensures(*discover, (&items@[j].target.held_cwd(),), discovered@[j])
                } else {
                    discovered@[j] is None
                },
        decreases items.len() - i,
    {
        let found = if items[i].cache_key_hint.is_none() {
            discover(items[i].target.cwd())
        } else {
            None
        };
        discovered.push(found);
        i = i + 1;
    }
    assert(answered_by_discovery(*discover, items@, discovered@));
    group_discovered_items(items, discovered, cache)
}

/// Groups items whose discovery is over into one job for each checkout, in the
/// order in which the checkouts first occur. `discovered[i]` is what was found
/// for the directory of item `i`; it is not read where the item knows its
/// checkout.
pub fn group_discovered_items(
    items: Vec<GitRefreshItem>,
    discovered: Vec<Option<GitPath>>,
    cache: &GitStatusCache,
) -> (jobs: Vec<GitRefreshJob>)
    requires
        items@.len() == discovered@.len(),
    ensures
        seq_view(jobs@) == jobs_for(
            keyed_targets(seq_view(items@), discovered_view(discovered@)),
            cache@,
        ),
{
    let ghost keyed = keyed_targets(seq_view(items@), discovered_view(discovered@));
    let mut jobs: Vec<GitRefreshJob> = Vec::new();
    assert(seq_view(jobs@) =~= jobs_for(keyed.take(0), cache@)) by {
        assert(keyed.take(0).map_values(|entry: KeyedTarget| entry.key) =~= Seq::empty());
    }
    let mut i: usize = 0;
    while i < items.len()
        invariant
            i <= items.len(),
            items@.len() == discovered@.len(),
            keyed == keyed_targets(seq_view(items@), discovered_view(discovered@)),
            seq_view(jobs@) == jobs_for(keyed.take(i as int), cache@),
        decreases items.len() - i,
    {
        let item = &items[i];
        let reconcile = item.cache_key_hint.is_none();
        let cache_key = match &item.cache_key_hint {
            Some(hint) => hint.clone(),
            None => match &discovered[i] {
                Some(key) => key.clone(),
                None => item.target.cwd().clone(),
            },
        };
        let target = item.target.clone();
        let ghost entry = keyed[i as int];
        assert(entry.key == cache_key@ && entry.hinted == !reconcile && entry.target == target@);
        let ghost before = seq_view(jobs@);
        proof {
            lemma_jobs_push(keyed.take(i as int), cache@, entry);
            assert(keyed.take(i as int).push(entry) =~= keyed.take(i + 1));
        }
        match job_index(&jobs, &cache_key) {
            Some(index) => {
                let ghost job = jobs@[index as int];
                if reconcile {
                    jobs[index].cached = None;
                }
                jobs[index].targets.push(target);
                proof {
                    assert(before[index as int].cache_key == entry.key);
                    assert(seq_view(jobs@[index as int].targets@) =~= seq_view(job.targets@).push(
                        entry.target,
                    ));
                    assert(jobs@[index as int]@ == job_with(job@, entry));
                    assert(seq_view(jobs@) =~= before.update(
                        index as int,
                        job_with(before[index as int], entry),
                    ));
                }
            },
            None => {
                let cached = if reconcile {
                    None
                } else {
                    cache.get(&cache_key).cloned()
                };
                let mut targets: Vec<GitRefreshTarget> = Vec::new();
                targets.push(target);
                let job = GitRefreshJob { cache_key, cached, targets };
                proof {
                    assert(seq_view(job.targets@) =~= seq![entry.target]);
                    assert(job@ == first_job(cache@, entry));
                }
                jobs.push(job);
                assert(seq_view(jobs@) =~= before.push(first_job(cache@, entry)));
            },
        }
        i = i + 1;
    }
    assert(keyed.take(items@.len() as int) =~= keyed);
    jobs
}

/// The place of the job for the checkout `key`.
fn job_index(jobs: &Vec<GitRefreshJob>, key: &GitPath) -> (res: Option<usize>)
    ensures
        match res {
            Some(index) => index < jobs@.len() && seq_view(jobs@)[index as int].cache_key == key@,
            None => forall|j: int|
                0 <= j < jobs@.len() ==> (#[trigger] seq_view(jobs@)[j]).cache_key != key@,
        },
{
    let mut j: usize = 0;
    while j < jobs.len()
        invariant
            j <= jobs.len(),
            forall|k: int| 0 <= k < j ==> (#[trigger] seq_view(jobs@)[k]).cache_key != key@,
        decreases jobs.len() - j,
    {
        if jobs[j].cache_key.same_path(key) {
            return Some(j);
        }
        j = j + 1;
    }
    None
}

} // verus!
