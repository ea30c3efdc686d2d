//! Which items share a job, item by item.
use vstd::prelude::*;

use crate::cache::CacheView;
use crate::path::{GitPath, PathView};
use crate::places::increasing;
use crate::refresh::{GitRefreshItem, GitRefreshTarget, ItemView, JobView, KeyedTarget, TargetView};

verus! {

/// The checkout `key` answers for `item`, for whose directory discovery found
/// `found`: it is the checkout that the item is known to belong to; where none
/// is known, the one that was found; and where none was found either, the
/// directory of the workspace or the pane itself.
pub open spec fn answers_for(key: PathView, item: ItemView, found: Option<PathView>) -> bool {
    &&& item.cache_key_hint is Some ==> key == item.cache_key_hint->0
    &&& item.cache_key_hint is None && found is Some ==> key == found->0
    &&& item.cache_key_hint is None && found is None && item.target is Workspace ==> key
        == item.target->resolved_identity_cwd
    &&& item.cache_key_hint is None && found is None && item.target is Pane ==> key
        == item.target->cwd
}

/// The jobs for items.
pub open spec fn grouped(
    items: Seq<ItemView>,
    discovered: Seq<Option<PathView>>,
    cache: CacheView,
) -> Seq<JobView> {
    crate::refresh::jobs_for(crate::refresh::keyed_targets(items, discovered), cache)
}

proof fn lemma_earlier_occurrence(keyed: Seq<KeyedTarget>, a: int, b: int, i: int) -> (e: int)
    requires
        0 <= a < b < crate::refresh::distinct_keys(keyed).len(),
        0 <= i < keyed.len(),
        keyed[i].key == crate::refresh::distinct_keys(keyed)[b],
    ensures
        0 <= e < i,
        keyed[e].key == crate::refresh::distinct_keys(keyed)[a],
    decreases keyed.len(),
{
    let keys = crate::refresh::distinct_keys(keyed);
    let n = keyed.len() - 1;
    let rest = keyed.drop_last();
    let entry = keyed.last();
    let before = crate::refresh::distinct_keys(rest);
    crate::refresh::lemma_distinct_keys(keyed);
    crate::refresh::lemma_distinct_keys(rest);
    crate::refresh::lemma_distinct_keys_push(rest, entry);
    assert(rest.push(entry) =~= keyed);
    assert(keys[a] == before[a]);
    if i < n {
        assert(rest[i].key == keys[b]);
        assert(before.contains(rest[i].key));
        if b >= before.len() {
            assert(keys[b] == entry.key);
        }
        lemma_earlier_occurrence(rest, a, b, i)
    } else {
        assert(before.contains(before[a]));
        let e = choose|e: int| 0 <= e < rest.len() && (#[trigger] rest[e]).key == before[a];
        assert(keyed[e].key == keys[a]);
        e
    }
}

/// `places` are those of the items of `job`.
/// - The job holds exactly their targets, in order.
/// - Its checkout answers for each of them.
/// - It has a cached answer exactly if the checkout of each of them was known
///   and the cache holds an answer for the checkout, and it is that one.
pub open spec fn is_job_of(
    job: JobView,
    places: Seq<int>,
    items: Seq<ItemView>,
    discovered: Seq<Option<PathView>>,
    cache: CacheView,
) -> bool {
    &&& places.len() > 0
    &&& increasing(places)
    &&& job.targets.len() == places.len()
    &&& forall|k: int|
        #![trigger places[k]]
        0 <= k < places.len() ==> {
            &&& 0 <= places[k] < items.len()
            &&& job.targets[k] == items[places[k]].target
            &&& answers_for(job.cache_key, items[places[k]], discovered[places[k]])
        }
    &&& job.cached is Some <==> cache.contains_key(job.cache_key) && forall|k: int|
        0 <= k < places.len() ==> items[#[trigger] places[k]].cache_key_hint is Some
    &&& job.cached is Some ==> job.cached->0 == cache[job.cache_key]
}

proof fn lemma_job_places(
    items: Seq<ItemView>,
    discovered: Seq<Option<PathView>>,
    cache: CacheView,
    j: int,
) -> (places: Seq<int>)
    requires
        items.len() == discovered.len(),
        0 <= j < grouped(items, discovered, cache).len(),
    ensures
        is_job_of(grouped(items, discovered, cache)[j], places, items, discovered, cache),
        forall|i: int|
            0 <= i < items.len() && crate::refresh::key_of(#[trigger] items[i], discovered[i])
                == grouped(items, discovered, cache)[j].cache_key ==> places.contains(i),
        forall|k: int|
            0 <= k < places.len() ==> crate::refresh::key_of(
                items[#[trigger] places[k]],
                discovered[places[k]],
            ) == grouped(items, discovered, cache)[j].cache_key,
{
    let keyed = crate::refresh::keyed_targets(items, discovered);
    let keys = crate::refresh::distinct_keys(keyed);
    let job = grouped(items, discovered, cache)[j];
    let key = keys[j];
    crate::refresh::lemma_distinct_keys(keyed);
    let f = |entry: KeyedTarget|
        if entry.key == key {
            Some(entry.target)
        } else {
            None
        };
    let places = crate::places::lemma_filter_map_places(keyed, f);
    assert(job.targets == keyed.filter_map(f));
    assert forall|i: int|
        0 <= i < items.len() && crate::refresh::key_of(#[trigger] items[i], discovered[i])
            == key implies places.contains(i) by {
        assert(f(keyed[i]) is Some);
    }
    assert forall|k: int| #![trigger places[k]] 0 <= k < places.len() implies {
        &&& 0 <= places[k] < items.len()
        &&& job.targets[k] == items[places[k]].target
        &&& crate::refresh::key_of(items[places[k]], discovered[places[k]]) == key
        &&& answers_for(key, items[places[k]], discovered[places[k]])
    } by {
        assert(f(keyed[places[k]]) == Some(job.targets[k]));
    }
    assert(places.len() > 0) by {
        assert(keys.contains(key));
        let i = choose|i: int| 0 <= i < keyed.len() && (#[trigger] keyed[i]).key == key;
        assert(f(keyed[i]) is Some);
        assert(places.contains(i));
    }
    if crate::refresh::all_hinted(keyed, key) {
        assert forall|k: int| 0 <= k < places.len() implies items[
            #[trigger] places[k]
        ].cache_key_hint is Some by {
            assert(keyed[places[k]].key == key);
        }
    } else {
        let i = choose|i: int|
            0 <= i < keyed.len() && (#[trigger] keyed[i]).key == key && !keyed[i].hinted;
        assert(f(keyed[i]) is Some);
        assert(places.contains(i));
        let k = choose|k: int| 0 <= k < places.len() && places[k] == i;
        assert(items[places[k]].cache_key_hint is None);
    }
    places
}

spec fn job_places(
    items: Seq<ItemView>,
    discovered: Seq<Option<PathView>>,
    cache: CacheView,
    j: int,
    places: Seq<int>,
) -> bool {
    &&& is_job_of(grouped(items, discovered, cache)[j], places, items, discovered, cache)
    &&& forall|i: int|
        0 <= i < items.len() && crate::refresh::key_of(#[trigger] items[i], discovered[i])
            == grouped(items, discovered, cache)[j].cache_key ==> places.contains(i)
    &&& forall|k: int|
        0 <= k < places.len() ==> crate::refresh::key_of(
            items[#[trigger] places[k]],
            discovered[places[k]],
        ) == grouped(items, discovered, cache)[j].cache_key
}

/// Some of the sequences of places holds `i`.
pub open spec fn is_member(members: Seq<Seq<int>>, i: int) -> bool {
    exists|j: int| 0 <= j < members.len() && (#[trigger] members[j]).contains(i)
}

/// The items are shared out among the jobs; `members[j]` are the places of the
/// items of job `j`. Every item is in a job. No two jobs are for one checkout,
/// so that items are in one job exactly if one checkout answers for them. The
/// jobs are in the order of their first items.
pub proof fn items_are_shared_out_by_checkout(
    items: Seq<ItemView>,
    discovered: Seq<Option<PathView>>,
    cache: CacheView,
) -> (members: Seq<Seq<int>>)
    requires
        items.len() == discovered.len(),
    ensures
        members.len() == grouped(items, discovered, cache).len(),
        forall|j: int|
            #![trigger members[j]]
            0 <= j < members.len() ==> is_job_of(
                grouped(items, discovered, cache)[j],
                members[j],
                items,
                discovered,
                cache,
            ),
        forall|i: int| 0 <= i < items.len() ==> #[trigger] is_member(members, i),
        forall|a: int, b: int|
            #![trigger members[a], members[b]]
            0 <= a < b < members.len() ==> {
                &&& grouped(items, discovered, cache)[a].cache_key != grouped(
                    items,
                    discovered,
                    cache,
                )[b].cache_key
                &&& members[a][0] < members[b][0]
            },
{
    let keyed = crate::refresh::keyed_targets(items, discovered);
    let keys = crate::refresh::distinct_keys(keyed);
    let jobs = grouped(items, discovered, cache);
    crate::refresh::lemma_distinct_keys(keyed);
    let members = Seq::new(
        jobs.len(),
        |j: int| choose|places: Seq<int>| job_places(items, discovered, cache, j, places),
    );
    assert forall|j: int| #![trigger members[j]] 0 <= j < members.len() implies job_places(
        items,
        discovered,
        cache,
        j,
        members[j],
    ) by {
        let places = lemma_job_places(items, discovered, cache, j);
        assert(job_places(items, discovered, cache, j, places));
    }
    assert forall|i: int| 0 <= i < items.len() implies #[trigger] is_member(members, i) by {
        assert(keyed[i].key == crate::refresh::key_of(items[i], discovered[i]));
        assert(keys.contains(keyed[i].key));
        let j = choose|j: int| 0 <= j < keys.len() && keys[j] == keyed[i].key;
        assert(job_places(items, discovered, cache, j, members[j]));
        assert(members[j].contains(i));
    }
    assert forall|a: int, b: int|
        #![trigger members[a], members[b]]
        0 <= a < b < members.len() implies {
        &&& jobs[a].cache_key != jobs[b].cache_key
        &&& members[a][0] < members[b][0]
    } by {
        assert(job_places(items, discovered, cache, a, members[a]));
        assert(job_places(items, discovered, cache, b, members[b]));
        let i = members[b][0];
        assert(keyed[i].key == keys[b]);
        let e = lemma_earlier_occurrence(keyed, a, b, i);
        assert(crate::refresh::key_of(items[e], discovered[e]) == keys[a]);
        assert(members[a].contains(e));
        let k = choose|k: int| 0 <= k < members[a].len() && members[a][k] == e;
        if k > 0 {
            assert(members[a][0] < members[a][k]);
        }
    }
    members
}

/// Every item has a job for the checkout that answers for it: the known one, or
/// else the discovered one, or else its own directory.
pub proof fn item_is_in_the_job_of_its_checkout(
    items: Seq<ItemView>,
    discovered: Seq<Option<PathView>>,
    cache: CacheView,
    i: int,
)
    requires
        items.len() == discovered.len(),
        0 <= i < items.len(),
    ensures
        exists|j: int|
            {
                &&& 0 <= j < grouped(items, discovered, cache).len()
                &&& answers_for(
                    (#[trigger] grouped(items, discovered, cache)[j]).cache_key,
                    items[i],
                    discovered[i],
                )
                &&& grouped(items, discovered, cache)[j].targets.contains(items[i].target)
            },
{
    let jobs = grouped(items, discovered, cache);
    let members = items_are_shared_out_by_checkout(items, discovered, cache);
    assert(is_member(members, i));
    let j = choose|j: int| 0 <= j < members.len() && (#[trigger] members[j]).contains(i);
    let k = choose|k: int| 0 <= k < members[j].len() && members[j][k] == i;
    assert(jobs[j].targets[k] == items[i].target);
    assert(answers_for(jobs[j].cache_key, items[i], discovered[i]));
}

/// A job holds nothing but targets of items that its checkout answers for.
pub proof fn job_holds_only_items_of_its_checkout(
    items: Seq<ItemView>,
    discovered: Seq<Option<PathView>>,
    cache: CacheView,
    j: int,
    k: int,
)
    requires
        items.len() == discovered.len(),
        0 <= j < grouped(items, discovered, cache).len(),
        0 <= k < grouped(items, discovered, cache)[j].targets.len(),
    ensures
        exists|i: int|
            {
                &&& 0 <= i < items.len()
                &&& (#[trigger] items[i]).target == grouped(items, discovered, cache)[j].targets[k]
                &&& answers_for(
                    grouped(items, discovered, cache)[j].cache_key,
                    items[i],
                    discovered[i],
                )
            },
{
    let members = items_are_shared_out_by_checkout(items, discovered, cache);
    let i = members[j][k];
    assert(items[i].target == grouped(items, discovered, cache)[j].targets[k]);
}

/// Items that are neither known nor found to be in a checkout are not thrown
/// together: a job that holds the targets of two such items, each of which
/// occurs among the items once, holds two of one directory.
pub proof fn directories_outside_repositories_stay_apart(
    items: Seq<ItemView>,
    discovered: Seq<Option<PathView>>,
    cache: CacheView,
    first: int,
    second: int,
    j: int,
)
    requires
        items.len() == discovered.len(),
        0 <= first < items.len(),
        0 <= second < items.len(),
        items[first].cache_key_hint is None,
        items[second].cache_key_hint is None,
        discovered[first] is None,
        discovered[second] is None,
        forall|i: int|
            0 <= i < items.len() && (#[trigger] items[i]).target == items[first].target ==> i
                == first,
        forall|i: int|
            0 <= i < items.len() && (#[trigger] items[i]).target == items[second].target ==> i
                == second,
        0 <= j < grouped(items, discovered, cache).len(),
        grouped(items, discovered, cache)[j].targets.contains(items[first].target),
        grouped(items, discovered, cache)[j].targets.contains(items[second].target),
    ensures
        ({
            let one = match items[first].target {
                TargetView::Workspace { resolved_identity_cwd, .. } => resolved_identity_cwd,
                TargetView::Pane { cwd, .. } => cwd,
            };
            let other = match items[second].target {
                TargetView::Workspace { resolved_identity_cwd, .. } => resolved_identity_cwd,
                TargetView::Pane { cwd, .. } => cwd,
            };
            one == other && grouped(items, discovered, cache)[j].cache_key == one
        }),
{
    let job = grouped(items, discovered, cache)[j];
    let a = choose|a: int| 0 <= a < job.targets.len() && job.targets[a] == items[first].target;
    let b = choose|b: int| 0 <= b < job.targets.len() && job.targets[b] == items[second].target;
    job_holds_only_items_of_its_checkout(items, discovered, cache, j, a);
    job_holds_only_items_of_its_checkout(items, discovered, cache, j, b);
}

/// Discovery is asked about the directory of each item whose checkout is not
/// known, and its answer is what counts as found for that item.
pub proof fn discovery_answers_for_unknown_checkouts<D: Fn(&GitPath) -> Option<GitPath>>(
    discover: D,
    items: Seq<GitRefreshItem>,
    discovered: Seq<Option<GitPath>>,
    i: int,
)
    requires
        crate::refresh::answered_by_discovery(discover, items, discovered),
        0 <= i < items.len(),
        items[i].cache_key_hint is None,
    ensures
        discovered.len() == items.len(),
        match items[i].target {
            GitRefreshTarget::Workspace { resolved_identity_cwd, .. } => call_ensures(
                discover,
                (&resolved_identity_cwd,),
                discovered[i],
            ),
            GitRefreshTarget::Pane { cwd, .. } => call_ensures(discover, (&cwd,), discovered[i]),
        },
        crate::refresh::discovered_view(discovered).len() == discovered.len(),
        discovered[i] is None ==> crate::refresh::discovered_view(discovered)[i] is None,
        discovered[i] is Some ==> crate::refresh::discovered_view(discovered)[i] == Some(
            discovered[i]->0@,
        ),
{
    assert(discovered[i] == discovered[i]);
}

/// The directory of a target is that of its workspace or of its pane.
pub proof fn target_is_in_its_own_directory(target: GitRefreshTarget)
    ensures
        match target {
            GitRefreshTarget::Workspace { resolved_identity_cwd, .. } => target.held_cwd()
                == resolved_identity_cwd && target@.cwd() == resolved_identity_cwd@,
            GitRefreshTarget::Pane { cwd, .. } => target.held_cwd() == cwd && target@.cwd()
                == cwd@,
        },
{
}

} // verus!
