//! Where the elements of a collected sequence come from.
use vstd::prelude::*;

verus! {

/// The places go up.
pub open spec fn increasing(places: Seq<int>) -> bool {
    forall|a: int, b: int|
        #![trigger places[a], places[b]]
        0 <= a < b < places.len() ==> places[a] < places[b]
}

/// The places go up: first by the outer one, then by the inner one.
pub open spec fn increasing_pairs(places: Seq<(int, int)>) -> bool {
    forall|a: int, b: int|
        #![trigger places[a], places[b]]
        0 <= a < b < places.len() ==> places[a].0 < places[b].0 || (places[a].0 == places[b].0
            && places[a].1 < places[b].1)
}

/// The places go up: first by the outermost one, last by the innermost one.
pub open spec fn increasing_triples(places: Seq<(int, int, int)>) -> bool {
    forall|a: int, b: int|
        #![trigger places[a], places[b]]
        0 <= a < b < places.len() ==> places[a].0 < places[b].0 || (places[a].0 == places[b].0 && (
        places[a].1 < places[b].1 || (places[a].1 == places[b].1 && places[a].2 < places[b].2)))
}

/// `places` are those of the elements of `s` that `f` picks, and `out` is what
/// it makes of them.
pub(crate) open spec fn picked<A, B>(
    s: Seq<A>,
    f: spec_fn(A) -> Option<B>,
    out: Seq<B>,
    places: Seq<int>,
) -> bool {
    &&& places.len() == out.len()
    &&& increasing(places)
    &&& forall|m: int|
        0 <= m < places.len() ==> 0 <= (#[trigger] places[m]) < s.len() && f(s[places[m]]) == Some(
            out[m],
        )
    &&& forall|i: int| 0 <= i < s.len() && f(#[trigger] s[i]) is Some ==> places.contains(i)
}

pub(crate) proof fn lemma_filter_map_places<A, B>(
    s: Seq<A>,
    f: spec_fn(A) -> Option<B>,
) -> (places: Seq<int>)
    ensures
        picked(s, f, s.filter_map(f), places),
    decreases s.len(),
{
    if s.len() == 0 {
        Seq::empty()
    } else {
        let n = s.len() - 1;
        let rest = s.drop_last();
        s.lemma_filter_map_take_succ(f, n);
        assert(s.take(n) =~= rest);
        assert(s.take(n + 1) =~= s);
        let earlier = lemma_filter_map_places(rest, f);
        let places = if f(s[n]) is Some {
            earlier.push(n)
        } else {
            earlier
        };
        assert forall|i: int| 0 <= i < s.len() && f(#[trigger] s[i]) is Some implies places.contains(
            i,
        ) by {
            if i < n {
                assert(rest[i] == s[i]);
                assert(earlier.contains(i));
                let m = choose|m: int| 0 <= m < earlier.len() && earlier[m] == i;
                assert(places[m] == i);
            } else {
                assert(places[earlier.len() as int] == i);
            }
        }
        assert forall|m: int| 0 <= m < places.len() implies 0 <= (#[trigger] places[m]) < s.len()
            && f(s[places[m]]) == Some(s.filter_map(f)[m]) by {
            if m < earlier.len() {
                assert(places[m] == earlier[m]);
                assert(rest[earlier[m]] == s[earlier[m]]);
            }
        }
        places
    }
}

/// `places` are those of the elements of the sequences `g(s[i])` that `f(s[i])`
/// picks, and `out` is what it makes of them.
pub(crate) open spec fn picked_inside<A, B, C>(
    s: Seq<A>,
    g: spec_fn(A) -> Seq<C>,
    f: spec_fn(A) -> spec_fn(C) -> Option<B>,
    out: Seq<B>,
    places: Seq<(int, int)>,
) -> bool {
    &&& places.len() == out.len()
    &&& increasing_pairs(places)
    &&& forall|m: int|
        0 <= m < places.len() ==> {
            let (i, k) = #[trigger] places[m];
            &&& 0 <= i < s.len()
            &&& 0 <= k < g(s[i]).len()
            &&& f(s[i])(g(s[i])[k]) == Some(out[m])
        }
    &&& forall|i: int, k: int|
        0 <= i < s.len() && 0 <= k < g(s[i]).len() && f(s[i])(#[trigger] g(s[i])[k]) is Some
            ==> places.contains((i, k))
}

pub(crate) proof fn lemma_flat_map_places<A, B, C>(
    s: Seq<A>,
    g: spec_fn(A) -> Seq<C>,
    f: spec_fn(A) -> spec_fn(C) -> Option<B>,
    h: spec_fn(A) -> Seq<B>,
) -> (places: Seq<(int, int)>)
    requires
        forall|a: A| (#[trigger] h(a)) == g(a).filter_map(f(a)),
    ensures
        picked_inside(s, g, f, s.flat_map(h), places),
    decreases s.len(),
{
    if s.len() == 0 {
        assert(s.map_values(h) =~= Seq::empty());
        Seq::empty()
    } else {
        let n = s.len() - 1;
        let rest = s.drop_last();
        let last = s.last();
        rest.lemma_flat_map_push(h, last);
        assert(rest.push(last) =~= s);
        let earlier = lemma_flat_map_places(rest, g, f, h);
        let inner = lemma_filter_map_places(g(last), f(last));
        let own = Seq::new(inner.len(), |m: int| (n, inner[m]));
        let places = earlier + own;
        let before = rest.flat_map(h);
        let out = s.flat_map(h);
        assert(out == before + h(last));
        assert forall|m: int| 0 <= m < places.len() implies ({
            let (i, k) = #[trigger] places[m];
            &&& 0 <= i < s.len()
            &&& 0 <= k < g(s[i]).len()
            &&& f(s[i])(g(s[i])[k]) == Some(out[m])
        }) by {
            if m < earlier.len() {
                assert(places[m] == earlier[m]);
                assert(rest[earlier[m].0] == s[earlier[m].0]);
            } else {
                let p = m - earlier.len();
                assert(places[m] == (n, inner[p]));
                assert(out[m] == h(last)[p]);
            }
        }
        assert forall|i: int, k: int|
            0 <= i < s.len() && 0 <= k < g(s[i]).len() && f(s[i])(#[trigger] g(s[i])[k]) is Some implies
            places.contains((i, k)) by {
            if i < n {
                assert(rest[i] == s[i]);
                assert(f(rest[i])(g(rest[i])[k]) is Some);
                assert(earlier.contains((i, k)));
                let m = choose|m: int| 0 <= m < earlier.len() && earlier[m] == (i, k);
                assert(places[m] == (i, k));
            } else {
                assert(inner.contains(k));
                let m = choose|m: int| 0 <= m < inner.len() && inner[m] == k;
                assert(places[earlier.len() + m] == (i, k));
            }
        }
        assert forall|a: int, b: int|
            #![trigger places[a], places[b]]
            0 <= a < b < places.len() implies places[a].0 < places[b].0 || (places[a].0
            == places[b].0 && places[a].1 < places[b].1) by {
            if b < earlier.len() {
                assert(places[a] == earlier[a] && places[b] == earlier[b]);
            } else if a < earlier.len() {
                assert(places[a] == earlier[a]);
                assert(places[b].0 == n);
            } else {
                assert(places[a] == own[a - earlier.len()] && places[b] == own[b - earlier.len()]);
                assert(inner[a - earlier.len()] < inner[b - earlier.len()]);
            }
        }
        places
    }
}

pub(crate) proof fn lemma_filter_map_count<A, B>(
    s: Seq<A>,
    f: spec_fn(A) -> Option<B>,
    keep: spec_fn(A) -> bool,
)
    requires
        forall|a: A| #[trigger] keep(a) <==> f(a) is Some,
    ensures
        s.filter_map(f).len() == s.filter(keep).len(),
    decreases s.len(),
{
    reveal(Seq::filter);
    if s.len() > 0 {
        let n = s.len() - 1;
        lemma_filter_map_count(s.drop_last(), f, keep);
        s.lemma_filter_map_take_succ(f, n);
        assert(s.take(n) =~= s.drop_last());
        assert(s.take(n + 1) =~= s);
        assert(keep(s.last()) <==> f(s.last()) is Some);
    }
}

} // verus!
