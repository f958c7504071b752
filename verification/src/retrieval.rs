//! Hybrid retrieval by Reciprocal Rank Fusion: several legs rank the memories,
//! and a memory's score is made from its ranks in all of them.

use vstd::prelude::*;

use crate::db::{self, copy_opt_json, FetchedView, SearchParams, SearchParamsView};
use crate::floats;
use crate::ids::{contains_id, MemoryId};
use crate::order::{self, order_by_score};
use crate::text::copy_strings;

verus! {

/// How many candidates each leg fetches for `k` results.
pub fn candidate_limit(k: i64, per_result: i64) -> (r: i64)
    requires
        i64::MIN <= k * per_result <= i64::MAX,
    ensures
        r == k * per_result,
{
    k * per_result
}

/// What the dense leg of a hybrid search asks for, where each leg fetches
/// `per_result` candidates for each result: the same restrictions, but no floor and
/// no ranking by recency, which come after the legs were fused.
pub open spec fn dense_search(p: SearchParamsView, per_result: i64) -> SearchParamsView {
    SearchParamsView {
        k: (p.k * per_result) as i64,
        min_similarity: 0,
        recency_weight: 0,
        ..p
    }
}

/// What the dense leg of a hybrid search asks for.
pub fn dense_params(p: &SearchParams, per_result: i64) -> (r: SearchParams)
    requires
        i64::MIN <= p.k * per_result <= i64::MAX,
    ensures
        r@ == dense_search(p@, per_result),
{
    SearchParams {
        profile: p.profile.clone(),
        k: candidate_limit(p.k, per_result),
        tags: copy_strings(p.tags.as_slice()),
        memory_types: copy_strings(p.memory_types.as_slice()),
        min_similarity: 0,
        recency_weight: 0,
        exclude_invalidated: p.exclude_invalidated,
        exclude_superseded: p.exclude_superseded,
        ref_filter: copy_opt_json(&p.ref_filter),
        facets: p.facets.copy(),
    }
}

// ---- Ranks ------------------------------------------------------------------------------

/// The ranks of an identifier in one leg: the positions that hold it.
pub open spec fn ranks_in(leg: Seq<MemoryId>, id: MemoryId) -> Seq<usize>
    decreases leg.len(),
{
    if leg.len() == 0 {
        Seq::empty()
    } else {
        let before = ranks_in(leg.drop_last(), id);
        if leg.last() == id {
            before.push((leg.len() - 1) as usize)
        } else {
            before
        }
    }
}

/// What the legs hold.
pub open spec fn leg_views(legs: Seq<Vec<MemoryId>>) -> Seq<Seq<MemoryId>> {
    legs.map_values(|leg: Vec<MemoryId>| leg@)
}

/// The ranks of an identifier in all legs, leg after leg.
pub open spec fn ranks_in_all(legs: Seq<Seq<MemoryId>>, id: MemoryId) -> Seq<usize>
    decreases legs.len(),
{
    if legs.len() == 0 {
        Seq::empty()
    } else {
        ranks_in_all(legs.drop_last(), id) + ranks_in(legs.last(), id)
    }
}

/// The identifiers of `before` and then those of a leg that are not among them,
/// each once, in the order in which they occur.
pub open spec fn with_leg(before: Seq<MemoryId>, leg: Seq<MemoryId>) -> Seq<MemoryId>
    decreases leg.len(),
{
    if leg.len() == 0 {
        before
    } else {
        let so_far = with_leg(before, leg.drop_last());
        if so_far.contains(leg.last()) {
            so_far
        } else {
            so_far.push(leg.last())
        }
    }
}

/// The identifiers of all legs, each once, in the order in which they first
/// occur.
pub open spec fn fused_ids(legs: Seq<Seq<MemoryId>>) -> Seq<MemoryId>
    decreases legs.len(),
{
    if legs.len() == 0 {
        Seq::empty()
    } else {
        with_leg(fused_ids(legs.drop_last()), legs.last())
    }
}

/// The ranks of one memory.
#[derive(Debug, PartialEq, Eq)]
pub struct Ranks {
    pub id: MemoryId,
    pub ranks: Vec<usize>,
}

fn ids_of_legs(legs: &[Vec<MemoryId>]) -> (r: Vec<MemoryId>)
    ensures
        r@ == fused_ids(leg_views(legs@)),
{
    let ghost views = leg_views(legs@);
    let mut r: Vec<MemoryId> = Vec::new();
    for i in 0..legs.len()
        invariant
            views == leg_views(legs@),
            r@ == fused_ids(views.take(i as int)),
    {
        let ghost before = r@;
        let leg = &legs[i];
        assert(views.take(i + 1).drop_last() =~= views.take(i as int));
        for j in 0..leg.len()
            invariant
                r@ == with_leg(before, leg@.take(j as int)),
        {
            assert(leg@.take(j + 1).drop_last() =~= leg@.take(j as int));
            if !contains_id(r.as_slice(), leg[j]) {
                r.push(leg[j]);
            }
        }
        assert(leg@.take(leg@.len() as int) =~= leg@);
    }
    assert(views.take(views.len() as int) =~= views);
    r
}

fn ranks_of(legs: &[Vec<MemoryId>], id: MemoryId) -> (r: Vec<usize>)
    ensures
        r@ == ranks_in_all(leg_views(legs@), id),
{
    let ghost views = leg_views(legs@);
    let mut r: Vec<usize> = Vec::new();
    for i in 0..legs.len()
        invariant
            views == leg_views(legs@),
            r@ == ranks_in_all(views.take(i as int), id),
    {
        let ghost before = r@;
        let leg = &legs[i];
        assert(views.take(i + 1).drop_last() =~= views.take(i as int));
        assert(before + ranks_in(leg@.take(0), id) =~= before);
        for j in 0..leg.len()
            invariant
                r@ == before + ranks_in(leg@.take(j as int), id),
        {
            assert(leg@.take(j + 1).drop_last() =~= leg@.take(j as int));
            if leg[j] == id {
                r.push(j);
                assert(r@ =~= before + ranks_in(leg@.take(j + 1), id));
            }
        }
        assert(leg@.take(leg@.len() as int) =~= leg@);
    }
    assert(views.take(views.len() as int) =~= views);
    r
}

/// What a list of [`Ranks`] stands for.
pub open spec fn rank_views(all: Seq<Ranks>) -> Seq<(MemoryId, Seq<usize>)> {
    all.map_values(|r: Ranks| (r.id, r.ranks@))
}

/// The ranks of every memory that a leg ranks, in the order in which they first
/// occur.
pub open spec fn ranks_of_all(legs: Seq<Seq<MemoryId>>) -> Seq<(MemoryId, Seq<usize>)> {
    fused_ids(legs).map_values(|id: MemoryId| (id, ranks_in_all(legs, id)))
}

/// The ranks of every memory that a leg ranks, in the order in which they first
/// occur. `legs` holds, for each leg, the memories in the order of their rank.
pub fn collect_ranks(legs: &[Vec<MemoryId>]) -> (r: Vec<Ranks>)
    ensures
        rank_views(r@) == ranks_of_all(leg_views(legs@)),
        forall|i: int| 0 <= i < r@.len() ==> has_places(legs@, #[trigger] r@[i]),
        names_each_once(legs@, r@),
{
    let ghost views = leg_views(legs@);
    let ids = ids_of_legs(legs);
    let mut r: Vec<Ranks> = Vec::new();
    for i in 0..ids.len()
        invariant
            views == leg_views(legs@),
            ids@ == fused_ids(views),
            r@.len() == i,
            forall|j: int|
                0 <= j < i ==> (#[trigger] r@[j]).id == ids@[j] && r@[j].ranks@ == ranks_in_all(
                    views,
                    ids@[j],
                ),
    {
        r.push(Ranks { id: ids[i], ranks: ranks_of(legs, ids[i]) });
    }
    assert(rank_views(r@) =~= ranks_of_all(views));
    proof {
        lemma_ranks_are_places(legs@, r@);
    }
    r
}

/// Whether the ranks are the places at which a leg has the identifier, in order.
pub open spec fn are_places_in(leg: Seq<MemoryId>, id: MemoryId, ranks: Seq<usize>) -> bool {
    &&& forall|i: int|
        0 <= i < ranks.len() ==> (#[trigger] ranks[i]) < leg.len() && leg[ranks[i] as int] == id
    &&& forall|i: int, j: int|
        0 <= i < j < ranks.len() ==> #[trigger] ranks[i] < #[trigger] ranks[j]
    &&& forall|p: int|
        0 <= p < leg.len() && #[trigger] leg[p] == id ==> ranks.contains(p as usize)
}

/// Whether the ranks are the places at which the legs have the identifier, leg after
/// leg: `parts` holds those of each leg.
pub open spec fn are_places(
    legs: Seq<Vec<MemoryId>>,
    id: MemoryId,
    ranks: Seq<usize>,
    parts: Seq<Seq<usize>>,
) -> bool {
    &&& parts.len() == legs.len()
    &&& ranks == parts.flatten()
    &&& forall|l: int|
        0 <= l < legs.len() ==> are_places_in((#[trigger] legs[l])@, id, parts[l])
}

/// Whether the ranks of an entry are the places at which the legs have its memory.
pub open spec fn has_places(legs: Seq<Vec<MemoryId>>, entry: Ranks) -> bool {
    exists|parts: Seq<Seq<usize>>| #[trigger]
        are_places(legs, entry.id, entry.ranks@, parts)
}

/// Whether the identifier is in a leg at the place, and at no earlier place of it or
/// of an earlier leg.
pub open spec fn occurs_first(legs: Seq<Vec<MemoryId>>, id: MemoryId, l: int, p: int) -> bool {
    &&& 0 <= l < legs.len() && 0 <= p < legs[l]@.len() && legs[l]@[p] == id
    &&& forall|q: int| 0 <= q < p ==> #[trigger] legs[l]@[q] != id
    &&& forall|m: int| 0 <= m < l ==> !(#[trigger] legs[m])@.contains(id)
}

/// Whether some leg has the identifier.
pub open spec fn occurs(legs: Seq<Vec<MemoryId>>, id: MemoryId) -> bool {
    exists|l: int, p: int| occurs_first(legs, id, l, p)
}

/// Whether the entries name every memory of the legs once, in the order in which
/// they first occur.
pub open spec fn names_each_once(legs: Seq<Vec<MemoryId>>, all: Seq<Ranks>) -> bool {
    &&& forall|i: int, j: int|
        0 <= i < j < all.len() ==> (#[trigger] all[i]).id != (#[trigger] all[j]).id
    &&& forall|i: int| 0 <= i < all.len() ==> occurs(legs, (#[trigger] all[i]).id)
    &&& forall|l: int, p: int|
        0 <= l < legs.len() && 0 <= p < legs[l]@.len() ==> exists|i: int|
            0 <= i < all.len() && (#[trigger] all[i]).id == #[trigger] legs[l]@[p]
    &&& forall|i: int, j: int, l: int, p: int, m: int, q: int|
        0 <= i < j < all.len() && #[trigger] occurs_first(legs, all[i].id, l, p)
            && #[trigger] occurs_first(legs, all[j].id, m, q) ==> l < m || (l == m && p < q)
}

proof fn lemma_with_leg(before: Seq<MemoryId>, leg: Seq<MemoryId>)
    requires
        before.no_duplicates(),
    ensures
        with_leg(before, leg).no_duplicates(),
        forall|id: MemoryId| #[trigger]
            with_leg(before, leg).contains(id) <==> before.contains(id) || leg.contains(id),
    decreases leg.len(),
{
    if leg.len() > 0 {
        let rest = leg.drop_last();
        lemma_with_leg(before, rest);
        let so_far = with_leg(before, rest);
        assert(leg =~= rest.push(leg.last()));
        assert forall|id: MemoryId| #[trigger] with_leg(before, leg).contains(id)
            <==> before.contains(id) || leg.contains(id) by {
            vstd::seq_lib::lemma_seq_contains_after_push(rest, leg.last(), id);
            vstd::seq_lib::lemma_seq_contains_after_push(so_far, leg.last(), id);
            assert(so_far.contains(id) <==> before.contains(id) || rest.contains(id));
        }
    }
}

/// Fusion loses no memory and counts none twice: the memories that come out are
/// exactly those that some leg ranks, each once.
pub proof fn lemma_fusion_is_complete(legs: Seq<Seq<MemoryId>>)
    ensures
        fused_ids(legs).no_duplicates(),
        forall|id: MemoryId| #[trigger]
            fused_ids(legs).contains(id) <==> exists|i: int|
                0 <= i < legs.len() && (#[trigger] legs[i]).contains(id),
    decreases legs.len(),
{
    if legs.len() > 0 {
        let rest = legs.drop_last();
        lemma_fusion_is_complete(rest);
        lemma_with_leg(fused_ids(rest), legs.last());
        assert forall|id: MemoryId| #[trigger] fused_ids(legs).contains(id) <==> exists|i: int|
            0 <= i < legs.len() && (#[trigger] legs[i]).contains(id) by {
            if fused_ids(rest).contains(id) {
                let i = choose|i: int| 0 <= i < rest.len() && (#[trigger] rest[i]).contains(id);
                assert(legs[i] == rest[i]);
            }
            if legs.last().contains(id) {
                assert(legs[legs.len() - 1].contains(id));
            }
            if exists|i: int| 0 <= i < legs.len() && (#[trigger] legs[i]).contains(id) {
                let i = choose|i: int| 0 <= i < legs.len() && (#[trigger] legs[i]).contains(id);
                if i < rest.len() {
                    assert(rest[i] == legs[i]);
                }
            }
        }
    }
}

proof fn lemma_ranks_exist(leg: Seq<MemoryId>, id: MemoryId)
    ensures
        leg.contains(id) <==> ranks_in(leg, id).len() > 0,
    decreases leg.len(),
{
    if leg.len() > 0 {
        let rest = leg.drop_last();
        lemma_ranks_exist(rest, id);
        assert(leg =~= rest.push(leg.last()));
        vstd::seq_lib::lemma_seq_contains_after_push(rest, leg.last(), id);
    }
}

/// A memory has a rank exactly where some leg ranks it: one leg is enough for a
/// score.
pub proof fn lemma_fused_memory_has_a_rank(legs: Seq<Seq<MemoryId>>, id: MemoryId)
    ensures
        fused_ids(legs).contains(id) <==> ranks_in_all(legs, id).len() > 0,
    decreases legs.len(),
{
    if legs.len() > 0 {
        lemma_fused_memory_has_a_rank(legs.drop_last(), id);
        lemma_fusion_is_complete(legs.drop_last());
        lemma_with_leg(fused_ids(legs.drop_last()), legs.last());
        lemma_ranks_exist(legs.last(), id);
    }
}

proof fn lemma_places_in(leg: Seq<MemoryId>, id: MemoryId)
    requires
        leg.len() <= usize::MAX,
    ensures
        are_places_in(leg, id, ranks_in(leg, id)),
    decreases leg.len(),
{
    if leg.len() > 0 {
        let rest = leg.drop_last();
        lemma_places_in(rest, id);
        let before = ranks_in(rest, id);
        let ranks = ranks_in(leg, id);
        let last = leg.len() - 1;
        assert forall|i: int| 0 <= i < ranks.len() implies (#[trigger] ranks[i]) < leg.len()
            && leg[ranks[i] as int] == id by {
            if i < before.len() {
                assert(ranks[i] == before[i]);
                assert(rest[before[i] as int] == leg[before[i] as int]);
            }
        }
        assert forall|i: int, j: int| 0 <= i < j < ranks.len() implies #[trigger] ranks[i]
            < #[trigger] ranks[j] by {
            assert(ranks[i] == before[i]);
            if j < before.len() {
                assert(ranks[j] == before[j]);
            }
        }
        assert forall|p: int| 0 <= p < leg.len() && #[trigger] leg[p] == id implies ranks.contains(
            p as usize,
        ) by {
            if p < last {
                assert(rest[p] == id);
                let i = choose|i: int| 0 <= i < before.len() && before[i] == p as usize;
                assert(ranks[i] == p as usize);
            } else {
                assert(ranks[before.len() as int] == p as usize);
            }
        }
    }
}

proof fn lemma_places(legs: Seq<Vec<MemoryId>>, id: MemoryId) -> (parts: Seq<Seq<usize>>)
    ensures
        are_places(legs, id, ranks_in_all(leg_views(legs), id), parts),
    decreases legs.len(),
{
    let views = leg_views(legs);
    if legs.len() == 0 {
        let parts = Seq::<Seq<usize>>::empty();
        assert(parts.flatten() =~= Seq::<usize>::empty());
        parts
    } else {
        let rest = legs.drop_last();
        let before = lemma_places(rest, id);
        assert(leg_views(rest) =~= views.drop_last());
        assert(legs.last()@.len() == legs.last().len());
        lemma_places_in(legs.last()@, id);
        let parts = before.push(ranks_in(legs.last()@, id));
        before.lemma_flatten_push(ranks_in(legs.last()@, id));
        assert forall|l: int| 0 <= l < legs.len() implies are_places_in(
            (#[trigger] legs[l])@,
            id,
            parts[l],
        ) by {
            if l < rest.len() {
                assert(rest[l] == legs[l]);
                assert(parts[l] == before[l]);
            }
        }
        parts
    }
}

proof fn lemma_ids_in_order(legs: Seq<Vec<MemoryId>>)
    ensures
        forall|id: MemoryId| #[trigger]
            fused_ids(leg_views(legs)).contains(id) ==> occurs(legs, id),
        forall|i: int, j: int, l: int, p: int, m: int, q: int|
            0 <= i < j < fused_ids(leg_views(legs)).len() && #[trigger] occurs_first(
                legs,
                fused_ids(leg_views(legs))[i],
                l,
                p,
            ) && #[trigger] occurs_first(legs, fused_ids(leg_views(legs))[j], m, q) ==> l < m || (l
                == m && p < q),
    decreases legs.len(),
{
    let views = leg_views(legs);
    let ids = fused_ids(views);
    lemma_fusion_is_complete(views);
    if legs.len() > 0 {
        let rest = legs.drop_last();
        let last = legs.len() - 1;
        let leg = legs[last]@;
        assert(leg_views(rest) =~= views.drop_last());
        lemma_ids_in_order(rest);
        let before = fused_ids(leg_views(rest));
        lemma_fusion_is_complete(leg_views(rest));
        lemma_with_leg_order(before, leg);
        assert forall|id: MemoryId| #[trigger] ids.contains(id) implies occurs(legs, id) by {
            if before.contains(id) {
                let (l, p) = choose|l: int, p: int| occurs_first(rest, id, l, p);
                assert(legs[l] == rest[l]);
                assert forall|m: int| 0 <= m < l implies !(#[trigger] legs[m])@.contains(id) by {
                    assert(rest[m] == legs[m]);
                }
                assert(occurs_first(legs, id, l, p));
            } else {
                lemma_with_leg(before, leg);
                assert(leg.contains(id));
                let p = lemma_first_place(leg, id);
                assert forall|m: int| 0 <= m < last implies !(#[trigger] legs[m])@.contains(id) by {
                    assert(leg_views(rest)[m] == legs[m]@);
                }
                assert(occurs_first(legs, id, last, p));
            }
        }
        assert forall|i: int, j: int, l: int, p: int, m: int, q: int|
            0 <= i < j < ids.len() && #[trigger] occurs_first(legs, ids[i], l, p)
                && #[trigger] occurs_first(legs, ids[j], m, q) implies l < m || (l == m && p
            < q) by {
            assert(i < before.len() ==> ids[i] == before[i]);
            assert(j < before.len() ==> ids[j] == before[j]);
            if i < before.len() {
                lemma_first_in_rest(legs, before, ids[i], l, p);
            }
            if j < before.len() {
                lemma_first_in_rest(legs, before, ids[j], m, q);
                assert(occurs_first(rest, before[i], l, p));
                assert(occurs_first(rest, before[j], m, q));
            } else {
                if m < last {
                    assert(leg_views(rest)[m].contains(ids[j]));
                    assert(before.contains(ids[j]));
                    let k = choose|k: int| 0 <= k < before.len() && before[k] == ids[j];
                    assert(ids[k] == ids[j]);
                    assert(false);
                }
                if i >= before.len() {
                    if l < last {
                        assert(leg_views(rest)[l].contains(ids[i]));
                        assert(before.contains(ids[i]));
                        let k = choose|k: int| 0 <= k < before.len() && before[k] == ids[i];
                        assert(ids[k] == ids[i]);
                        assert(false);
                    }
                    assert(first_in(leg, ids[i], p));
                    assert(first_in(leg, ids[j], q));
                }
            }
        }
    }
}

/// Whether the leg has the identifier at the place, and at no earlier one.
pub open spec fn first_in(leg: Seq<MemoryId>, id: MemoryId, p: int) -> bool {
    &&& 0 <= p < leg.len() && leg[p] == id
    &&& forall|q: int| 0 <= q < p ==> #[trigger] leg[q] != id
}

proof fn lemma_first_place(leg: Seq<MemoryId>, id: MemoryId) -> (p: int)
    requires
        leg.contains(id),
    ensures
        first_in(leg, id, p),
    decreases leg.len(),
{
    let rest = leg.drop_last();
    if rest.contains(id) {
        let p = lemma_first_place(rest, id);
        assert forall|q: int| 0 <= q < p implies #[trigger] leg[q] != id by {
            assert(rest[q] == leg[q]);
        }
        p
    } else {
        let p = leg.len() - 1;
        let k = choose|k: int| 0 <= k < leg.len() && leg[k] == id;
        if k < p {
            assert(rest[k] == id);
        }
        assert forall|q: int| 0 <= q < p implies #[trigger] leg[q] != id by {
            assert(rest[q] == leg[q]);
        }
        p
    }
}

proof fn lemma_first_in_rest(
    legs: Seq<Vec<MemoryId>>,
    before: Seq<MemoryId>,
    id: MemoryId,
    l: int,
    p: int,
)
    requires
        legs.len() > 0,
        before == fused_ids(leg_views(legs.drop_last())),
        before.contains(id),
        occurs_first(legs, id, l, p),
    ensures
        occurs_first(legs.drop_last(), id, l, p),
        l < legs.len() - 1,
{
    let rest = legs.drop_last();
    lemma_fusion_is_complete(leg_views(rest));
    let k = choose|k: int|
        0 <= k < leg_views(rest).len() && (#[trigger] leg_views(rest)[k]).contains(id);
    assert(legs[k]@.contains(id));
    assert(rest[l] == legs[l]);
    assert forall|m: int| 0 <= m < l implies !(#[trigger] rest[m])@.contains(id) by {
        assert(rest[m] == legs[m]);
    }
}

proof fn lemma_with_leg_order(before: Seq<MemoryId>, leg: Seq<MemoryId>)
    requires
        before.no_duplicates(),
    ensures
        with_leg(before, leg).len() >= before.len(),
        with_leg(before, leg).take(before.len() as int) == before,
        forall|i: int, j: int, p: int, q: int|
            before.len() <= i < j < with_leg(before, leg).len() && #[trigger] first_in(
                leg,
                with_leg(before, leg)[i],
                p,
            ) && #[trigger] first_in(leg, with_leg(before, leg)[j], q) ==> p < q,
    decreases leg.len(),
{
    if leg.len() == 0 {
        assert(before.take(before.len() as int) =~= before);
    } else {
        let rest = leg.drop_last();
        lemma_with_leg_order(before, rest);
        lemma_with_leg(before, rest);
        let so_far = with_leg(before, rest);
        let all = with_leg(before, leg);
        assert(all.take(before.len() as int) =~= so_far.take(before.len() as int));
        assert forall|i: int, j: int, p: int, q: int|
            before.len() <= i < j < all.len() && #[trigger] first_in(leg, all[i], p)
                && #[trigger] first_in(leg, all[j], q) implies p < q by {
            assert(all[i] == so_far[i]);
            assert(so_far.contains(so_far[i]));
            assert(!before.contains(so_far[i])) by {
                if before.contains(so_far[i]) {
                    let k = choose|k: int| 0 <= k < before.len() && before[k] == so_far[i];
                    assert(so_far.take(before.len() as int)[k] == so_far[k]);
                    assert(so_far[k] == so_far[i]);
                }
            }
            assert(rest.contains(so_far[i]));
            let k = lemma_first_place(rest, so_far[i]);
            assert(leg[k] == rest[k]);
            assert(p <= k);
            assert(rest[p] == leg[p]);
            assert forall|x: int| 0 <= x < p implies #[trigger] rest[x] != so_far[i] by {
                assert(rest[x] == leg[x]);
            }
            assert(first_in(rest, so_far[i], p));
            if j < so_far.len() {
                assert(all[j] == so_far[j]);
                assert(so_far.contains(so_far[j]));
                assert(!before.contains(so_far[j])) by {
                    if before.contains(so_far[j]) {
                        let k = choose|k: int| 0 <= k < before.len() && before[k] == so_far[j];
                        assert(so_far.take(before.len() as int)[k] == so_far[k]);
                        assert(so_far[k] == so_far[j]);
                    }
                }
                assert(rest.contains(so_far[j]));
                let n = lemma_first_place(rest, so_far[j]);
                assert(leg[n] == rest[n]);
                assert(q <= n);
                assert(rest[q] == leg[q]);
                assert forall|x: int| 0 <= x < q implies #[trigger] rest[x] != so_far[j] by {
                    assert(rest[x] == leg[x]);
                }
                assert(first_in(rest, so_far[j], q));
            } else {
                assert(all[j] == leg.last());
                if q < rest.len() {
                    assert(rest[q] == leg[q]);
                    assert(rest.contains(leg.last()));
                    assert(so_far.contains(leg.last()));
                }
            }
        }
    }
}

/// The ranks that are collected are places: every memory that some leg has is named
/// once, in the order in which the memories first occur, and its ranks are the places
/// at which the legs have it, leg after leg.
pub proof fn lemma_ranks_are_places(legs: Seq<Vec<MemoryId>>, all: Seq<Ranks>)
    requires
        rank_views(all) == ranks_of_all(leg_views(legs)),
    ensures
        forall|i: int| 0 <= i < all.len() ==> has_places(legs, #[trigger] all[i]),
        names_each_once(legs, all),
{
    let views = leg_views(legs);
    let ids = fused_ids(views);
    assert(all.len() == rank_views(all).len());
    assert forall|i: int| 0 <= i < all.len() implies (#[trigger] all[i]).id == ids[i]
        && all[i].ranks@ == ranks_in_all(views, ids[i]) by {
        assert(rank_views(all)[i] == ranks_of_all(views)[i]);
    }
    lemma_fusion_is_complete(views);
    lemma_ids_in_order(legs);
    assert forall|i: int| 0 <= i < all.len() implies has_places(legs, #[trigger] all[i]) by {
        let parts = lemma_places(legs, all[i].id);
        assert(are_places(legs, all[i].id, all[i].ranks@, parts));
    }
    assert forall|i: int| 0 <= i < all.len() implies occurs(legs, (#[trigger] all[i]).id) by {
        assert(ids.contains(ids[i]));
    }
    assert forall|l: int, p: int| 0 <= l < legs.len() && 0 <= p < legs[l]@.len() implies exists|
        i: int,
    | 0 <= i < all.len() && (#[trigger] all[i]).id == #[trigger] legs[l]@[p] by {
        assert(views[l].contains(legs[l]@[p]));
        assert(ids.contains(legs[l]@[p]));
        let i = choose|i: int| 0 <= i < ids.len() && ids[i] == legs[l]@[p];
        assert(all[i].id == legs[l]@[p]);
    }
    assert forall|i: int, j: int, l: int, p: int, m: int, q: int|
        0 <= i < j < all.len() && #[trigger] occurs_first(legs, all[i].id, l, p)
            && #[trigger] occurs_first(legs, all[j].id, m, q) implies l < m || (l == m && p
        < q) by {
        assert(all[i].id == ids[i]);
        assert(all[j].id == ids[j]);
        assert(occurs_first(legs, ids[i], l, p));
        assert(occurs_first(legs, ids[j], m, q));
    }
}

/// With one leg of distinct memories, each is named at its place, and its one rank is
/// that place: the nearest memory has rank zero.
pub proof fn lemma_one_leg_ranks_by_place(leg: Vec<MemoryId>, all: Seq<Ranks>)
    requires
        leg@.no_duplicates(),
        rank_views(all) == ranks_of_all(leg_views(seq![leg])),
    ensures
        all.len() == leg@.len(),
        forall|i: int|
            0 <= i < all.len() ==> (#[trigger] all[i]).id == leg@[i] && all[i].ranks@ == seq![
                i as usize,
            ],
{
    let legs = seq![leg];
    let views = leg_views(legs);
    assert(leg@.len() == leg.len());
    assert(views.drop_last() =~= Seq::<Seq<MemoryId>>::empty());
    assert(views.last() == leg@);
    assert(fused_ids(views.drop_last()) == Seq::<MemoryId>::empty());
    lemma_one_leg(leg@);
    let ids = fused_ids(views);
    assert(ids == leg@);
    assert(all.len() == rank_views(all).len());
    assert forall|i: int| 0 <= i < all.len() implies (#[trigger] all[i]).id == leg@[i]
        && all[i].ranks@ == seq![i as usize] by {
        assert(rank_views(all)[i] == ranks_of_all(views)[i]);
        let id = leg@[i];
        assert(ranks_in_all(views.drop_last(), id) == Seq::<usize>::empty());
        lemma_places_in(leg@, id);
        let ranks = ranks_in(leg@, id);
        assert(ranks_in_all(views, id) =~= ranks);
        assert(ranks.contains(i as usize));
        assert(ranks =~= seq![i as usize]) by {
            assert forall|k: int| 0 <= k < ranks.len() implies ranks[k] == i as usize by {
                assert(leg@[ranks[k] as int] == leg@[i]);
            }
            if ranks.len() > 1 {
                assert(ranks[0] < ranks[1]);
            }
        }
    }
}

proof fn lemma_one_leg(leg: Seq<MemoryId>)
    requires
        leg.no_duplicates(),
    ensures
        with_leg(Seq::empty(), leg) == leg,
    decreases leg.len(),
{
    if leg.len() > 0 {
        let rest = leg.drop_last();
        assert(rest.no_duplicates()) by {
            assert forall|a: int, b: int| 0 <= a < rest.len() && 0 <= b < rest.len() && a != b implies
                rest[a] != rest[b] by {
                assert(rest[a] == leg[a]);
                assert(rest[b] == leg[b]);
            }
        }
        lemma_one_leg(rest);
        if rest.contains(leg.last()) {
            let k = choose|k: int| 0 <= k < rest.len() && rest[k] == leg.last();
            assert(leg[k] == leg[leg.len() - 1]);
        }
        assert(rest.push(leg.last()) =~= leg);
    }
}

// ---- Selection ----------------------------------------------------------------------------

/// The first `k` positions, or all where there are fewer.
pub open spec fn first(order: Seq<usize>, k: int) -> Seq<usize> {
    order.take(
        if k <= order.len() {
            k
        } else {
            order.len() as int
        },
    )
}

/// Whether `picked` are the first `k` positions of the scores in the given order,
/// highest score first.
pub open spec fn is_top(picked: Seq<usize>, scores: Seq<u32>, k: int, order: Seq<usize>) -> bool {
    &&& order::is_stable_order(order::descending(scores), order)
    &&& picked == first(order, k)
}

/// The positions of the `k` highest scores, highest first; level scores keep
/// their order.
pub fn top_scored(scores: &[u32], k: usize) -> (r: Vec<usize>)
    ensures
        exists|order: Seq<usize>| #[trigger] is_top(r@, scores@, k as int, order),
{
    let order = order_by_score(scores);
    let n: usize = if k <= order.len() {
        k
    } else {
        order.len()
    };
    let mut r: Vec<usize> = Vec::new();
    for i in 0..n
        invariant
            n <= order@.len(),
            r@ == order@.take(i as int),
    {
        r.push(order[i]);
        assert(r@ =~= order@.take(i + 1));
    }
    assert(is_top(r@, scores@, k as int, order@));
    r
}

/// No more than `k` scores are selected, and they never rise, where the comparison
/// of the scores is an order.
pub proof fn lemma_top_scores_never_rise(
    picked: Seq<usize>,
    scores: Seq<u32>,
    k: int,
    order: Seq<usize>,
)
    requires
        is_top(picked, scores, k, order),
        0 <= k,
        order::consistent(order::descending(scores)),
    ensures
        picked.len() <= k,
        forall|i: int, j: int|
            0 <= i < j < picked.len() ==> !floats::greater(
                scores[(#[trigger] picked[j]) as int],
                scores[(#[trigger] picked[i]) as int],
            ),
{
    let keys = order::descending(scores);
    assert forall|i: int, j: int| 0 <= i < j < picked.len() implies !floats::greater(
        scores[(#[trigger] picked[j]) as int],
        scores[(#[trigger] picked[i]) as int],
    ) by {
        assert(picked[i] == order[i]);
        assert(picked[j] == order[j]);
        assert(order::in_place(keys, order[i], order[j]));
        assert(keys[order[i] as int] == (order::Descending { bits: scores[order[i] as int] }));
        assert(keys[order[j] as int] == (order::Descending { bits: scores[order[j] as int] }));
    }
}

/// What is left out by the selection has no higher score than what is taken, where
/// the comparison of the scores is an order.
pub proof fn lemma_top_scores_are_highest(
    picked: Seq<usize>,
    scores: Seq<u32>,
    k: int,
    order: Seq<usize>,
    taken: usize,
    left: usize,
)
    requires
        is_top(picked, scores, k, order),
        0 <= k,
        order::consistent(order::descending(scores)),
        picked.contains(taken),
        left < scores.len(),
        !picked.contains(left),
    ensures
        !floats::greater(scores[left as int], scores[taken as int]),
{
    let keys = order::descending(scores);
    order::lemma_stable_order_is_complete(keys, order, left);
    let i = choose|i: int| 0 <= i < picked.len() && picked[i] == taken;
    let j = choose|j: int| 0 <= j < order.len() && order[j] == left;
    assert(order[i] == taken);
    if j < picked.len() {
        assert(picked[j] == left);
    }
    assert(order::in_place(keys, order[i], order[j]));
    assert(keys[taken as int] == (order::Descending { bits: scores[taken as int] }));
    assert(keys[left as int] == (order::Descending { bits: scores[left as int] }));
}

/// Whether `picked` are the positions of the hits that a semantic search gives of
/// the rows that it fetched: all of them as they come, or, where they are ranked
/// anew by recency, the `k` with the highest scores.
pub open spec fn is_selection(
    picked: Seq<usize>,
    scores: Seq<u32>,
    k: int,
    use_recency: bool,
) -> bool {
    if use_recency {
        exists|order: Seq<usize>| #[trigger] is_top(picked, scores, k, order)
    } else {
        picked == Seq::new(scores.len(), |i: int| i as usize)
    }
}

/// The positions of the hits that a semantic search gives of the rows that it
/// fetched.
pub fn select_hits(scores: &[u32], k: usize, use_recency: bool) -> (r: Vec<usize>)
    ensures
        is_selection(r@, scores@, k as int, use_recency),
{
    if use_recency {
        return top_scored(scores, k);
    }
    let mut r: Vec<usize> = Vec::new();
    for i in 0..scores.len()
        invariant
            r@ == Seq::new(i as nat, |j: int| j as usize),
    {
        r.push(i);
        assert(r@ =~= Seq::new((i + 1) as nat, |j: int| j as usize));
    }
    r
}

/// A semantic search gives no more hits than it was asked for, each of them a row
/// that was fetched, and their scores never rise, where the comparison of the
/// scores is an order. The rows are fetched in the order of their scores, and no
/// more of them than asked for, where they are not ranked anew.
pub proof fn lemma_hits_are_bounded_and_ranked(
    picked: Seq<usize>,
    scores: Seq<u32>,
    p: SearchParamsView,
)
    requires
        0 <= p.k,
        scores.len() <= db::rows_fetched(p),
        scores.len() <= usize::MAX,
        order::consistent(order::descending(scores)),
        floats::place(p.recency_weight) <= 0 ==> forall|i: int, j: int|
            0 <= i < j < scores.len() ==> !floats::greater(
                #[trigger] scores[j],
                #[trigger] scores[i],
            ),
        is_selection(picked, scores, p.k as int, floats::place(p.recency_weight) > 0),
    ensures
        picked.len() <= p.k,
        forall|i: int| 0 <= i < picked.len() ==> #[trigger] picked[i] < scores.len(),
        forall|i: int, j: int|
            0 <= i < j < picked.len() ==> !floats::greater(
                scores[(#[trigger] picked[j]) as int],
                scores[(#[trigger] picked[i]) as int],
            ),
{
    if floats::place(p.recency_weight) > 0 {
        let order = choose|order: Seq<usize>| #[trigger] is_top(picked, scores, p.k as int, order);
        lemma_top_scores_never_rise(picked, scores, p.k as int, order);
        assert forall|i: int| 0 <= i < picked.len() implies #[trigger] picked[i] < scores.len() by {
            assert(picked[i] == order[i]);
        }
    }
}

/// Where the rows that were fetched are such as the statement of the search asks
/// for, so are its hits: each meets what restricts the search, none is less similar
/// than the floor, there are no more of them than wanted, and their scores never
/// rise, where the comparison of the scores is an order. A row's score is its
/// similarity, where rows are not ranked anew.
pub proof fn lemma_hits_keep_to_the_search(
    picked: Seq<usize>,
    rows: Seq<FetchedView>,
    scores: Seq<u32>,
    p: SearchParamsView,
)
    requires
        0 <= p.k,
        db::keep_to_search(rows, p),
        scores.len() == rows.len() <= usize::MAX,
        order::consistent(order::descending(scores)),
        floats::place(p.recency_weight) <= 0 ==> forall|i: int|
            0 <= i < rows.len() ==> #[trigger] scores[i] == rows[i].similarity,
        is_selection(picked, scores, p.k as int, floats::place(p.recency_weight) > 0),
    ensures
        picked.len() <= p.k,
        forall|i: int|
            0 <= i < picked.len() ==> {
                let hit = rows[(#[trigger] picked[i]) as int];
                &&& picked[i] < rows.len()
                &&& db::meets(hit.row, p.filter)
                &&& !floats::greater(p.min_similarity, hit.similarity)
            },
        forall|i: int, j: int|
            0 <= i < j < picked.len() ==> !floats::greater(
                scores[(#[trigger] picked[j]) as int],
                scores[(#[trigger] picked[i]) as int],
            ),
{
    assert(floats::place(p.recency_weight) <= 0 ==> forall|i: int, j: int|
        0 <= i < j < scores.len() ==> !floats::greater(#[trigger] scores[j], #[trigger] scores[i]));
    lemma_hits_are_bounded_and_ranked(picked, scores, p);
}

// ---- The steps of a hybrid search -----------------------------------------------------------

/// Whether the sparse leg runs: where it is enabled, the query has sparse terms,
/// and the other legs found candidates for it to rank.
pub fn runs_sparse_leg(enabled: bool, query_terms: usize, candidates: usize) -> (r: bool)
    ensures
        r == (enabled && query_terms > 0 && candidates > 0),
{
    enabled && query_terms > 0 && candidates > 0
}

/// What follows once the legs were fused.
#[derive(Debug, PartialEq, Eq)]
pub enum FusionStep {
    /// Nothing was found: the search is over.
    NothingFound,
    /// Fetch the memories with the given identifiers, which have the given scores.
    Hydrate(Vec<(MemoryId, u32)>),
}

/// Whether `ranked` are the first `k` of the memories in the given order, highest
/// score first, each with its score.
pub open spec fn is_ranked(
    ranked: Seq<(MemoryId, u32)>,
    fused: Seq<(MemoryId, Seq<usize>)>,
    scores: Seq<u32>,
    k: int,
    order: Seq<usize>,
) -> bool {
    &&& order::is_stable_order(order::descending(scores), order)
    &&& ranked == first(order, k).map_values(|i: usize| (fused[i as int].0, scores[i as int]))
}

/// What follows once the legs were fused: `scores` holds the bits of the score of
/// each memory. The `k` memories with the highest scores are fetched, where there
/// are any.
pub fn after_fusion(fused: &[Ranks], scores: &[u32], k: usize) -> (r: FusionStep)
    requires
        fused@.len() == scores@.len(),
    ensures
        r is NothingFound <==> k == 0 || fused@.len() == 0,
        r matches FusionStep::Hydrate(ranked) ==> exists|order: Seq<usize>| #[trigger]
            is_ranked(ranked@, rank_views(fused@), scores@, k as int, order),
{
    let picked = top_scored(scores, k);
    let ghost order = choose|order: Seq<usize>| #[trigger]
        is_top(picked@, scores@, k as int, order);
    let ghost views = rank_views(fused@);
    let mut ranked: Vec<(MemoryId, u32)> = Vec::new();
    for i in 0..picked.len()
        invariant
            fused@.len() == scores@.len(),
            views == rank_views(fused@),
            is_top(picked@, scores@, k as int, order),
            ranked@.len() == i,
            forall|j: int|
                0 <= j < i ==> (#[trigger] ranked@[j]) == (
                    views[picked@[j] as int].0,
                    scores@[picked@[j] as int],
                ),
    {
        let at: usize = picked[i];
        assert(picked@[i as int] == order[i as int]);
        ranked.push((fused[at].id, scores[at]));
    }
    assert(ranked@ =~= picked@.map_values(|i: usize| (views[i as int].0, scores@[i as int])));
    if ranked.len() == 0 {
        assert(picked@.len() == 0);
        assert(order.len() == 0 || k == 0);
        return FusionStep::NothingFound;
    }
    assert(order.len() > 0 && k > 0);
    let r = FusionStep::Hydrate(ranked);
    assert(is_ranked(r->Hydrate_0@, rank_views(fused@), scores@, k as int, order));
    r
}

// ---- Stamps and the floor -------------------------------------------------------------------

/// The bits that belong to an identifier: those of its last entry, or those of
/// zero where it has none.
pub open spec fn bits_for(entries: Seq<(MemoryId, u32)>, id: MemoryId) -> u32
    decreases entries.len(),
{
    if entries.len() == 0 {
        0
    } else if entries.last().0 == id {
        entries.last().1
    } else {
        bits_for(entries.drop_last(), id)
    }
}

/// The bits that belong to an identifier, or those of zero where it has none.
pub fn lookup_bits(entries: &[(MemoryId, u32)], id: MemoryId) -> (r: u32)
    ensures
        r == bits_for(entries@, id),
        belongs_to(entries@, id, r),
{
    proof {
        lemma_bits_belong(entries@, id);
    }
    let mut n: usize = entries.len();
    assert(entries@.take(n as int) =~= entries@);
    while n > 0
        invariant
            n <= entries@.len(),
            belongs_to(entries@, id, bits_for(entries@, id)),
            bits_for(entries@, id) == bits_for(entries@.take(n as int), id),
        decreases n,
    {
        if entries[n - 1].0 == id {
            return entries[n - 1].1;
        }
        assert(entries@.take(n as int).drop_last() =~= entries@.take(n - 1));
        n = n - 1;
    }
    0
}

/// Whether the bits are those of the last entry with the identifier, or those of zero
/// where no entry has it.
pub open spec fn belongs_to(entries: Seq<(MemoryId, u32)>, id: MemoryId, bits: u32) -> bool {
    ||| exists|i: int| #[trigger] is_last_entry(entries, id, i) && entries[i].1 == bits
    ||| (forall|i: int| 0 <= i < entries.len() ==> (#[trigger] entries[i]).0 != id) && bits == 0
}

/// Whether the entry is the last with the identifier.
pub open spec fn is_last_entry(entries: Seq<(MemoryId, u32)>, id: MemoryId, i: int) -> bool {
    &&& 0 <= i < entries.len()
    &&& entries[i].0 == id
    &&& forall|j: int| i < j < entries.len() ==> (#[trigger] entries[j]).0 != id
}

/// What is found for an identifier is what its last entry says, or zero where it has
/// none.
pub proof fn lemma_bits_belong(entries: Seq<(MemoryId, u32)>, id: MemoryId)
    ensures
        belongs_to(entries, id, bits_for(entries, id)),
    decreases entries.len(),
{
    if entries.len() > 0 {
        let rest = entries.drop_last();
        let last = entries.len() - 1;
        if entries[last].0 == id {
            assert(is_last_entry(entries, id, last));
        } else {
            lemma_bits_belong(rest, id);
            if exists|i: int| #[trigger]
                is_last_entry(rest, id, i) && rest[i].1 == bits_for(rest, id) {
                let i = choose|i: int| #[trigger]
                    is_last_entry(rest, id, i) && rest[i].1 == bits_for(rest, id);
                assert forall|j: int| i < j < entries.len() implies (#[trigger] entries[j]).0
                    != id by {
                    if j < last {
                        assert(rest[j] == entries[j]);
                    }
                }
                assert(is_last_entry(entries, id, i));
            } else {
                assert forall|i: int| 0 <= i < entries.len() implies (#[trigger] entries[i]).0
                    != id by {
                    if i < last {
                        assert(rest[i] == entries[i]);
                    }
                }
            }
        }
    }
}

/// Whether a hit with the given similarity passes the given floor. A floor of
/// zero or less lets everything pass.
pub open spec fn similar_enough(similarity: u32, floor: u32) -> bool {
    floats::place(floor) <= 0 || floats::place(similarity) >= floats::place(floor)
}

/// The positions of the similarities that pass the floor, in order.
pub open spec fn passing(similarities: Seq<u32>, floor: u32) -> Seq<usize>
    decreases similarities.len(),
{
    if similarities.len() == 0 {
        Seq::empty()
    } else {
        let before = passing(similarities.drop_last(), floor);
        if similar_enough(similarities.last(), floor) {
            before.push((similarities.len() - 1) as usize)
        } else {
            before
        }
    }
}

/// The positions of the hits that are similar enough, in order. Similarities and
/// the floor are given by their bits.
pub fn keep_similar(similarities: &[u32], floor: u32) -> (r: Vec<usize>)
    ensures
        r@ == passing(similarities@, floor),
        are_all_passing(similarities@, floor, r@),
{
    proof {
        assert(similarities@.len() == similarities.len());
        lemma_all_passing(similarities@, floor);
    }
    let mut r: Vec<usize> = Vec::new();
    for i in 0..similarities.len()
        invariant
            r@ == passing(similarities@.take(i as int), floor),
    {
        assert(similarities@.take(i + 1).drop_last() =~= similarities@.take(i as int));
        if floats::place_of(floor) <= 0 || floats::place_of(similarities[i]) >= floats::place_of(
            floor,
        ) {
            r.push(i);
        }
    }
    assert(similarities@.take(similarities@.len() as int) =~= similarities@);
    r
}

/// Whether the positions are, in order, exactly those of the similarities that are not
/// below the floor: with a floor that is no number above zero, all of them, and
/// otherwise those of the numbers that the floor is not greater than.
pub open spec fn are_all_passing(similarities: Seq<u32>, floor: u32, at: Seq<usize>) -> bool {
    &&& forall|i: int, j: int|
        0 <= i < j < at.len() ==> #[trigger] at[i] < #[trigger] at[j]
    &&& forall|i: int| 0 <= i < at.len() ==> #[trigger] at[i] < similarities.len()
    &&& forall|p: int|
        0 <= p < similarities.len() ==> at.contains(p as usize) == not_below(
            #[trigger] similarities[p],
            floor,
        )
}

/// Whether a similarity is not below the floor: the floor is no number above zero, or
/// the similarity is a number that the floor is not greater than.
pub open spec fn not_below(similarity: u32, floor: u32) -> bool {
    !floats::greater(floor, 0) || (!floats::nan(similarity) && !floats::greater(floor, similarity))
}

/// The floor keeps what is not below it, drops the rest, and changes no order.
pub proof fn lemma_all_passing(similarities: Seq<u32>, floor: u32)
    requires
        similarities.len() <= usize::MAX,
    ensures
        are_all_passing(similarities, floor, passing(similarities, floor)),
    decreases similarities.len(),
{
    if similarities.len() > 0 {
        let rest = similarities.drop_last();
        let last = similarities.len() - 1;
        lemma_all_passing(rest, floor);
        let before = passing(rest, floor);
        let at = passing(similarities, floor);
        assert forall|i: int, j: int| 0 <= i < j < at.len() implies #[trigger] at[i]
            < #[trigger] at[j] by {
            assert(at[i] == before[i]);
            if j < before.len() {
                assert(at[j] == before[j]);
            }
        }
        assert forall|i: int| 0 <= i < at.len() implies #[trigger] at[i] < similarities.len() by {
            if i < before.len() {
                assert(at[i] == before[i]);
            }
        }
        assert forall|p: int| 0 <= p < similarities.len() implies at.contains(p as usize)
            == not_below(#[trigger] similarities[p], floor) by {
            if p < last {
                assert(rest[p] == similarities[p]);
                if before.contains(p as usize) {
                    let k = choose|k: int| 0 <= k < before.len() && before[k] == p as usize;
                    assert(at[k] == p as usize);
                }
                if at.contains(p as usize) {
                    let k = choose|k: int| 0 <= k < at.len() && at[k] == p as usize;
                    assert(k < before.len());
                    assert(before[k] == p as usize);
                }
            } else {
                if at.len() > before.len() {
                    assert(at[before.len() as int] == p as usize);
                }
                if at.contains(p as usize) {
                    let k = choose|k: int| 0 <= k < at.len() && at[k] == p as usize;
                    if k < before.len() {
                        assert(at[k] == before[k]);
                    }
                }
            }
        }
    }
}

/// The dense leg keeps every restriction of the search, and asks for as many candidates
/// for each hit as it is told; the floor and recency wait until the legs were fused.
pub proof fn lemma_dense_leg_keeps_the_restrictions(
    p: SearchParams,
    per_result: i64,
    r: SearchParams,
)
    requires
        i64::MIN <= p.k * per_result <= i64::MAX,
        r@ == dense_search(p@, per_result),
    ensures
        r.k == p.k * per_result,
        r.profile@ == p.profile@,
        crate::text::texts(r.tags@) == crate::text::texts(p.tags@),
        crate::text::texts(r.memory_types@) == crate::text::texts(p.memory_types@),
        r.exclude_invalidated == p.exclude_invalidated,
        r.exclude_superseded == p.exclude_superseded,
        crate::json::opt_json(r.ref_filter) == crate::json::opt_json(p.ref_filter),
        crate::text::texts(r.facets.domains@) == crate::text::texts(p.facets.domains@),
        crate::text::texts(r.facets.skills@) == crate::text::texts(p.facets.skills@),
        crate::text::texts(r.facets.projects@) == crate::text::texts(p.facets.projects@),
        crate::text::texts(r.facets.situations@) == crate::text::texts(p.facets.situations@),
        floats::value(r.min_similarity) == 0,
        floats::value(r.recency_weight) == 0,
{
}

/// What is fetched after fusion are the memories with the highest scores, highest
/// first, each with its own score, no more than `k`, and none is left out for a lower
/// one, where every score is a number.
pub proof fn lemma_fusion_takes_the_best(
    ranked: Seq<(MemoryId, u32)>,
    fused: Seq<(MemoryId, Seq<usize>)>,
    scores: Seq<u32>,
    k: int,
    order: Seq<usize>,
)
    requires
        is_ranked(ranked, fused, scores, k, order),
        fused.len() == scores.len() <= usize::MAX,
        0 <= k,
        order::all_numbers(scores),
    ensures
        ranked.len() == (if k <= fused.len() {
            k
        } else {
            fused.len() as int
        }),
        forall|i: int|
            0 <= i < ranked.len() ==> {
                let at = #[trigger] order[i];
                at < fused.len() && ranked[i] == (fused[at as int].0, scores[at as int])
            },
        forall|i: int, j: int|
            0 <= i < j < ranked.len() ==> !floats::greater(
                (#[trigger] ranked[j]).1,
                (#[trigger] ranked[i]).1,
            ),
        forall|i: int, at: int|
            0 <= i < ranked.len() && 0 <= at < fused.len() && !first(order, k).contains(at as usize)
                ==> !floats::greater(#[trigger] scores[at], (#[trigger] ranked[i]).1),
{
    order::lemma_highest_first(scores, order);
    let picked = first(order, k);
    assert forall|i: int| 0 <= i < ranked.len() implies {
        let at = #[trigger] order[i];
        at < fused.len() && ranked[i] == (fused[at as int].0, scores[at as int])
    } by {
        assert(picked[i] == order[i]);
    }
    assert forall|i: int, j: int| 0 <= i < j < ranked.len() implies !floats::greater(
        (#[trigger] ranked[j]).1,
        (#[trigger] ranked[i]).1,
    ) by {
        let a = order[i];
        let b = order[j];
    }
    assert forall|i: int, at: int|
        0 <= i < ranked.len() && 0 <= at < fused.len() && !picked.contains(
            at as usize,
        ) implies !floats::greater(#[trigger] scores[at], (#[trigger] ranked[i]).1) by {
        assert(order.contains(at as usize));
        let j = choose|j: int| 0 <= j < order.len() && order[j] == at as usize;
        if j < picked.len() {
            assert(picked[j] == at as usize);
        }
        let a = order[i];
        let b = order[j];
    }
}

/// A semantic search gives all rows that it fetched, as they come, where it does not rank
/// them anew; where it does, it gives as many as were asked for, as far as there are so
/// many, each once, and leaves out none for one with a lower score.
pub proof fn lemma_selection_is_complete(
    picked: Seq<usize>,
    scores: Seq<u32>,
    k: int,
    use_recency: bool,
)
    requires
        is_selection(picked, scores, k, use_recency),
        0 <= k,
        scores.len() <= usize::MAX,
        order::all_numbers(scores),
    ensures
        !use_recency ==> picked.len() == scores.len() && forall|i: int|
            0 <= i < picked.len() ==> #[trigger] picked[i] == i,
        use_recency ==> picked.len() == (if k <= scores.len() {
            k
        } else {
            scores.len() as int
        }) && picked.no_duplicates(),
        use_recency ==> forall|i: int, left: int|
            0 <= i < picked.len() && 0 <= left < scores.len() && !picked.contains(left as usize)
                ==> !floats::greater(#[trigger] scores[left], scores[#[trigger] picked[i] as int]),
{
    if use_recency {
        order::lemma_when_scores_are_consistent(scores);
        let order = choose|order: Seq<usize>| #[trigger] is_top(picked, scores, k, order);
        assert forall|i: int, j: int|
            0 <= i < picked.len() && 0 <= j < picked.len() && i != j implies picked[i]
            != picked[j] by {
            assert(picked[i] == order[i] && picked[j] == order[j]);
        }
        assert forall|i: int, left: int|
            0 <= i < picked.len() && 0 <= left < scores.len() && !picked.contains(
                left as usize,
            ) implies !floats::greater(
            #[trigger] scores[left],
            scores[#[trigger] picked[i] as int],
        ) by {
            lemma_top_scores_are_highest(picked, scores, k, order, picked[i], left as usize);
        }
    }
}

} // verus!
