//! Stable ordering of items by their keys.

use vstd::prelude::*;

use crate::floats;

verus! {

/// Keys that are compared two by two, and may stand level.
pub trait Ranked: Sized {
    /// Whether `self` may stand before `other`.
    spec fn le(&self, other: &Self) -> bool;

    /// Any two keys are in order one way or the other.
    proof fn lemma_le_total(&self, other: &Self)
        ensures
            self.le(other) || other.le(self),
    ;

    /// Whether `self` may stand before `other`.
    fn is_le(&self, other: &Self) -> (r: bool)
        ensures
            r == self.le(other),
    ;
}

/// Whether the comparison of the keys among each other is an order: what may stand
/// before a second key, which may stand before a third, may stand before the
/// third.
pub open spec fn consistent<K: Ranked>(keys: Seq<K>) -> bool {
    forall|a: int, b: int, c: int|
        #![trigger keys[a], keys[b], keys[c]]
        0 <= a < keys.len() && 0 <= b < keys.len() && 0 <= c < keys.len() && keys[a].le(&keys[b])
            && keys[b].le(&keys[c]) ==> keys[a].le(&keys[c])
}

/// Whether `order` lists the positions of `keys`, each once, so that, where the
/// comparison of the keys is an order, the keys come in order and level keys keep
/// the order of their positions. There is exactly one such list then. Keys whose
/// comparison is no order come in any.
pub open spec fn is_stable_order<K: Ranked>(keys: Seq<K>, order: Seq<usize>) -> bool {
    &&& order.len() == keys.len()
    &&& forall|i: int| 0 <= i < order.len() ==> #[trigger] order[i] < keys.len()
    &&& order.no_duplicates()
    &&& consistent(keys) ==> forall|i: int, j: int|
        0 <= i < j < order.len() ==> in_place(
            keys,
            #[trigger] order[i],
            #[trigger] order[j],
        )
}

/// Whether position `a` rightly comes before position `b`.
pub open spec fn in_place<K: Ranked>(keys: Seq<K>, a: usize, b: usize) -> bool {
    &&& keys[a as int].le(&keys[b as int])
    &&& keys[b as int].le(&keys[a as int]) ==> a < b
}

proof fn lemma_inserted_in_place<K: Ranked>(keys: Seq<K>, before: Seq<usize>, p: int, i: usize)
    requires
        consistent(keys),
        0 <= p <= before.len(),
        before.len() == i,
        i < keys.len(),
        forall|k: int| 0 <= k < i ==> #[trigger] before[k] < i,
        forall|k: int, j: int|
            0 <= k < j < i ==> in_place(keys, #[trigger] before[k], #[trigger] before[j]),
        p > 0 ==> keys[before[p - 1] as int].le(&keys[i as int]),
        forall|k: int| p <= k < i ==> !keys[(#[trigger] before[k]) as int].le(&keys[i as int]),
    ensures
        forall|k: int, j: int|
            0 <= k < j < i + 1 ==> in_place(
                keys,
                #[trigger] before.insert(p, i)[k],
                #[trigger] before.insert(p, i)[j],
            ),
{
    let after = before.insert(p, i);
    assert forall|k: int, j: int| 0 <= k < j < i + 1 implies in_place(
        keys,
        #[trigger] after[k],
        #[trigger] after[j],
    ) by {
        if k == p {
            assert(after[j] == before[j - 1]);
            keys[i as int].lemma_le_total(&keys[before[j - 1] as int]);
        } else if j == p {
            let last = before[p - 1];
            assert(after[k] == before[k]);
            if k < p - 1 {
                assert(in_place(keys, before[k], last));
                assert(keys[before[k] as int].le(&keys[last as int]));
            }
            assert(keys[before[k] as int].le(&keys[i as int]));
        } else {
            let a = if k < p { k } else { k - 1 };
            let b = if j < p { j } else { j - 1 };
            assert(after[k] == before[a]);
            assert(after[j] == before[b]);
        }
    }
}

/// The positions of the keys in stable order.
pub fn stable_order<K: Ranked>(keys: &[K]) -> (r: Vec<usize>)
    ensures
        is_stable_order(keys@, r@),
{
    let mut r: Vec<usize> = Vec::new();
    for i in 0..keys.len()
        invariant
            r@.len() == i,
            forall|k: int| 0 <= k < i ==> #[trigger] r@[k] < i,
            r@.no_duplicates(),
            consistent(keys@) ==> forall|k: int, j: int|
                0 <= k < j < i ==> in_place(keys@, #[trigger] r@[k], #[trigger] r@[j]),
    {
        let mut p: usize = r.len();
        while p > 0 && !keys[r[p - 1]].is_le(&keys[i])
            invariant
                p <= r@.len(),
                r@.len() == i,
                i < keys@.len(),
                forall|k: int| 0 <= k < i ==> #[trigger] r@[k] < i,
                forall|k: int|
                    p <= k < i ==> !keys@[(#[trigger] r@[k]) as int].le(&keys@[i as int]),
            decreases p,
        {
            p = p - 1;
        }
        let ghost before = r@;
        r.insert(p, i);
        proof {
            if consistent(keys@) {
                lemma_inserted_in_place(keys@, before, p as int, i);
            }
        }
        assert(r@.no_duplicates()) by {
            assert forall|k: int, j: int| 0 <= k < j < r@.len() implies r@[k] != r@[j] by {
                let a = if k < p { k } else { k - 1 };
                let b = if j < p { j } else { j - 1 };
                if k != p {
                    assert(r@[k] == before[a]);
                }
                if j != p {
                    assert(r@[j] == before[b]);
                }
            }
        }
    }
    r
}

/// A score by its bits: higher scores come first, and what is not a number stands
/// level with everything.
#[derive(Clone, Copy, Debug, PartialEq, Eq, Structural)]
pub struct Descending {
    pub bits: u32,
}

impl Ranked for Descending {
    open spec fn le(&self, other: &Self) -> bool {
        !floats::greater(other.bits, self.bits)
    }

    proof fn lemma_le_total(&self, other: &Self) {
    }

    fn is_le(&self, other: &Self) -> (r: bool) {
        !floats::is_greater(other.bits, self.bits)
    }
}

/// The scores as keys that put the higher score first.
pub open spec fn descending(scores: Seq<u32>) -> Seq<Descending> {
    scores.map_values(|b: u32| Descending { bits: b })
}

/// The positions of the scores, highest score first; level scores keep their
/// order.
pub fn order_by_score(scores: &[u32]) -> (r: Vec<usize>)
    ensures
        is_stable_order(descending(scores@), r@),
        all_numbers(scores@) ==> highest_first(scores@, r@),
{
    let mut keys: Vec<Descending> = Vec::new();
    for i in 0..scores.len()
        invariant
            keys@ == descending(scores@.take(i as int)),
    {
        keys.push(Descending { bits: scores[i] });
        assert(keys@ =~= descending(scores@.take(i + 1)));
    }
    assert(scores@.take(scores@.len() as int) =~= scores@);
    let r = stable_order(keys.as_slice());
    proof {
        if all_numbers(scores@) {
            lemma_highest_first(scores@, r@);
        }
    }
    r
}

/// Whether the positions are all positions of the scores, each once, so that no score
/// comes behind a lower one, and of two level scores the one that stood first comes
/// first.
pub open spec fn highest_first(scores: Seq<u32>, order: Seq<usize>) -> bool {
    &&& order.len() == scores.len()
    &&& forall|at: int| 0 <= at < scores.len() ==> order.contains(#[trigger] (at as usize))
    &&& forall|i: int, j: int|
        0 <= i < j < order.len() ==> {
            let a = #[trigger] order[i];
            let b = #[trigger] order[j];
            &&& a < scores.len() && b < scores.len()
            &&& floats::greater(scores[a as int], scores[b as int]) || (!floats::greater(
                scores[b as int],
                scores[a as int],
            ) && a < b)
        }
}

/// Scores that are numbers are put highest first, and level scores keep their order.
pub proof fn lemma_highest_first(scores: Seq<u32>, order: Seq<usize>)
    requires
        is_stable_order(descending(scores), order),
        all_numbers(scores),
        scores.len() <= usize::MAX,
    ensures
        highest_first(scores, order),
{
    let keys = descending(scores);
    lemma_when_scores_are_consistent(scores);
    assert forall|at: int| 0 <= at < scores.len() implies order.contains(
        #[trigger] (at as usize),
    ) by {
        lemma_stable_order_is_complete(keys, order, at as usize);
    }
    assert forall|i: int, j: int| 0 <= i < j < order.len() implies {
        let a = #[trigger] order[i];
        let b = #[trigger] order[j];
        &&& a < scores.len() && b < scores.len()
        &&& floats::greater(scores[a as int], scores[b as int]) || (!floats::greater(
            scores[b as int],
            scores[a as int],
        ) && a < b)
    } by {
        assert(in_place(keys, order[i], order[j]));
        assert(keys[order[i] as int] == (Descending { bits: scores[order[i] as int] }));
        assert(keys[order[j] as int] == (Descending { bits: scores[order[j] as int] }));
    }
}

/// Whether no score is greater than another.
pub open spec fn all_level(scores: Seq<u32>) -> bool {
    forall|i: int, j: int|
        0 <= i < scores.len() && 0 <= j < scores.len() ==> !floats::greater(
            #[trigger] scores[i],
            #[trigger] scores[j],
        )
}

/// Whether every score is a number.
pub open spec fn all_numbers(scores: Seq<u32>) -> bool {
    forall|i: int| 0 <= i < scores.len() ==> !floats::nan(#[trigger] scores[i])
}

/// Scores are compared in an order exactly where all of them are numbers, or none
/// is greater than another: among different numbers, one that is not a number
/// would stand level with each of them.
pub proof fn lemma_when_scores_are_consistent(scores: Seq<u32>)
    ensures
        consistent(descending(scores)) <==> all_numbers(scores) || all_level(scores),
{
    let keys = descending(scores);
    assert forall|i: int| 0 <= i < scores.len() implies #[trigger] keys[i] == (Descending {
        bits: scores[i],
    }) by {}
    if consistent(keys) && !all_numbers(scores) && !all_level(scores) {
        let n = choose|n: int| 0 <= n < scores.len() && floats::nan(#[trigger] scores[n]);
        let (i, j) = choose|i: int, j: int|
            0 <= i < scores.len() && 0 <= j < scores.len() && floats::greater(
                #[trigger] scores[i],
                #[trigger] scores[j],
            );
        assert(keys[j].le(&keys[n]));
        assert(keys[n].le(&keys[i]));
        assert(keys[j].le(&keys[i]));
    }
    if all_numbers(scores) || all_level(scores) {
        assert forall|a: int, b: int, c: int|
            #![trigger keys[a], keys[b], keys[c]]
            0 <= a < keys.len() && 0 <= b < keys.len() && 0 <= c < keys.len() && keys[a].le(
                &keys[b],
            ) && keys[b].le(&keys[c]) implies keys[a].le(&keys[c]) by {
            assert(!floats::nan(scores[a]) || all_level(scores));
            assert(!floats::nan(scores[b]) || all_level(scores));
            assert(!floats::nan(scores[c]) || all_level(scores));
            if all_level(scores) {
                assert(!floats::greater(scores[c], scores[a]));
            }
        }
    }
}

/// Where no score is greater than another, everything keeps its place.
pub proof fn lemma_level_scores_keep_their_places(scores: Seq<u32>, order: Seq<usize>, i: int)
    requires
        all_level(scores),
        is_stable_order(descending(scores), order),
        scores.len() <= usize::MAX,
        0 <= i < order.len(),
    ensures
        order[i] == i,
{
    let keys = descending(scores);
    lemma_when_scores_are_consistent(scores);
    let same = Seq::new(scores.len(), |k: int| k as usize);
    assert forall|a: int, b: int| 0 <= a < b < same.len() implies in_place(
        keys,
        #[trigger] same[a],
        #[trigger] same[b],
    ) by {
        assert(!floats::greater(scores[b], scores[a]));
    }
    lemma_stable_order_unique(keys, order, same);
}

/// A stable order lists every position.
pub proof fn lemma_stable_order_is_complete<K: Ranked>(keys: Seq<K>, order: Seq<usize>, at: usize)
    requires
        is_stable_order(keys, order),
        at < keys.len(),
    ensures
        order.contains(at),
{
    let n = keys.len() as int;
    let places = order.map_values(|x: usize| x as int);
    assert(places.no_duplicates()) by {
        assert forall|i: int, j: int| 0 <= i < places.len() && 0 <= j < places.len() && i
            != j implies places[i] != places[j] by {
            assert(order[i] != order[j]);
        }
    }
    places.unique_seq_to_set();
    let all = vstd::set_lib::set_int_range(0, n);
    vstd::set_lib::lemma_int_range(0, n);
    assert(places.to_set().subset_of(all)) by {
        assert forall|x: int| places.to_set().contains(x) implies all.contains(x) by {
            let i = choose|i: int| 0 <= i < places.len() && places[i] == x;
            assert(order[i] < keys.len());
        }
    }
    vstd::set_lib::lemma_subset_equality(places.to_set(), all);
    assert(all.contains(at as int));
    assert(places.contains(at as int));
    let i = choose|i: int| 0 <= i < places.len() && places[i] == at as int;
    assert(order[i] == at);
}

/// There is only one stable order of the same keys, where their comparison is an
/// order.
pub proof fn lemma_stable_order_unique<K: Ranked>(keys: Seq<K>, a: Seq<usize>, b: Seq<usize>)
    requires
        consistent(keys),
        is_stable_order(keys, a),
        is_stable_order(keys, b),
    ensures
        a == b,
{
    assert forall|i: int| 0 <= i < a.len() implies a[i] == b[i] by {
        lemma_stable_orders_agree(keys, a, b, i);
    }
    assert(a =~= b);
}

proof fn lemma_stable_orders_agree<K: Ranked>(
    keys: Seq<K>,
    a: Seq<usize>,
    b: Seq<usize>,
    i: int,
)
    requires
        consistent(keys),
        is_stable_order(keys, a),
        is_stable_order(keys, b),
        0 <= i < a.len(),
    ensures
        a[i] == b[i],
    decreases i,
{
    assert forall|j: int| 0 <= j < i implies a[j] == b[j] by {
        lemma_stable_orders_agree(keys, a, b, j);
    }
    let x = a[i];
    let y = b[i];
    if x != y {
        lemma_stable_order_is_complete(keys, a, y);
        lemma_stable_order_is_complete(keys, b, x);
        let p = choose|p: int| 0 <= p < a.len() && a[p] == y;
        let q = choose|q: int| 0 <= q < b.len() && b[q] == x;
        if p < i {
            assert(b[p] == y);
        }
        if q < i {
            assert(a[q] == x);
        }
        assert(in_place(keys, a[i], a[p]));
        assert(in_place(keys, b[i], b[q]));
    }
}

} // verus!
