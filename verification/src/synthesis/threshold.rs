//! When a cluster becomes a consolidated memory.

use vstd::prelude::*;
use std::collections::HashMap;

use crate::ids::MemoryId;
use crate::synthesis::{Cluster, ThresholdConfig};
use crate::time::Timestamp;

verus! {

/// The times of the given sources, without those that are not known.
pub open spec fn known_times(ids: Seq<MemoryId>, times: Map<MemoryId, Timestamp>) -> Seq<Timestamp>
    decreases ids.len(),
{
    if ids.len() == 0 {
        Seq::empty()
    } else {
        let before = known_times(ids.drop_last(), times);
        if times.dom().contains(ids.last()) {
            before.push(times[ids.last()])
        } else {
            before
        }
    }
}

/// The days that the given times fall on.
pub open spec fn days_of(times: Seq<Timestamp>) -> Seq<int> {
    times.map_values(|t: Timestamp| t.day())
}

/// Whether one of the times is not more than `days` days before `now`.
pub open spec fn any_within(times: Seq<Timestamp>, now: Timestamp, days: int) -> bool {
    exists|i: int| 0 <= i < times.len() && (#[trigger] times[i]).within_days(now, days)
}

/// Whether a cluster with the given sources becomes a consolidated memory: it has
/// enough sources, they fall on enough different days, and one of them is recent
/// enough.
pub open spec fn passes(
    source_ids: Seq<MemoryId>,
    times: Map<MemoryId, Timestamp>,
    now: Timestamp,
    config: ThresholdConfig,
) -> bool {
    let known = known_times(source_ids, times);
    &&& source_ids.len() >= config.min_cluster_size
    &&& days_of(known).to_set().len() >= config.min_distinct_days
    &&& any_within(known, now, config.max_source_age_days as int)
}

fn contains_day(days: &Vec<i64>, day: i64) -> (r: bool)
    ensures
        r == days@.contains(day),
{
    for i in 0..days.len()
        invariant
            forall|j: int| 0 <= j < i ==> days@[j] != day,
    {
        if days[i] == day {
            return true;
        }
    }
    false
}

/// Whether a cluster becomes a consolidated memory: `source_times` says when each
/// raw memory was recorded.
pub fn check_threshold(
    cluster: &Cluster,
    source_times: &HashMap<MemoryId, Timestamp>,
    now: Timestamp,
    config: &ThresholdConfig,
) -> (r: bool)
    ensures
        r == passes(cluster.source_ids@, source_times@, now, *config),
{
    broadcast use vstd::std_specs::hash::group_hash_axioms;

    let ids = &cluster.source_ids;
    if ids.len() < config.min_cluster_size {
        return false;
    }
    let mut days: Vec<i64> = Vec::new();
    let mut recent: bool = false;
    for i in 0..ids.len()
        invariant
            days@.no_duplicates(),
            forall|d: i64| #[trigger]
                days@.contains(d) <==> days_of(
                    known_times(ids@.take(i as int), source_times@),
                ).contains(d as int),
            recent == any_within(
                known_times(ids@.take(i as int), source_times@),
                now,
                config.max_source_age_days as int,
            ),
    {
        broadcast use vstd::std_specs::hash::group_hash_axioms;

        let ghost before = known_times(ids@.take(i as int), source_times@);
        let ghost after = known_times(ids@.take(i + 1), source_times@);
        assert(ids@.take(i + 1).drop_last() =~= ids@.take(i as int));
        match source_times.get(&ids[i]) {
            Some(t) => {
                let ghost old_days = days@;
                let day: i64 = t.day_number();
                let fresh = !contains_day(&days, day);
                if fresh {
                    days.push(day);
                }
                if t.is_within_days(&now, config.max_source_age_days) {
                    recent = true;
                }
                proof {
                    assert(after == before.push(*t));
                    assert(days_of(after) =~= days_of(before).push(t.day()));
                    assert forall|d: i64| #[trigger] days@.contains(d) <==> days_of(
                        after,
                    ).contains(d as int) by {
                        vstd::seq_lib::lemma_seq_contains_after_push(
                            days_of(before),
                            t.day(),
                            d as int,
                        );
                        vstd::seq_lib::lemma_seq_contains_after_push(old_days, day, d);
                        assert(old_days.contains(d) <==> days_of(before).contains(d as int));
                    }
                    lemma_any_within_push(before, *t, now, config.max_source_age_days as int);
                }
            },
            None => {},
        }
    }
    assert(ids@.take(ids@.len() as int) =~= ids@);
    proof {
        let known = known_times(ids@, source_times@);
        lemma_distinct_days(days@, known);
    }
    if days.len() < config.min_distinct_days {
        return false;
    }
    recent
}

proof fn lemma_any_within_push(times: Seq<Timestamp>, t: Timestamp, now: Timestamp, days: int)
    ensures
        any_within(times.push(t), now, days) == (any_within(times, now, days) || t.within_days(
            now,
            days,
        )),
{
    let more = times.push(t);
    if any_within(times, now, days) {
        let i = choose|i: int| 0 <= i < times.len() && (#[trigger] times[i]).within_days(now, days);
        assert(more[i] == times[i]);
    }
    if t.within_days(now, days) {
        assert(more[times.len() as int] == t);
    }
    if any_within(more, now, days) {
        let i = choose|i: int| 0 <= i < more.len() && (#[trigger] more[i]).within_days(now, days);
        if i < times.len() {
            assert(times[i] == more[i]);
        }
    }
}

proof fn lemma_distinct_days(days: Seq<i64>, times: Seq<Timestamp>)
    requires
        days.no_duplicates(),
        forall|d: i64| #[trigger] days.contains(d) <==> days_of(times).contains(d as int),
    ensures
        days.len() == days_of(times).to_set().len(),
{
    let wide = days.map_values(|d: i64| d as int);
    assert(wide.no_duplicates());
    wide.unique_seq_to_set();
    assert(wide.to_set() =~= days_of(times).to_set()) by {
        assert forall|x: int| wide.to_set().contains(x) <==> days_of(times).to_set().contains(
            x,
        ) by {
            if wide.contains(x) {
                let k = choose|k: int| 0 <= k < wide.len() && wide[k] == x;
                assert(days.contains(days[k]));
            }
            if days_of(times).contains(x) {
                let k = choose|k: int| 0 <= k < times.len() && days_of(times)[k] == x;
                let d = x as i64;
                assert(times[k].day() == x);
                assert(i64::MIN <= x <= i64::MAX);
                assert(days.contains(d));
                let m = choose|m: int| 0 <= m < days.len() && days[m] == d;
                assert(wide[m] == x);
            }
        }
    }
}

/// Looser thresholds let pass whatever stricter ones do.
pub proof fn lemma_looser_thresholds_pass_more(
    source_ids: Seq<MemoryId>,
    times: Map<MemoryId, Timestamp>,
    now: Timestamp,
    strict: ThresholdConfig,
    loose: ThresholdConfig,
)
    requires
        loose.min_cluster_size <= strict.min_cluster_size,
        loose.min_distinct_days <= strict.min_distinct_days,
        loose.max_source_age_days >= strict.max_source_age_days,
        passes(source_ids, times, now, strict),
    ensures
        passes(source_ids, times, now, loose),
{
    let known = known_times(source_ids, times);
    let i = choose|i: int|
        0 <= i < known.len() && (#[trigger] known[i]).within_days(
            now,
            strict.max_source_age_days as int,
        );
    assert(known[i].within_days(now, loose.max_source_age_days as int));
}

/// One source more never keeps a cluster from becoming a memory.
pub proof fn lemma_more_sources_never_hurt(
    source_ids: Seq<MemoryId>,
    id: MemoryId,
    times: Map<MemoryId, Timestamp>,
    now: Timestamp,
    config: ThresholdConfig,
)
    requires
        passes(source_ids, times, now, config),
    ensures
        passes(source_ids.push(id), times, now, config),
{
    let more = source_ids.push(id);
    assert(more.drop_last() =~= source_ids);
    let known = known_times(source_ids, times);
    let after = known_times(more, times);
    if times.dom().contains(id) {
        assert(after == known.push(times[id]));
        lemma_any_within_push(known, times[id], now, config.max_source_age_days as int);
        let a = days_of(known).to_set();
        let b = days_of(after).to_set();
        assert(days_of(after) =~= days_of(known).push(times[id].day()));
        assert(a.subset_of(b)) by {
            assert forall|d: int| a.contains(d) implies b.contains(d) by {
                vstd::seq_lib::lemma_seq_contains_after_push(days_of(known), times[id].day(), d);
            }
        }
        vstd::set_lib::lemma_len_subset(a, b);
    }
}

/// Whether a source was recorded on the day.
pub open spec fn on_day(
    source_ids: Seq<MemoryId>,
    times: Map<MemoryId, Timestamp>,
    i: int,
    day: int,
) -> bool {
    &&& 0 <= i < source_ids.len()
    &&& times.dom().contains(source_ids[i])
    &&& day * 86_400 <= times[source_ids[i]].secs < (day + 1) * 86_400
}

/// Whether a source was recorded at most so many days before `now`.
pub open spec fn is_recent(
    source_ids: Seq<MemoryId>,
    times: Map<MemoryId, Timestamp>,
    i: int,
    now: Timestamp,
    days: int,
) -> bool {
    &&& 0 <= i < source_ids.len()
    &&& times.dom().contains(source_ids[i])
    &&& crate::time::instant(times[source_ids[i]]) >= crate::time::instant(now) - days * 86_400
        * 1_000_000_000
}

/// Whether a source of known time has the time.
pub open spec fn has_time(
    source_ids: Seq<MemoryId>,
    times: Map<MemoryId, Timestamp>,
    t: Timestamp,
) -> bool {
    exists|i: int|
        0 <= i < source_ids.len() && times.dom().contains(#[trigger] source_ids[i])
            && times[source_ids[i]] == t
}

proof fn lemma_known_times(source_ids: Seq<MemoryId>, times: Map<MemoryId, Timestamp>)
    ensures
        forall|i: int|
            0 <= i < source_ids.len() && times.dom().contains(#[trigger] source_ids[i])
                ==> known_times(source_ids, times).contains(times[source_ids[i]]),
        forall|k: int|
            0 <= k < known_times(source_ids, times).len() ==> has_time(
                source_ids,
                times,
                #[trigger] known_times(source_ids, times)[k],
            ),
    decreases source_ids.len(),
{
    if source_ids.len() > 0 {
        let rest = source_ids.drop_last();
        lemma_known_times(rest, times);
        let before = known_times(rest, times);
        let all = known_times(source_ids, times);
        assert forall|i: int|
            0 <= i < source_ids.len() && times.dom().contains(
                #[trigger] source_ids[i],
            ) implies all.contains(times[source_ids[i]]) by {
            if i < rest.len() {
                assert(rest[i] == source_ids[i]);
                let k = choose|k: int| 0 <= k < before.len() && before[k] == times[rest[i]];
                assert(all[k] == before[k]);
            } else {
                assert(all[before.len() as int] == times[source_ids[i]]);
            }
        }
        assert forall|k: int| 0 <= k < all.len() implies has_time(
            source_ids,
            times,
            #[trigger] all[k],
        ) by {
            if k < before.len() {
                assert(all[k] == before[k]);
                let i = choose|i: int|
                    0 <= i < rest.len() && times.dom().contains(#[trigger] rest[i])
                        && times[rest[i]] == before[k];
                assert(source_ids[i] == rest[i]);
            } else {
                assert(times[source_ids[source_ids.len() - 1]] == all[k]);
            }
        }
    }
}

/// A cluster becomes a memory exactly where it has enough sources, some source of known
/// time is recent enough, and the sources of known time fall on enough days: `days` are
/// the days on which some source was recorded.
pub proof fn lemma_passing_means(
    source_ids: Seq<MemoryId>,
    times: Map<MemoryId, Timestamp>,
    now: Timestamp,
    config: ThresholdConfig,
    days: Set<int>,
)
    requires
        now.nanos < 1_000_000_000,
        forall|i: int|
            0 <= i < source_ids.len() && times.dom().contains(#[trigger] source_ids[i])
                ==> times[source_ids[i]].nanos < 1_000_000_000,
        days.finite(),
        forall|d: int| #[trigger] days.contains(d) <==> exists|i: int| on_day(source_ids, times, i, d),
    ensures
        passes(source_ids, times, now, config) <==> {
            &&& source_ids.len() >= config.min_cluster_size
            &&& days.len() >= config.min_distinct_days
            &&& exists|i: int| is_recent(
                source_ids,
                times,
                i,
                now,
                config.max_source_age_days as int,
            )
        },
{
    lemma_known_times(source_ids, times);
    let known = known_times(source_ids, times);
    let all = days_of(known);
    assert(all.to_set() =~= days) by {
        assert forall|d: int| all.to_set().contains(d) <==> days.contains(d) by {
            if all.to_set().contains(d) {
                let k = choose|k: int| 0 <= k < all.len() && all[k] == d;
                assert(has_time(source_ids, times, known[k]));
                let i = choose|i: int|
                    0 <= i < source_ids.len() && times.dom().contains(#[trigger] source_ids[i])
                        && times[source_ids[i]] == known[k];
                crate::time::lemma_day_holds_the_time(known[k]);
                assert(on_day(source_ids, times, i, d));
            }
            if days.contains(d) {
                let i = choose|i: int| on_day(source_ids, times, i, d);
                assert(known.contains(times[source_ids[i]]));
                let k = choose|k: int| 0 <= k < known.len() && known[k] == times[source_ids[i]];
                crate::time::lemma_day_holds_the_time(known[k]);
                assert(all[k] == d);
            }
        }
    }
    let age = config.max_source_age_days as int;
    if any_within(known, now, age) {
        let k = choose|k: int| 0 <= k < known.len() && (#[trigger] known[k]).within_days(now, age);
        assert(has_time(source_ids, times, known[k]));
        let i = choose|i: int|
            0 <= i < source_ids.len() && times.dom().contains(#[trigger] source_ids[i])
                && times[source_ids[i]] == known[k];
        crate::time::lemma_times_are_instants(known[k], now, age);
        assert(is_recent(source_ids, times, i, now, age));
    }
    if exists|i: int| is_recent(source_ids, times, i, now, age) {
        let i = choose|i: int| is_recent(source_ids, times, i, now, age);
        assert(known.contains(times[source_ids[i]]));
        let k = choose|k: int| 0 <= k < known.len() && known[k] == times[source_ids[i]];
        crate::time::lemma_times_are_instants(known[k], now, age);
        assert(known[k].within_days(now, age));
    }
}

} // verus!
