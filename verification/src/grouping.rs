//! The events of one address, put in the order of their times.

use crate::calendar::{is_timestamp_in_range, timestamp_in_range};
use crate::models::CleaningEvent;
use crate::sorting::{lemma_rearranged, pair_le, sort_pairs};
use vstd::prelude::*;

verus! {

/// The event at position `i` is one of `address` and its timestamp is one
/// that the analysis takes.
pub open spec fn belongs(events: Seq<CleaningEvent>, address: Seq<char>, i: int) -> bool {
    &&& 0 <= i < events.len()
    &&& events[i].address@ == address
    &&& timestamp_in_range(events[i].timestamp)
}

/// One of the events before position `end` is one of `address` with a
/// timestamp in range.
pub open spec fn occurs_before(events: Seq<CleaningEvent>, address: Seq<char>, end: int) -> bool {
    exists|j: int| 0 <= j < end && belongs(events, address, j)
}

/// The event at position `i` comes before the one at position `j` in time,
/// or at the same time and earlier in the sequence.
pub open spec fn time_before(events: Seq<CleaningEvent>, i: int, j: int) -> bool {
    events[i].timestamp < events[j].timestamp || (events[i].timestamp == events[j].timestamp && i
        < j)
}

/// `order` lists the positions in `members`, each once, in the order of
/// time.
pub open spec fn lists_in_time_order(
    order: Seq<int>,
    events: Seq<CleaningEvent>,
    members: Set<int>,
) -> bool {
    &&& forall|k: int| 0 <= k < order.len() ==> members.contains(#[trigger] order[k])
    &&& forall|i: int| members.contains(i) ==> #[trigger] order.contains(i)
    &&& forall|k: int, l: int|
        0 <= k < l < order.len() ==> time_before(events, #[trigger] order[k], #[trigger] order[l])
}

/// `order` lists the positions of the events of `address` whose timestamps
/// are in range, each once, in the order of time.
pub open spec fn is_time_order(order: Seq<int>, events: Seq<CleaningEvent>, address: Seq<char>) -> bool {
    lists_in_time_order(order, events, Set::new(|i: int| belongs(events, address, i)))
}

/// The events at the positions that `order` lists.
pub open spec fn arranged(events: Seq<CleaningEvent>, order: Seq<int>) -> Seq<CleaningEvent> {
    Seq::new(order.len(), |k: int| events[order[k]])
}

/// The positions of a sequence of pairs of a timestamp and a position.
pub open spec fn positions_of(pairs: Seq<(i64, usize)>) -> Seq<int> {
    Seq::new(pairs.len(), |k: int| pairs[k].1 as int)
}

/// A set of positions can be listed in the order of time in one way only.
pub proof fn lemma_time_order_unique(
    first: Seq<int>,
    second: Seq<int>,
    events: Seq<CleaningEvent>,
    members: Set<int>,
)
    requires
        lists_in_time_order(first, events, members),
        lists_in_time_order(second, events, members),
    ensures
        first == second,
    decreases first.len(),
{
    if first.len() == 0 {
        if second.len() > 0 {
            assert(members.contains(second[0]));
            assert(first.contains(second[0]));
        }
        assert(first =~= second);
    } else {
        let a = first.last();
        assert(members.contains(first[first.len() - 1]));
        assert(second.contains(a));
        let b = second.last();
        assert(members.contains(second[second.len() - 1]));
        assert(first.contains(b));
        let p = choose|p: int| 0 <= p < second.len() && second[p] == a;
        let q = choose|q: int| 0 <= q < first.len() && first[q] == b;
        if a != b {
            assert(time_before(events, second[p], second[second.len() - 1]));
            assert(time_before(events, first[q], first[first.len() - 1]));
        }
        let rest = members.remove(a);
        let shorter_first = first.drop_last();
        let shorter_second = second.drop_last();
        assert(lists_in_time_order(shorter_first, events, rest)) by {
            assert forall|k: int| 0 <= k < shorter_first.len() implies rest.contains(
                #[trigger] shorter_first[k],
            ) by {
                assert(members.contains(first[k]));
                assert(time_before(events, first[k], first[first.len() - 1]));
            }
            assert forall|i: int| rest.contains(i) implies #[trigger] shorter_first.contains(
                i,
            ) by {
                assert(first.contains(i));
                let at = choose|at: int| 0 <= at < first.len() && first[at] == i;
                assert(shorter_first[at] == i);
            }
            assert forall|k: int, l: int| 0 <= k < l < shorter_first.len() implies time_before(
                events,
                #[trigger] shorter_first[k],
                #[trigger] shorter_first[l],
            ) by {
                assert(time_before(events, first[k], first[l]));
            }
        }
        assert(lists_in_time_order(shorter_second, events, rest)) by {
            assert forall|k: int| 0 <= k < shorter_second.len() implies rest.contains(
                #[trigger] shorter_second[k],
            ) by {
                assert(members.contains(second[k]));
                assert(time_before(events, second[k], second[second.len() - 1]));
            }
            assert forall|i: int| rest.contains(i) implies #[trigger] shorter_second.contains(
                i,
            ) by {
                assert(second.contains(i));
                let at = choose|at: int| 0 <= at < second.len() && second[at] == i;
                assert(shorter_second[at] == i);
            }
            assert forall|k: int, l: int| 0 <= k < l < shorter_second.len() implies time_before(
                events,
                #[trigger] shorter_second[k],
                #[trigger] shorter_second[l],
            ) by {
                assert(time_before(events, second[k], second[l]));
            }
        }
        lemma_time_order_unique(shorter_first, shorter_second, events, rest);
        assert(first =~= shorter_first.push(a));
        assert(second =~= shorter_second.push(b));
    }
}

/// Tells whether an event before position `at` is one of the same address
/// as the event at `at` and has a timestamp in range.
pub fn seen_before(events: &Vec<CleaningEvent>, at: usize) -> (seen: bool)
    requires
        at < events@.len(),
    ensures
        seen == occurs_before(events@, events@[at as int].address@, at as int),
{
    let mut j: usize = 0;
    while j < at
        invariant
            j <= at < events@.len(),
            forall|k: int| 0 <= k < j ==> !belongs(events@, events@[at as int].address@, k),
        decreases at - j,
    {
        if is_timestamp_in_range(events[j].timestamp) && events[j].address == events[at].address {
            assert(belongs(events@, events@[at as int].address@, j as int));
            return true;
        }
        j = j + 1;
    }
    false
}

/// The events of the address of the event at position `at` whose timestamps
/// are in range, as pairs of timestamp and position in the order of time.
pub fn time_ordered_group(events: &Vec<CleaningEvent>, at: usize) -> (sorted: Vec<(i64, usize)>)
    requires
        at < events@.len(),
    ensures
        is_time_order(positions_of(sorted@), events@, events@[at as int].address@),
        sorted@.len() <= events@.len(),
        forall|k: int|
            0 <= k < sorted@.len() ==> (#[trigger] sorted@[k]).1 < events@.len() && sorted@[k].0
                == events@[sorted@[k].1 as int].timestamp,
{
    let ghost address = events@[at as int].address@;
    let mut pairs: Vec<(i64, usize)> = Vec::new();
    let mut g: usize = 0;
    while g < events.len()
        invariant
            g <= events@.len(),
            at < events@.len(),
            address == events@[at as int].address@,
            pairs@.len() <= g,
            forall|k: int|
                0 <= k < pairs@.len() ==> (#[trigger] pairs@[k]).1 < g && belongs(
                    events@,
                    address,
                    pairs@[k].1 as int,
                ) && pairs@[k].0 == events@[pairs@[k].1 as int].timestamp,
            forall|i: int|
                0 <= i < g && belongs(events@, address, i) ==> pairs@.contains(
                    (events@[i].timestamp, i as usize),
                ),
            pairs@.no_duplicates(),
        decreases events.len() - g,
    {
        if is_timestamp_in_range(events[g].timestamp) && events[g].address == events[at].address {
            let ghost before = pairs@;
            pairs.push((events[g].timestamp, g));
            proof {
                assert forall|i: int|
                    0 <= i < g + 1 && belongs(events@, address, i) implies pairs@.contains(
                    (events@[i].timestamp, i as usize),
                ) by {
                    if i < g {
                        let pair = (events@[i].timestamp, i as usize);
                        let k = choose|k: int| 0 <= k < before.len() && before[k] == pair;
                        assert(pairs@[k] == pair);
                    } else {
                        assert(pairs@[before.len() as int] == (events@[i].timestamp, i as usize));
                    }
                }
            }
        }
        g = g + 1;
    }
    let ghost unsorted = pairs@;
    sort_pairs(&mut pairs);
    proof {
        lemma_rearranged(unsorted, pairs@);
        let order = positions_of(pairs@);
        let members = Set::new(|i: int| belongs(events@, address, i));
        assert forall|k: int| 0 <= k < pairs@.len() implies (#[trigger] pairs@[k]).1
            < events@.len() && belongs(events@, address, pairs@[k].1 as int) && pairs@[k].0
            == events@[pairs@[k].1 as int].timestamp by {
            assert(pairs@.contains(pairs@[k]));
            assert(unsorted.contains(pairs@[k]));
            let u = choose|u: int| 0 <= u < unsorted.len() && unsorted[u] == pairs@[k];
            assert(unsorted[u].1 < events@.len());
        }
        assert forall|k: int| 0 <= k < order.len() implies members.contains(
            #[trigger] order[k],
        ) by {
            assert(belongs(events@, address, pairs@[k].1 as int));
        }
        assert forall|i: int| members.contains(i) implies #[trigger] order.contains(i) by {
            let pair = (events@[i].timestamp, i as usize);
            assert(unsorted.contains(pair));
            assert(pairs@.contains(pair));
            let k = choose|k: int| 0 <= k < pairs@.len() && pairs@[k] == pair;
            assert(order[k] == i);
        }
        assert forall|k: int, l: int| 0 <= k < l < order.len() implies time_before(
            events@,
            #[trigger] order[k],
            #[trigger] order[l],
        ) by {
            assert(pair_le(pairs@[k], pairs@[l]));
            assert(pairs@[k] != pairs@[l]);
            assert(pairs@[k].0 == events@[pairs@[k].1 as int].timestamp);
            assert(pairs@[l].0 == events@[pairs@[l].1 as int].timestamp);
        }
    }
    pairs
}

} // verus!
