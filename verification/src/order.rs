//! Putting entries in timestamp order.
//!
//! The sort is stable: entries with the same timestamp keep the order they
//! had before. Together with the direction this fixes the result, so sorting
//! twice gives what sorting once gives.

use crate::entry::{LogEntry, Priority, Sort};
use vstd::prelude::*;

verus! {

/// Whether an entry stamped `first` may stand before one stamped `second`
/// in a log sorted in the direction `order`.
pub open spec fn in_order(first: u64, second: u64, order: Sort) -> bool {
    match order {
        Sort::Ascending => first <= second,
        Sort::Descending => first >= second,
    }
}

/// Whether `entries` are in timestamp order in the direction `order`.
pub open spec fn is_sorted(entries: Seq<LogEntry>, order: Sort) -> bool {
    forall|i: int, j: int|
        0 <= i <= j < entries.len() ==> in_order(
            #[trigger] entries[i].timestamp,
            #[trigger] entries[j].timestamp,
            order,
        )
}

/// The entries stamped `timestamp`, in the order they have in `entries`.
pub open spec fn at_timestamp(entries: Seq<LogEntry>, timestamp: u64) -> Seq<LogEntry>
    decreases entries.len(),
{
    if entries.len() == 0 {
        Seq::empty()
    } else if entries.last().timestamp == timestamp {
        at_timestamp(entries.drop_last(), timestamp).push(entries.last())
    } else {
        at_timestamp(entries.drop_last(), timestamp)
    }
}

/// Whether `after` holds the entries of `before` with those of each
/// timestamp in the order they had in `before`.
pub open spec fn keeps_ties(before: Seq<LogEntry>, after: Seq<LogEntry>) -> bool {
    forall|timestamp: u64|
        #[trigger] at_timestamp(after, timestamp) == at_timestamp(before, timestamp)
}

/// Whether `after` is `before` sorted stably in the direction `order`.
pub open spec fn is_stable_sort_of(after: Seq<LogEntry>, before: Seq<LogEntry>, order: Sort) -> bool {
    is_sorted(after, order) && keeps_ties(before, after)
}

proof fn lemma_at_timestamp_push(entries: Seq<LogEntry>, entry: LogEntry, timestamp: u64)
    ensures
        at_timestamp(entries.push(entry), timestamp) == if entry.timestamp == timestamp {
            at_timestamp(entries, timestamp).push(entry)
        } else {
            at_timestamp(entries, timestamp)
        },
{
    assert(entries.push(entry).drop_last() =~= entries);
}

proof fn lemma_at_timestamp_concat(first: Seq<LogEntry>, second: Seq<LogEntry>, timestamp: u64)
    ensures
        at_timestamp(first + second, timestamp) == at_timestamp(first, timestamp) + at_timestamp(
            second,
            timestamp,
        ),
    decreases second.len(),
{
    if second.len() == 0 {
        assert(first + second =~= first);
        assert(at_timestamp(first, timestamp) + at_timestamp(second, timestamp) =~= at_timestamp(
            first,
            timestamp,
        ));
    } else {
        let shorter = second.drop_last();
        assert((first + second).drop_last() =~= first + shorter);
        lemma_at_timestamp_concat(first, shorter, timestamp);
        assert(at_timestamp(first + second, timestamp) =~= at_timestamp(first, timestamp)
            + at_timestamp(second, timestamp));
    }
}

proof fn lemma_at_timestamp_absent(entries: Seq<LogEntry>, timestamp: u64)
    requires
        forall|k: int| 0 <= k < entries.len() ==> entries[k].timestamp != timestamp,
    ensures
        at_timestamp(entries, timestamp) == Seq::<LogEntry>::empty(),
    decreases entries.len(),
{
    if entries.len() > 0 {
        lemma_at_timestamp_absent(entries.drop_last(), timestamp);
    }
}

proof fn lemma_at_timestamp_present(entries: Seq<LogEntry>, timestamp: u64)
    requires
        at_timestamp(entries, timestamp).len() > 0,
    ensures
        exists|k: int| 0 <= k < entries.len() && entries[k].timestamp == timestamp,
{
    if forall|k: int| 0 <= k < entries.len() ==> entries[k].timestamp != timestamp {
        lemma_at_timestamp_absent(entries, timestamp);
    }
}

/// The entries of each timestamp account for every entry once: logs that
/// agree on them hold the same entries, each as often as the other.
pub proof fn lemma_at_timestamp_count(entries: Seq<LogEntry>, entry: LogEntry)
    ensures
        at_timestamp(entries, entry.timestamp).to_multiset().count(entry)
            == entries.to_multiset().count(entry),
    decreases entries.len(),
{
    broadcast use vstd::seq_lib::group_to_multiset_ensures;

    if entries.len() == 0 {
    } else {
        let shorter = entries.drop_last();
        let last = entries.last();
        lemma_at_timestamp_count(shorter, entry);
        assert(entries =~= shorter.push(last));
        assert(entries.to_multiset() =~= shorter.to_multiset().insert(last));
        if last.timestamp == entry.timestamp {
            assert(at_timestamp(entries, entry.timestamp).to_multiset() =~= at_timestamp(
                shorter,
                entry.timestamp,
            ).to_multiset().insert(last));
        }
    }
}

/// A log that keeps the ties of another is a permutation of it.
pub proof fn lemma_keeps_ties_permutes(before: Seq<LogEntry>, after: Seq<LogEntry>)
    requires
        keeps_ties(before, after),
    ensures
        after.to_multiset() == before.to_multiset(),
        after.len() == before.len(),
{
    broadcast use vstd::seq_lib::group_to_multiset_ensures;

    assert forall|entry: LogEntry|
        after.to_multiset().count(entry) == before.to_multiset().count(entry) by {
        lemma_at_timestamp_count(before, entry);
        lemma_at_timestamp_count(after, entry);
        assert(at_timestamp(after, entry.timestamp) == at_timestamp(before, entry.timestamp));
    }
    assert(after.to_multiset() =~= before.to_multiset());
    after.to_multiset_ensures();
    before.to_multiset_ensures();
}

/// Two logs in the same timestamp order that agree on the entries of each
/// timestamp are the same log.
pub proof fn lemma_stable_sort_is_unique(first: Seq<LogEntry>, second: Seq<LogEntry>, order: Sort)
    requires
        is_sorted(first, order),
        is_sorted(second, order),
        keeps_ties(first, second),
    ensures
        first == second,
    decreases first.len(),
{
    if first.len() == 0 {
        if second.len() > 0 {
            let stamp = second.last().timestamp;
            assert(at_timestamp(second, stamp) == at_timestamp(first, stamp));
            assert(at_timestamp(second, stamp).len() > 0);
        }
        assert(first =~= second);
    } else {
        let a = first.last();
        assert(at_timestamp(second, a.timestamp) == at_timestamp(first, a.timestamp));
        assert(at_timestamp(first, a.timestamp).last() == a);
        lemma_at_timestamp_present(second, a.timestamp);
        let in_second = choose|k: int| 0 <= k < second.len() && second[k].timestamp == a.timestamp;
        let b = second.last();
        assert(in_order(second[in_second].timestamp, second[second.len() - 1].timestamp, order));
        assert(at_timestamp(first, b.timestamp) == at_timestamp(second, b.timestamp));
        assert(at_timestamp(second, b.timestamp).last() == b);
        lemma_at_timestamp_present(first, b.timestamp);
        let in_first = choose|k: int| 0 <= k < first.len() && first[k].timestamp == b.timestamp;
        assert(in_order(first[in_first].timestamp, first[first.len() - 1].timestamp, order));
        assert(a.timestamp == b.timestamp);
        assert(a == b);
        let first_rest = first.drop_last();
        let second_rest = second.drop_last();
        assert forall|timestamp: u64| #[trigger]
            at_timestamp(second_rest, timestamp) == at_timestamp(first_rest, timestamp) by {
            assert(at_timestamp(second, timestamp) == at_timestamp(first, timestamp));
            if timestamp == a.timestamp {
                assert(at_timestamp(first_rest, timestamp) =~= at_timestamp(
                    first,
                    timestamp,
                ).drop_last());
                assert(at_timestamp(second_rest, timestamp) =~= at_timestamp(
                    second,
                    timestamp,
                ).drop_last());
            }
        }
        assert(is_sorted(first_rest, order)) by {
            assert forall|i: int, j: int| 0 <= i <= j < first_rest.len() implies in_order(
                #[trigger] first_rest[i].timestamp,
                #[trigger] first_rest[j].timestamp,
                order,
            ) by {
                assert(in_order(first[i].timestamp, first[j].timestamp, order));
            }
        }
        assert(is_sorted(second_rest, order)) by {
            assert forall|i: int, j: int| 0 <= i <= j < second_rest.len() implies in_order(
                #[trigger] second_rest[i].timestamp,
                #[trigger] second_rest[j].timestamp,
                order,
            ) by {
                assert(in_order(second[i].timestamp, second[j].timestamp, order));
            }
        }
        lemma_stable_sort_is_unique(first_rest, second_rest, order);
        assert(first =~= first_rest.push(a));
        assert(second =~= second_rest.push(b));
    }
}

/// Sorting a log that is in order already changes nothing.
pub proof fn lemma_sorting_sorted_is_identity(before: Seq<LogEntry>, after: Seq<LogEntry>, order: Sort)
    requires
        is_sorted(before, order),
        is_stable_sort_of(after, before, order),
    ensures
        after == before,
{
    lemma_stable_sort_is_unique(before, after, order);
}

/// Sorting in one direction, then in the other, then in the first again
/// gives what the first sort gave.
pub proof fn lemma_sorting_there_and_back(
    start: Seq<LogEntry>,
    once: Seq<LogEntry>,
    turned: Seq<LogEntry>,
    again: Seq<LogEntry>,
    order: Sort,
    other: Sort,
)
    requires
        is_stable_sort_of(once, start, order),
        is_stable_sort_of(turned, once, other),
        is_stable_sort_of(again, turned, order),
    ensures
        again == once,
{
    assert forall|timestamp: u64| #[trigger]
        at_timestamp(again, timestamp) == at_timestamp(once, timestamp) by {
        assert(at_timestamp(again, timestamp) == at_timestamp(turned, timestamp));
        assert(at_timestamp(turned, timestamp) == at_timestamp(once, timestamp));
    }
    lemma_stable_sort_is_unique(once, again, order);
}

/// Whether an entry stamped `first` goes before one stamped `second` when
/// both could go next.
fn goes_first(first: u64, second: u64, order: Sort) -> (yes: bool)
    ensures
        yes == in_order(first, second, order),
{
    match order {
        Sort::Ascending => first <= second,
        Sort::Descending => first >= second,
    }
}

/// Moves the entry at `index` out of `entries`, leaving an empty entry in
/// its place.
fn take_out(entries: &mut Vec<LogEntry>, index: usize) -> (entry: LogEntry)
    requires
        index < old(entries).len(),
    ensures
        entry == old(entries)@[index as int],
        final(entries)@.len() == old(entries)@.len(),
        forall|k: int|
            0 <= k < old(entries)@.len() && k != index ==> final(entries)@[k] == old(entries)@[k],
{
    let mut slot = LogEntry {
        timestamp: 0,
        priority: Priority::Info,
        file: String::new(),
        line: 0,
        message: String::new(),
        counter: 0,
    };
    core::mem::swap(&mut entries[index], &mut slot);
    slot
}

/// Merges two sorted runs into one. Among entries with the same timestamp
/// those of `left` come before those of `right`.
fn merge(left: Vec<LogEntry>, right: Vec<LogEntry>, order: Sort) -> (out: Vec<LogEntry>)
    requires
        is_sorted(left@, order),
        is_sorted(right@, order),
    ensures
        is_sorted(out@, order),
        forall|timestamp: u64| #[trigger]
            at_timestamp(out@, timestamp) == at_timestamp(left@, timestamp) + at_timestamp(
                right@,
                timestamp,
            ),
{
    let ghost l0 = left@;
    let ghost r0 = right@;
    let mut left = left;
    let mut right = right;
    let mut out: Vec<LogEntry> = Vec::new();
    let mut i: usize = 0;
    let mut j: usize = 0;
    proof {
        assert(l0.take(0) =~= Seq::<LogEntry>::empty());
        assert(r0.take(0) =~= Seq::<LogEntry>::empty());
        assert forall|timestamp: u64| #[trigger]
            at_timestamp(out@, timestamp) == at_timestamp(l0.take(0), timestamp) + at_timestamp(
                r0.take(0),
                timestamp,
            ) by {
            assert(at_timestamp(out@, timestamp) =~= at_timestamp(l0.take(0), timestamp)
                + at_timestamp(r0.take(0), timestamp));
        }
    }
    while i < left.len() || j < right.len()
        invariant
            left.len() == l0.len(),
            right.len() == r0.len(),
            i <= l0.len(),
            j <= r0.len(),
            forall|k: int| i <= k < l0.len() ==> left@[k] == l0[k],
            forall|k: int| j <= k < r0.len() ==> right@[k] == r0[k],
            is_sorted(l0, order),
            is_sorted(r0, order),
            is_sorted(out@, order),
            forall|k: int|
                0 <= k < out.len() && i < l0.len() ==> in_order(
                    #[trigger] out@[k].timestamp,
                    l0[i as int].timestamp,
                    order,
                ),
            forall|k: int|
                0 <= k < out.len() && j < r0.len() ==> in_order(
                    #[trigger] out@[k].timestamp,
                    r0[j as int].timestamp,
                    order,
                ),
            forall|k: int|
                0 <= k < j && i < l0.len() ==> !in_order(
                    l0[i as int].timestamp,
                    #[trigger] r0[k].timestamp,
                    order,
                ),
            forall|timestamp: u64| #[trigger]
                at_timestamp(out@, timestamp) == at_timestamp(l0.take(i as int), timestamp)
                    + at_timestamp(r0.take(j as int), timestamp),
        decreases (l0.len() - i) + (r0.len() - j),
    {
        let ghost merged = out@;
        let from_left = if j >= right.len() {
            true
        } else if i >= left.len() {
            false
        } else {
            goes_first(left[i].timestamp, right[j].timestamp, order)
        };
        if from_left {
            let entry = take_out(&mut left, i);
            out.push(entry);
            proof {
                assert(entry == l0[i as int]);
                assert(l0.take(i + 1) =~= l0.take(i as int).push(entry));
                assert(is_sorted(out@, order)) by {
                    assert forall|a: int, b: int| 0 <= a <= b < out@.len() implies in_order(
                        #[trigger] out@[a].timestamp,
                        #[trigger] out@[b].timestamp,
                        order,
                    ) by {
                        if b < merged.len() {
                            assert(in_order(merged[a].timestamp, merged[b].timestamp, order));
                        } else if a < merged.len() {
                            assert(in_order(merged[a].timestamp, l0[i as int].timestamp, order));
                        }
                    }
                }
                assert forall|k: int| 0 <= k < out.len() && i + 1 < l0.len() implies in_order(
                    #[trigger] out@[k].timestamp,
                    l0[i + 1].timestamp,
                    order,
                ) by {
                    assert(in_order(l0[i as int].timestamp, l0[i + 1].timestamp, order));
                    if k < merged.len() {
                        assert(in_order(merged[k].timestamp, l0[i as int].timestamp, order));
                    }
                }
                assert forall|k: int| 0 <= k < out.len() && j < r0.len() implies in_order(
                    #[trigger] out@[k].timestamp,
                    r0[j as int].timestamp,
                    order,
                ) by {
                    if k < merged.len() {
                        assert(in_order(merged[k].timestamp, r0[j as int].timestamp, order));
                    }
                }
                assert forall|k: int| 0 <= k < j && i + 1 < l0.len() implies !in_order(
                    l0[i + 1].timestamp,
                    #[trigger] r0[k].timestamp,
                    order,
                ) by {
                    assert(in_order(l0[i as int].timestamp, l0[i + 1].timestamp, order));
                    assert(!in_order(l0[i as int].timestamp, r0[k].timestamp, order));
                }
                assert forall|timestamp: u64| #[trigger]
                    at_timestamp(out@, timestamp) == at_timestamp(l0.take(i + 1), timestamp)
                        + at_timestamp(r0.take(j as int), timestamp) by {
                    lemma_at_timestamp_push(merged, entry, timestamp);
                    lemma_at_timestamp_push(l0.take(i as int), entry, timestamp);
                    assert(at_timestamp(merged, timestamp) == at_timestamp(
                        l0.take(i as int),
                        timestamp,
                    ) + at_timestamp(r0.take(j as int), timestamp));
                    if entry.timestamp == timestamp {
                        assert forall|k: int| 0 <= k < r0.take(j as int).len() implies r0.take(
                            j as int,
                        )[k].timestamp != timestamp by {
                            assert(!in_order(l0[i as int].timestamp, r0[k].timestamp, order));
                        }
                        lemma_at_timestamp_absent(r0.take(j as int), timestamp);
                        assert(at_timestamp(out@, timestamp) =~= at_timestamp(
                            l0.take(i + 1),
                            timestamp,
                        ) + at_timestamp(r0.take(j as int), timestamp));
                    }
                }
            }
            i += 1;
        } else {
            let entry = take_out(&mut right, j);
            out.push(entry);
            proof {
                assert(entry == r0[j as int]);
                assert(r0.take(j + 1) =~= r0.take(j as int).push(entry));
                assert(is_sorted(out@, order)) by {
                    assert forall|a: int, b: int| 0 <= a <= b < out@.len() implies in_order(
                        #[trigger] out@[a].timestamp,
                        #[trigger] out@[b].timestamp,
                        order,
                    ) by {
                        if b < merged.len() {
                            assert(in_order(merged[a].timestamp, merged[b].timestamp, order));
                        } else if a < merged.len() {
                            assert(in_order(merged[a].timestamp, r0[j as int].timestamp, order));
                        }
                    }
                }
                assert forall|k: int| 0 <= k < out.len() && i < l0.len() implies in_order(
                    #[trigger] out@[k].timestamp,
                    l0[i as int].timestamp,
                    order,
                ) by {
                    if k < merged.len() {
                        assert(in_order(merged[k].timestamp, l0[i as int].timestamp, order));
                    }
                }
                assert forall|k: int| 0 <= k < out.len() && j + 1 < r0.len() implies in_order(
                    #[trigger] out@[k].timestamp,
                    r0[j + 1].timestamp,
                    order,
                ) by {
                    assert(in_order(r0[j as int].timestamp, r0[j + 1].timestamp, order));
                    if k < merged.len() {
                        assert(in_order(merged[k].timestamp, r0[j as int].timestamp, order));
                    }
                }
                assert forall|k: int| 0 <= k < j + 1 && i < l0.len() implies !in_order(
                    l0[i as int].timestamp,
                    #[trigger] r0[k].timestamp,
                    order,
                ) by {
                    if k == j {
                    } else {
                        assert(!in_order(l0[i as int].timestamp, r0[k].timestamp, order));
                    }
                }
                assert forall|timestamp: u64| #[trigger]
                    at_timestamp(out@, timestamp) == at_timestamp(l0.take(i as int), timestamp)
                        + at_timestamp(r0.take(j + 1), timestamp) by {
                    lemma_at_timestamp_push(merged, entry, timestamp);
                    lemma_at_timestamp_push(r0.take(j as int), entry, timestamp);
                    assert(at_timestamp(merged, timestamp) == at_timestamp(
                        l0.take(i as int),
                        timestamp,
                    ) + at_timestamp(r0.take(j as int), timestamp));
                    assert(at_timestamp(out@, timestamp) =~= at_timestamp(
                        l0.take(i as int),
                        timestamp,
                    ) + at_timestamp(r0.take(j + 1), timestamp));
                }
            }
            j += 1;
        }
    }
    proof {
        assert(l0.take(i as int) =~= l0);
        assert(r0.take(j as int) =~= r0);
    }
    out
}

/// Sorts `entries` stably by timestamp in the direction `order`, in a number
/// of steps that grows as `n log n` with their number.
pub fn sort_entries(entries: Vec<LogEntry>, order: Sort) -> (out: Vec<LogEntry>)
    ensures
        is_stable_sort_of(out@, entries@, order),
        out@.to_multiset() == entries@.to_multiset(),
        out@.len() == entries@.len(),
    decreases entries.len(),
{
    let ghost before = entries@;
    let total = entries.len();
    if total < 2 {
        proof {
            lemma_keeps_ties_permutes(before, before);
        }
        return entries;
    }
    let mut left = entries;
    let right = left.split_off(total / 2);
    let ghost l0 = left@;
    let ghost r0 = right@;
    let left = sort_entries(left, order);
    let right = sort_entries(right, order);
    let out = merge(left, right, order);
    proof {
        assert(before =~= l0 + r0);
        assert forall|timestamp: u64| #[trigger]
            at_timestamp(out@, timestamp) == at_timestamp(before, timestamp) by {
            lemma_at_timestamp_concat(l0, r0, timestamp);
            assert(at_timestamp(left@, timestamp) == at_timestamp(l0, timestamp));
            assert(at_timestamp(right@, timestamp) == at_timestamp(r0, timestamp));
            assert(at_timestamp(out@, timestamp) == at_timestamp(left@, timestamp) + at_timestamp(
                right@,
                timestamp,
            ));
        }
        lemma_keeps_ties_permutes(before, out@);
    }
    out
}

} // verus!
