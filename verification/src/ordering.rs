//! The order that pruning puts entries in, and where it cuts.

use vstd::prelude::*;
use crate::prune_command::{Entry, PruneStrategy};
use crate::timestamp::{Timestamp, rank};

verus! {

/// The number an entry is ordered by under `strategy`: the rank of its update
/// date for [`PruneStrategy::RecentlyUpdated`], of its publication date otherwise.
pub open spec fn sort_key(entry: Entry, strategy: PruneStrategy) -> int {
    match strategy {
        PruneStrategy::RecentlyUpdated => rank(entry.updated),
        _ => rank(entry.published),
    }
}

/// `sorted` with `entry` put in behind every entry whose key is not greater
/// than its own.
pub open spec fn insert_ascending(sorted: Seq<Entry>, entry: Entry, strategy: PruneStrategy) -> Seq<
    Entry,
>
    decreases sorted.len(),
{
    if sorted.len() == 0 {
        seq![entry]
    } else if sort_key(sorted.last(), strategy) <= sort_key(entry, strategy) {
        sorted.push(entry)
    } else {
        insert_ascending(sorted.drop_last(), entry, strategy).push(sorted.last())
    }
}

/// The entries in ascending order of their keys, entries of equal key in the
/// order they came in: the stable sort.
pub open spec fn oldest_first(entries: Seq<Entry>, strategy: PruneStrategy) -> Seq<Entry>
    decreases entries.len(),
{
    if entries.len() == 0 {
        entries
    } else {
        insert_ascending(oldest_first(entries.drop_last(), strategy), entries.last(), strategy)
    }
}

/// The stable ascending order, reversed: most recent first.
pub open spec fn newest_first(entries: Seq<Entry>, strategy: PruneStrategy) -> Seq<Entry> {
    oldest_first(entries, strategy).reverse()
}

/// Whether the entry was published at or after `since`. An entry without a
/// publication date was not.
pub open spec fn admitted(entry: Entry, since: Timestamp) -> bool {
    entry.published matches Some(at) && at.at_or_after(since)
}

/// How many entries at the front of `entries` are admitted, one after the
/// other: the index of the first that is not.
pub open spec fn cutoff(entries: Seq<Entry>, since: Timestamp) -> nat
    decreases entries.len(),
{
    if entries.len() > 0 && admitted(entries.first(), since) {
        1 + cutoff(entries.drop_first(), since)
    } else {
        0
    }
}

/// Putting one entry in makes the sequence one longer.
pub proof fn lemma_insert_ascending_len(sorted: Seq<Entry>, entry: Entry, strategy: PruneStrategy)
    ensures
        insert_ascending(sorted, entry, strategy).len() == sorted.len() + 1,
    decreases sorted.len(),
{
    if sorted.len() > 0 && sort_key(sorted.last(), strategy) > sort_key(entry, strategy) {
        lemma_insert_ascending_len(sorted.drop_last(), entry, strategy);
    }
}

/// Sorting neither adds nor loses an entry.
pub proof fn lemma_oldest_first_len(entries: Seq<Entry>, strategy: PruneStrategy)
    ensures
        oldest_first(entries, strategy).len() == entries.len(),
        newest_first(entries, strategy).len() == entries.len(),
    decreases entries.len(),
{
    if entries.len() > 0 {
        lemma_oldest_first_len(entries.drop_last(), strategy);
        lemma_insert_ascending_len(
            oldest_first(entries.drop_last(), strategy),
            entries.last(),
            strategy,
        );
    }
}

/// The cutoff lies within the sequence; every entry before it is admitted,
/// and the entry at it, if there is one, is not.
pub proof fn lemma_cutoff_bounds(entries: Seq<Entry>, since: Timestamp)
    ensures
        cutoff(entries, since) <= entries.len(),
        forall|i: int| 0 <= i < cutoff(entries, since) ==> admitted(#[trigger] entries[i], since),
        cutoff(entries, since) < entries.len() ==> !admitted(
            entries[cutoff(entries, since) as int],
            since,
        ),
    decreases entries.len(),
{
    if entries.len() > 0 && admitted(entries.first(), since) {
        let rest = entries.drop_first();
        lemma_cutoff_bounds(rest, since);
        assert forall|i: int| 0 <= i < cutoff(entries, since) implies admitted(
            #[trigger] entries[i],
            since,
        ) by {
            if i > 0 {
                assert(entries[i] == rest[i - 1]);
            }
        }
        if cutoff(entries, since) < entries.len() {
            assert(entries[cutoff(entries, since) as int] == rest[cutoff(rest, since) as int]);
        }
    }
}

/// Whether the keys never fall from one entry to a later one.
pub open spec fn ascending(entries: Seq<Entry>, strategy: PruneStrategy) -> bool {
    forall|i: int, j: int|
        0 <= i <= j < entries.len() ==> sort_key(entries[i], strategy) <= sort_key(
            entries[j],
            strategy,
        )
}

/// Whether the keys never rise from one entry to a later one.
pub open spec fn descending(entries: Seq<Entry>, strategy: PruneStrategy) -> bool {
    forall|i: int, j: int|
        0 <= i <= j < entries.len() ==> sort_key(entries[i], strategy) >= sort_key(
            entries[j],
            strategy,
        )
}

/// Whether an entry has the key `key`.
pub open spec fn has_key(strategy: PruneStrategy, key: int) -> spec_fn(Entry) -> bool {
    |entry: Entry| sort_key(entry, strategy) == key
}

/// Where an entry is put in: behind the entries before `at`, none of which
/// has a greater key than the entry, and before the others, all of which
/// have one.
pub proof fn lemma_insert_ascending_place(
    sorted: Seq<Entry>,
    entry: Entry,
    strategy: PruneStrategy,
) -> (at: int)
    ensures
        0 <= at <= sorted.len(),
        insert_ascending(sorted, entry, strategy) == sorted.insert(at, entry),
        at > 0 ==> sort_key(sorted[at - 1], strategy) <= sort_key(entry, strategy),
        forall|i: int|
            at <= i < sorted.len() ==> sort_key(#[trigger] sorted[i], strategy) > sort_key(
                entry,
                strategy,
            ),
    decreases sorted.len(),
{
    if sorted.len() == 0 {
        assert(seq![entry] =~= sorted.insert(0, entry));
        0
    } else if sort_key(sorted.last(), strategy) <= sort_key(entry, strategy) {
        assert(sorted.push(entry) =~= sorted.insert(sorted.len() as int, entry));
        sorted.len() as int
    } else {
        let front = sorted.drop_last();
        let at = lemma_insert_ascending_place(front, entry, strategy);
        assert(front.insert(at, entry).push(sorted.last()) =~= sorted.insert(at, entry));
        assert forall|i: int| at <= i < sorted.len() implies sort_key(
            #[trigger] sorted[i],
            strategy,
        ) > sort_key(entry, strategy) by {
            if i < front.len() {
                assert(sorted[i] == front[i]);
            }
        }
        if at > 0 {
            assert(sorted[at - 1] == front[at - 1]);
        }
        at
    }
}

/// The stable sort puts the entries in ascending order; most recent first
/// is descending.
pub proof fn lemma_sorted(entries: Seq<Entry>, strategy: PruneStrategy)
    ensures
        ascending(oldest_first(entries, strategy), strategy),
        descending(newest_first(entries, strategy), strategy),
    decreases entries.len(),
{
    let sorted = oldest_first(entries, strategy);
    if entries.len() > 0 {
        let before = oldest_first(entries.drop_last(), strategy);
        lemma_sorted(entries.drop_last(), strategy);
        let at = lemma_insert_ascending_place(before, entries.last(), strategy);
        assert forall|i: int, j: int| 0 <= i <= j < sorted.len() implies sort_key(
            sorted[i],
            strategy,
        ) <= sort_key(sorted[j], strategy) by {
            let low = if i < at {
                before[i]
            } else if i == at {
                entries.last()
            } else {
                before[i - 1]
            };
            let high = if j < at {
                before[j]
            } else if j == at {
                entries.last()
            } else {
                before[j - 1]
            };
            assert(sorted[i] == low && sorted[j] == high);
            if i < at && j >= at {
                assert(sort_key(before[i], strategy) <= sort_key(before[at - 1], strategy));
            }
        }
    }
    lemma_oldest_first_len(entries, strategy);
    let turned = newest_first(entries, strategy);
    assert forall|i: int, j: int| 0 <= i <= j < turned.len() implies sort_key(
        turned[i],
        strategy,
    ) >= sort_key(turned[j], strategy) by {
        assert(turned[i] == sorted[sorted.len() - 1 - i]);
        assert(turned[j] == sorted[sorted.len() - 1 - j]);
    }
}

/// Sorting keeps every entry, as often as it occurs.
pub proof fn lemma_same_entries(entries: Seq<Entry>, strategy: PruneStrategy)
    ensures
        oldest_first(entries, strategy).to_multiset() == entries.to_multiset(),
        newest_first(entries, strategy).to_multiset() == entries.to_multiset(),
    decreases entries.len(),
{
    if entries.len() > 0 {
        let front = entries.drop_last();
        let before = oldest_first(front, strategy);
        lemma_same_entries(front, strategy);
        let at = lemma_insert_ascending_place(before, entries.last(), strategy);
        vstd::seq_lib::to_multiset_insert(before, at, entries.last());
        vstd::seq_lib::to_multiset_build(front, entries.last());
        assert(front.push(entries.last()) =~= entries);
    }
    oldest_first(entries, strategy).lemma_reverse_to_multiset();
}

/// Turning a sequence round and picking from it is picking from it and
/// turning the pick round.
proof fn lemma_filter_reverse(entries: Seq<Entry>, pick: spec_fn(Entry) -> bool)
    ensures
        entries.reverse().filter(pick) == entries.filter(pick).reverse(),
    decreases entries.len(),
{
    if entries.len() == 0 {
        assert(entries.reverse() =~= entries);
        assert(entries.filter(pick).len() <= 0) by {
            entries.lemma_filter_len(pick);
        }
        assert(entries.filter(pick).reverse() =~= entries.filter(pick));
        assert(entries.filter(pick) =~= entries);
    } else {
        let front = entries.drop_last();
        let last = entries.last();
        lemma_filter_reverse(front, pick);
        assert(entries =~= front.push(last));
        assert(entries.reverse() =~= seq![last] + front.reverse());
        Seq::filter_distributes_over_add(seq![last], front.reverse(), pick);
        front.lemma_filter_push(last, pick);
        Seq::<Entry>::empty().lemma_filter_push(last, pick);
        assert(Seq::<Entry>::empty().push(last) =~= seq![last]);
        assert(Seq::<Entry>::empty().filter(pick) =~= Seq::<Entry>::empty()) by {
            Seq::<Entry>::empty().lemma_filter_len(pick);
        }
        if pick(last) {
            assert(seq![last].filter(pick) =~= seq![last]);
            assert(front.filter(pick).push(last).reverse() =~= seq![last] + front.filter(
                pick,
            ).reverse());
        } else {
            assert(seq![last].filter(pick) =~= Seq::<Entry>::empty());
            assert(Seq::<Entry>::empty() + front.reverse().filter(pick) =~= front.reverse().filter(
                pick,
            ));
        }
    }
}

/// The sort is stable: the entries of any one key stand in the ascending
/// order as they stood in the feed, and most recent first the other way round.
pub proof fn lemma_stable(entries: Seq<Entry>, strategy: PruneStrategy, key: int)
    ensures
        oldest_first(entries, strategy).filter(has_key(strategy, key)) == entries.filter(
            has_key(strategy, key),
        ),
        newest_first(entries, strategy).filter(has_key(strategy, key)) == entries.filter(
            has_key(strategy, key),
        ).reverse(),
    decreases entries.len(),
{
    let pick = has_key(strategy, key);
    if entries.len() > 0 {
        let front = entries.drop_last();
        let last = entries.last();
        let before = oldest_first(front, strategy);
        lemma_stable(front, strategy, key);
        let at = lemma_insert_ascending_place(before, last, strategy);
        let low = before.take(at);
        let high = before.skip(at);
        assert(before =~= low + high);
        assert(before.insert(at, last) =~= low.push(last) + high);
        Seq::filter_distributes_over_add(low, high, pick);
        Seq::filter_distributes_over_add(low.push(last), high, pick);
        low.lemma_filter_push(last, pick);
        front.lemma_filter_push(last, pick);
        assert(front.push(last) =~= entries);
        if pick(last) {
            assert(high.all(|entry: Entry| !pick(entry))) by {
                assert forall|i: int| 0 <= i < high.len() implies !pick(#[trigger] high[i]) by {
                    assert(high[i] == before[at + i]);
                }
            }
            high.lemma_all_neg_filter_empty(pick);
            assert(high.filter(pick) =~= Seq::<Entry>::empty());
            assert(low.filter(pick).push(last) + high.filter(pick) =~= (low.filter(pick)
                + high.filter(pick)).push(last));
        }
    }
    lemma_filter_reverse(oldest_first(entries, strategy), pick);
}

/// Whether `sorted` holds `entries` in stable ascending order: its keys
/// ascend, and the entries of each key are those of `entries`, in the order
/// they have there.
pub open spec fn stably_sorted(
    entries: Seq<Entry>,
    sorted: Seq<Entry>,
    strategy: PruneStrategy,
) -> bool {
    &&& ascending(sorted, strategy)
    &&& forall|key: int|
        #[trigger] sorted.filter(has_key(strategy, key)) == entries.filter(has_key(strategy, key))
}

/// The key of the last entry of an ascending sequence is the greatest key
/// that any entry picked out of it by key can have.
proof fn lemma_picked_key_is_bounded(entries: Seq<Entry>, strategy: PruneStrategy, key: int)
    requires
        ascending(entries, strategy),
        entries.filter(has_key(strategy, key)).len() > 0,
    ensures
        entries.len() > 0,
        key <= sort_key(entries.last(), strategy),
{
    let pick = has_key(strategy, key);
    let picked = entries.filter(pick);
    entries.lemma_filter_len(pick);
    entries.lemma_filter_pred(pick, 0);
    assert(picked.contains(picked[0]));
    entries.lemma_filter_contains_rev(pick, picked[0]);
    let i = choose|i: int| 0 <= i < entries.len() && entries[i] == picked[0];
    assert(sort_key(entries[i], strategy) <= sort_key(entries.last(), strategy));
}

/// Two ascending sequences that hold, for each key, the same entries in the
/// same order are one and the same.
proof fn lemma_ascending_is_unique(a: Seq<Entry>, b: Seq<Entry>, strategy: PruneStrategy)
    requires
        ascending(a, strategy),
        ascending(b, strategy),
        forall|key: int|
            #[trigger] a.filter(has_key(strategy, key)) == b.filter(has_key(strategy, key)),
    ensures
        a == b,
    decreases a.len(),
{
    if a.len() == 0 {
        if b.len() > 0 {
            let pick = has_key(strategy, sort_key(b[0], strategy));
            b.lemma_filter_contains(pick, 0);
            a.lemma_filter_len(pick);
            assert(a.filter(pick) == b.filter(pick));
        }
        assert(a =~= b);
    } else {
        let key = sort_key(a.last(), strategy);
        let pick = has_key(strategy, key);
        let front = a.drop_last();
        assert(a =~= front.push(a.last()));
        front.lemma_filter_push(a.last(), pick);
        assert(a.filter(pick) == b.filter(pick));
        lemma_picked_key_is_bounded(b, strategy, key);
        let other = sort_key(b.last(), strategy);
        let other_pick = has_key(strategy, other);
        let other_front = b.drop_last();
        assert(b =~= other_front.push(b.last()));
        other_front.lemma_filter_push(b.last(), other_pick);
        assert(a.filter(other_pick) == b.filter(other_pick));
        lemma_picked_key_is_bounded(a, strategy, other);
        assert(other == key);
        other_front.lemma_filter_push(b.last(), pick);
        assert(a.filter(pick).last() == a.last());
        assert(b.filter(pick).last() == b.last());
        assert(a.filter(pick).drop_last() =~= front.filter(pick));
        assert(b.filter(pick).drop_last() =~= other_front.filter(pick));
        assert forall|k: int| #[trigger]
            front.filter(has_key(strategy, k)) == other_front.filter(has_key(strategy, k)) by {
            let picks = has_key(strategy, k);
            front.lemma_filter_push(a.last(), picks);
            other_front.lemma_filter_push(b.last(), picks);
            assert(a.filter(picks) == b.filter(picks));
        }
        assert(ascending(front, strategy)) by {
            assert forall|i: int, j: int| 0 <= i <= j < front.len() implies sort_key(
                front[i],
                strategy,
            ) <= sort_key(front[j], strategy) by {
                assert(front[i] == a[i] && front[j] == a[j]);
            }
        }
        assert(ascending(other_front, strategy)) by {
            assert forall|i: int, j: int| 0 <= i <= j < other_front.len() implies sort_key(
                other_front[i],
                strategy,
            ) <= sort_key(other_front[j], strategy) by {
                assert(other_front[i] == b[i] && other_front[j] == b[j]);
            }
        }
        lemma_ascending_is_unique(front, other_front, strategy);
    }
}

/// The entries have one stable ascending order, and it is [`oldest_first`].
pub proof fn lemma_the_stable_sort(
    entries: Seq<Entry>,
    sorted: Seq<Entry>,
    strategy: PruneStrategy,
)
    ensures
        stably_sorted(entries, sorted, strategy) <==> sorted == oldest_first(entries, strategy),
{
    let ours = oldest_first(entries, strategy);
    lemma_sorted(entries, strategy);
    assert forall|key: int| #[trigger]
        ours.filter(has_key(strategy, key)) == entries.filter(has_key(strategy, key)) by {
        lemma_stable(entries, strategy, key);
    }
    if stably_sorted(entries, sorted, strategy) {
        lemma_ascending_is_unique(sorted, ours, strategy);
    }
}

/// Most recent first by publication date, the admitted entries stand
/// together at the front: none stands at or behind the cutoff.
pub proof fn lemma_cutoff_parts(entries: Seq<Entry>, strategy: PruneStrategy, since: Timestamp)
    requires
        !(strategy is RecentlyUpdated),
    ensures
        ({
            let ordered = newest_first(entries, strategy);
            forall|i: int|
                0 <= i < ordered.len() ==> (admitted(#[trigger] ordered[i], since) <==> i < cutoff(
                    ordered,
                    since,
                ))
        }),
{
    let ordered = newest_first(entries, strategy);
    let cut = cutoff(ordered, since) as int;
    lemma_sorted(entries, strategy);
    lemma_cutoff_bounds(ordered, since);
    assert forall|i: int| 0 <= i < ordered.len() implies (admitted(#[trigger] ordered[i], since)
        <==> i < cut) by {
        if i >= cut && admitted(ordered[i], since) {
            crate::timestamp::lemma_rank_orders(ordered[i].published, since);
            crate::timestamp::lemma_rank_orders(ordered[cut].published, since);
            assert(sort_key(ordered[cut], strategy) >= sort_key(ordered[i], strategy));
        }
    }
}

} // verus!
