//! Pruning: which entries a feed keeps and which leave it.

use vstd::prelude::*;
use crate::ordering::{
    admitted, cutoff, insert_ascending, lemma_cutoff_bounds, lemma_cutoff_parts,
    lemma_oldest_first_len, lemma_same_entries, newest_first, oldest_first, sort_key,
};
use crate::text::same_str;
use crate::timestamp::{Timestamp, rank_of};

verus! {

/// How the entries are ordered before the feed is cut, and where the cut falls.
#[derive(Clone, Copy, Debug, PartialEq, Eq)]
pub enum PruneStrategy {
    /// Keep the entries published most recently.
    RecentlyPublished,
    /// Keep the entries updated most recently.
    RecentlyUpdated,
    /// Keep the entries published at or after a given date, up to the count.
    SinceDate,
}

/// The strategy that a name on the command line stands for.
pub open spec fn strategy_named(name: Seq<char>) -> Option<PruneStrategy> {
    if name == "published"@ {
        Some(PruneStrategy::RecentlyPublished)
    } else if name == "updated"@ {
        Some(PruneStrategy::RecentlyUpdated)
    } else if name == "since-date"@ {
        Some(PruneStrategy::SinceDate)
    } else {
        None
    }
}

impl Default for PruneStrategy {
    fn default() -> (strategy: PruneStrategy)
        ensures
            strategy == PruneStrategy::RecentlyPublished,
    {
        PruneStrategy::RecentlyPublished
    }
}

impl PruneStrategy {
    /// Reads a strategy from its name: `published`, `updated` or `since-date`.
    /// Any other name is refused.
    pub fn from_str(it: &str) -> (parsed: Result<PruneStrategy, &'static str>)
        ensures
            match strategy_named(it@) {
                Some(strategy) => parsed == Ok::<PruneStrategy, &'static str>(strategy),
                None => parsed is Err && parsed->Err_0@ == "unknown pruning strategy"@,
            },
    {
        if same_str(it, "published") {
            Ok(PruneStrategy::RecentlyPublished)
        } else if same_str(it, "updated") {
            Ok(PruneStrategy::RecentlyUpdated)
        } else if same_str(it, "since-date") {
            Ok(PruneStrategy::SinceDate)
        } else {
            Err("unknown pruning strategy")
        }
    }
}

/// What pruning reads of a feed entry: the two dates it may be ordered by,
/// and the place the entry had in the feed, by which it is found again.
#[derive(Clone, Copy, Debug, PartialEq, Eq)]
pub struct Entry {
    /// The entry's position in the feed it was taken from.
    pub slot: usize,
    /// When the entry was first published, if the feed says so.
    pub published: Option<Timestamp>,
    /// When the entry was last updated, if the feed says so.
    pub updated: Option<Timestamp>,
}

impl Entry {
    /// The number the entry is ordered by under `strategy`.
    pub fn key(&self, strategy: PruneStrategy) -> (k: i128)
        ensures
            k == sort_key(*self, strategy),
    {
        match strategy {
            PruneStrategy::RecentlyUpdated => rank_of(&self.updated),
            _ => rank_of(&self.published),
        }
    }

    /// Whether the entry was published at or after `since`.
    pub fn is_admitted(&self, since: &Timestamp) -> (yes: bool)
        ensures
            yes == admitted(*self, *since),
    {
        match &self.published {
            Some(at) => at.is_at_or_after(since),
            None => false,
        }
    }
}

/// Sorts the entries by their keys, ascending and stable.
fn sort_oldest_first(entries: &Vec<Entry>, strategy: PruneStrategy) -> (sorted: Vec<Entry>)
    ensures
        sorted@ == oldest_first(entries@, strategy),
{
    let mut sorted: Vec<Entry> = Vec::new();
    let mut done: usize = 0;
    while done < entries.len()
        invariant
            done <= entries.len(),
            sorted@ == oldest_first(entries@.take(done as int), strategy),
        decreases entries.len() - done,
    {
        let entry = entries[done];
        let key = entry.key(strategy);
        let mut at: usize = sorted.len();
        assert(sorted@.take(at as int) + sorted@.skip(at as int) =~= sorted@);
        assert(sorted@.take(at as int) =~= sorted@);
        while at > 0 && sorted[at - 1].key(strategy) > key
            invariant
                at <= sorted.len(),
                key == sort_key(entry, strategy),
                insert_ascending(sorted@, entry, strategy) == insert_ascending(
                    sorted@.take(at as int),
                    entry,
                    strategy,
                ) + sorted@.skip(at as int),
            decreases at,
        {
            proof {
                let front = sorted@.take(at as int);
                assert(front.drop_last() =~= sorted@.take(at - 1));
                assert(insert_ascending(front, entry, strategy) + sorted@.skip(at as int)
                    =~= insert_ascending(front.drop_last(), entry, strategy) + sorted@.skip(
                    at - 1,
                ));
            }
            at = at - 1;
        }
        proof {
            let front = sorted@.take(at as int);
            assert(insert_ascending(front, entry, strategy) =~= front.push(entry));
            assert(front.push(entry) + sorted@.skip(at as int) =~= sorted@.insert(
                at as int,
                entry,
            ));
            assert(entries@.take(done + 1).drop_last() =~= entries@.take(done as int));
        }
        sorted.insert(at, entry);
        done = done + 1;
    }
    assert(entries@.take(done as int) =~= entries@);
    sorted
}

/// The entries in the opposite order.
fn reversed(entries: &Vec<Entry>) -> (turned: Vec<Entry>)
    ensures
        turned@ == entries@.reverse(),
{
    let mut turned: Vec<Entry> = Vec::new();
    let mut left: usize = entries.len();
    while left > 0
        invariant
            left <= entries.len(),
            turned.len() == entries.len() - left,
            forall|i: int| 0 <= i < turned.len() ==> turned@[i] == entries@[entries.len() - 1 - i],
        decreases left,
    {
        left = left - 1;
        turned.push(entries[left]);
    }
    assert(turned@ =~= entries@.reverse());
    turned
}

/// Counts the admitted entries at the front of `ordered`.
fn count_admitted(ordered: &Vec<Entry>, since: &Timestamp) -> (n: usize)
    ensures
        n == cutoff(ordered@, *since),
{
    let mut n: usize = 0;
    assert(ordered@.skip(0) =~= ordered@);
    while n < ordered.len() && ordered[n].is_admitted(since)
        invariant
            n <= ordered.len(),
            cutoff(ordered@, *since) == n + cutoff(ordered@.skip(n as int), *since),
        decreases ordered.len() - n,
    {
        proof {
            assert(ordered@.skip(n as int).drop_first() =~= ordered@.skip(n + 1));
        }
        n = n + 1;
    }
    n
}

/// A request to prune a feed.
#[derive(Clone, Copy, Debug, PartialEq, Eq)]
pub struct PruneCommand {
    /// The number of entries to keep in the feed.
    pub count: usize,
    /// Whether the entries that leave the feed are dropped rather than archived.
    pub no_reject: bool,
    /// How the entries are ordered and cut.
    pub strategy: PruneStrategy,
    /// The date that [`PruneStrategy::SinceDate`] cuts at; other strategies ignore it.
    pub since_date: Timestamp,
}

/// What a run of a [`PruneCommand`] did to the entries it was given.
#[derive(Clone, Debug, PartialEq, Eq)]
pub enum PruneOutcome {
    /// The feed held no more entries than the count asks for, and was left as it was.
    Untouched,
    /// The feed was cut.
    Pruned {
        /// The entries that left the feed, most recent first.
        rejected: Vec<Entry>,
        /// Whether they are to be written to the reject file.
        archive: bool,
    },
}

impl PruneCommand {
    /// How many of the ordered entries stay. Under
    /// [`PruneStrategy::SinceDate`] these are the admitted entries at the
    /// front, but never more than the count; under the other strategies, the
    /// count.
    pub open spec fn keep_len(self, ordered: Seq<Entry>) -> int {
        match self.strategy {
            PruneStrategy::SinceDate => {
                let admitted = cutoff(ordered, self.since_date);
                if admitted > self.count {
                    self.count as int
                } else {
                    admitted as int
                }
            },
            _ => self.count as int,
        }
    }

    /// The entries that stay in the feed, most recent first.
    pub open spec fn kept(self, entries: Seq<Entry>) -> Seq<Entry> {
        let ordered = newest_first(entries, self.strategy);
        ordered.take(self.keep_len(ordered))
    }

    /// The entries that leave the feed, most recent first.
    pub open spec fn rejected(self, entries: Seq<Entry>) -> Seq<Entry> {
        let ordered = newest_first(entries, self.strategy);
        ordered.skip(self.keep_len(ordered))
    }

    /// Orders the entries most recent first, leaves in `entries` those that
    /// stay and returns those that leave.
    ///
    /// Under the two strategies that keep a plain count, the feed must hold
    /// at least that many entries.
    pub fn truncate_returning_rejects(&self, entries: &mut Vec<Entry>) -> (rejected: Vec<Entry>)
        requires
            self.strategy is SinceDate || self.count <= old(entries).len(),
        ensures
            final(entries)@ == self.kept(old(entries)@),
            rejected@ == self.rejected(old(entries)@),
    {
        let sorted = sort_oldest_first(entries, self.strategy);
        let mut ordered = reversed(&sorted);
        proof {
            lemma_oldest_first_len(entries@, self.strategy);
            lemma_cutoff_bounds(ordered@, self.since_date);
        }
        let keep = match self.strategy {
            PruneStrategy::SinceDate => {
                let admitted = count_admitted(&ordered, &self.since_date);
                if admitted > self.count {
                    self.count
                } else {
                    admitted
                }
            },
            _ => self.count,
        };
        let rejected = ordered.split_off(keep);
        *entries = ordered;
        rejected
    }

    /// Prunes the feed unless it already holds no more entries than the count
    /// asks for; in that case nothing is ordered, moved or removed.
    pub fn run(&self, entries: &mut Vec<Entry>) -> (outcome: PruneOutcome)
        ensures
            old(entries).len() <= self.count ==> outcome is Untouched && final(entries)@ == old(
                entries,
            )@,
            old(entries).len() > self.count ==> final(entries)@ == self.kept(old(entries)@) && (
            outcome matches PruneOutcome::Pruned { rejected, archive } && rejected@
                == self.rejected(old(entries)@) && archive == !self.no_reject),
    {
        if entries.len() <= self.count {
            PruneOutcome::Untouched
        } else {
            let rejected = self.truncate_returning_rejects(entries);
            PruneOutcome::Pruned { rejected, archive: !self.no_reject }
        }
    }
}

/// Pruning loses no entry and makes none up: those that stay, followed by
/// those that leave, are the entries of the feed, most recent first.
pub proof fn lemma_nothing_is_lost(command: PruneCommand, entries: Seq<Entry>)
    requires
        command.strategy is SinceDate || command.count <= entries.len(),
    ensures
        command.kept(entries) + command.rejected(entries) == newest_first(
            entries,
            command.strategy,
        ),
        (command.kept(entries) + command.rejected(entries)).to_multiset()
            == entries.to_multiset(),
        command.kept(entries).len() + command.rejected(entries).len() == entries.len(),
{
    let ordered = newest_first(entries, command.strategy);
    lemma_oldest_first_len(entries, command.strategy);
    lemma_same_entries(entries, command.strategy);
    lemma_cutoff_bounds(ordered, command.since_date);
    assert(command.kept(entries) + command.rejected(entries) =~= ordered);
}

/// Never more entries stay than the count allows.
pub proof fn lemma_count_caps(command: PruneCommand, entries: Seq<Entry>)
    requires
        command.strategy is SinceDate || command.count <= entries.len(),
    ensures
        command.kept(entries).len() <= command.count,
        !(command.strategy is SinceDate) ==> command.kept(entries).len() == command.count,
{
    let ordered = newest_first(entries, command.strategy);
    lemma_oldest_first_len(entries, command.strategy);
    lemma_cutoff_bounds(ordered, command.since_date);
}

/// Cutting at a date, every entry that stays was published at or after the
/// date; and unless the count cut in first, no entry that leaves was.
pub proof fn lemma_since_date_parts(command: PruneCommand, entries: Seq<Entry>)
    requires
        command.strategy is SinceDate,
    ensures
        forall|i: int|
            0 <= i < command.kept(entries).len() ==> admitted(
                #[trigger] command.kept(entries)[i],
                command.since_date,
            ),
        cutoff(newest_first(entries, command.strategy), command.since_date) <= command.count
            ==> forall|i: int|
            0 <= i < command.rejected(entries).len() ==> !admitted(
                #[trigger] command.rejected(entries)[i],
                command.since_date,
            ),
{
    let ordered = newest_first(entries, command.strategy);
    let keep = command.keep_len(ordered);
    lemma_cutoff_bounds(ordered, command.since_date);
    lemma_cutoff_parts(entries, command.strategy, command.since_date);
    assert forall|i: int| 0 <= i < command.kept(entries).len() implies admitted(
        #[trigger] command.kept(entries)[i],
        command.since_date,
    ) by {
        assert(command.kept(entries)[i] == ordered[i]);
    }
    if cutoff(ordered, command.since_date) <= command.count {
        assert forall|i: int| 0 <= i < command.rejected(entries).len() implies !admitted(
            #[trigger] command.rejected(entries)[i],
            command.since_date,
        ) by {
            assert(command.rejected(entries)[i] == ordered[keep + i]);
        }
    }
}

} // verus!
