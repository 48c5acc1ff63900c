use kaboom::prune_command::{Entry, PruneCommand, PruneOutcome, PruneStrategy};
use kaboom::timestamp::Timestamp;

const Y2019: i64 = 1_546_300_800;
const Y2020: i64 = 1_577_836_800;
const Y2021: i64 = 1_609_459_200;
const Y2022: i64 = 1_640_995_200;
const Y2023: i64 = 1_672_531_200;

fn at(secs: i64) -> Option<Timestamp> {
    Some(Timestamp { secs, nanos: 0, offset: 0 })
}

fn published(dates: &[i64]) -> Vec<Entry> {
    dates
        .iter()
        .enumerate()
        .map(|(slot, secs)| Entry { slot, published: at(*secs), updated: None })
        .collect()
}

fn command(count: usize, strategy: PruneStrategy, since: i64) -> PruneCommand {
    PruneCommand { count, no_reject: false, strategy, since_date: Timestamp { secs: since, nanos: 0, offset: 0 } }
}

fn dates(entries: &[Entry]) -> Vec<Option<Timestamp>> {
    entries.iter().map(|e| e.published).collect()
}

fn slots(entries: &[Entry]) -> Vec<usize> {
    entries.iter().map(|e| e.slot).collect()
}

#[test]
fn recently_published_keeps_the_newest() {
    let mut entries = published(&[Y2020, Y2021, Y2022, Y2023]);
    let rejected = command(2, PruneStrategy::RecentlyPublished, 0)
        .truncate_returning_rejects(&mut entries);
    assert_eq!(dates(&entries), vec![at(Y2023), at(Y2022)]);
    assert_eq!(dates(&rejected), vec![at(Y2021), at(Y2020)]);
    assert_eq!(slots(&entries), vec![3, 2]);
    assert_eq!(slots(&rejected), vec![1, 0]);
}

#[test]
fn since_date_keeps_what_the_date_admits() {
    let mut entries = published(&[Y2019, Y2021, Y2023]);
    let rejected =
        command(5, PruneStrategy::SinceDate, Y2020).truncate_returning_rejects(&mut entries);
    assert_eq!(dates(&entries), vec![at(Y2023), at(Y2021)]);
    assert_eq!(dates(&rejected), vec![at(Y2019)]);
}

#[test]
fn since_date_is_capped_by_the_count() {
    let mut entries = published(&[Y2019, Y2021, Y2023]);
    let rejected =
        command(1, PruneStrategy::SinceDate, Y2020).truncate_returning_rejects(&mut entries);
    assert_eq!(dates(&entries), vec![at(Y2023)]);
    assert_eq!(dates(&rejected), vec![at(Y2021), at(Y2019)]);
}

#[test]
fn since_date_admits_the_date_itself() {
    let mut entries = published(&[Y2020, Y2019]);
    let rejected =
        command(5, PruneStrategy::SinceDate, Y2020).truncate_returning_rejects(&mut entries);
    assert_eq!(dates(&entries), vec![at(Y2020)]);
    assert_eq!(dates(&rejected), vec![at(Y2019)]);
}

#[test]
fn since_date_may_keep_nothing() {
    let mut entries = published(&[Y2019, Y2020]);
    let rejected =
        command(5, PruneStrategy::SinceDate, Y2023).truncate_returning_rejects(&mut entries);
    assert!(entries.is_empty());
    assert_eq!(dates(&rejected), vec![at(Y2020), at(Y2019)]);
}

#[test]
fn recently_updated_orders_by_the_update_date() {
    let mut entries = vec![
        Entry { slot: 0, published: at(Y2023), updated: at(Y2019) },
        Entry { slot: 1, published: at(Y2019), updated: at(Y2023) },
        Entry { slot: 2, published: at(Y2021), updated: at(Y2021) },
    ];
    let rejected = command(1, PruneStrategy::RecentlyUpdated, 0)
        .truncate_returning_rejects(&mut entries);
    assert_eq!(slots(&entries), vec![1]);
    assert_eq!(slots(&rejected), vec![2, 0]);
}

#[test]
fn undated_entries_are_the_oldest() {
    let mut entries = vec![
        Entry { slot: 0, published: None, updated: None },
        Entry { slot: 1, published: at(-5), updated: None },
        Entry { slot: 2, published: at(Y2021), updated: None },
    ];
    let rejected = command(2, PruneStrategy::RecentlyPublished, 0)
        .truncate_returning_rejects(&mut entries);
    assert_eq!(slots(&entries), vec![2, 1]);
    assert_eq!(slots(&rejected), vec![0]);
}

#[test]
fn entries_of_one_date_come_out_last_first() {
    let mut entries = published(&[Y2021, Y2020, Y2021, Y2020, Y2021]);
    let rejected = command(2, PruneStrategy::RecentlyPublished, 0)
        .truncate_returning_rejects(&mut entries);
    assert_eq!(slots(&entries), vec![4, 2]);
    assert_eq!(slots(&rejected), vec![0, 3, 1]);
}

#[test]
fn nanoseconds_break_a_tie_of_seconds() {
    let mut entries = vec![
        Entry { slot: 0, published: Some(Timestamp { secs: 10, nanos: 2, offset: 0 }), updated: None },
        Entry { slot: 1, published: Some(Timestamp { secs: 10, nanos: 7, offset: 3600 }), updated: None },
        Entry { slot: 2, published: Some(Timestamp { secs: 9, nanos: 999_999_999, offset: -3600 }), updated: None },
    ];
    let rejected = command(1, PruneStrategy::RecentlyPublished, 0)
        .truncate_returning_rejects(&mut entries);
    assert_eq!(slots(&entries), vec![1]);
    assert_eq!(slots(&rejected), vec![0, 2]);
}

#[test]
fn a_count_of_zero_rejects_everything() {
    let mut entries = published(&[Y2020, Y2021]);
    let rejected = command(0, PruneStrategy::RecentlyPublished, 0)
        .truncate_returning_rejects(&mut entries);
    assert!(entries.is_empty());
    assert_eq!(slots(&rejected), vec![1, 0]);
}

#[test]
fn run_leaves_a_short_feed_alone() {
    let before = published(&[Y2021, Y2023, Y2020]);
    for count in [3usize, 4, 100] {
        for strategy in [
            PruneStrategy::RecentlyPublished,
            PruneStrategy::RecentlyUpdated,
            PruneStrategy::SinceDate,
        ] {
            let mut entries = before.clone();
            let outcome = command(count, strategy, Y2022).run(&mut entries);
            assert_eq!(outcome, PruneOutcome::Untouched);
            assert_eq!(entries, before);
        }
    }
}

#[test]
fn run_prunes_a_long_feed() {
    let mut entries = published(&[Y2020, Y2021, Y2022, Y2023]);
    let outcome = command(2, PruneStrategy::RecentlyPublished, 0).run(&mut entries);
    assert_eq!(slots(&entries), vec![3, 2]);
    match outcome {
        PruneOutcome::Pruned { rejected, archive } => {
            assert_eq!(slots(&rejected), vec![1, 0]);
            assert!(archive);
        }
        PruneOutcome::Untouched => panic!("a feed of four entries was left alone"),
    }
}

#[test]
fn run_does_not_archive_when_told_not_to() {
    let mut entries = published(&[Y2020, Y2021]);
    let mut cmd = command(1, PruneStrategy::RecentlyPublished, 0);
    cmd.no_reject = true;
    match cmd.run(&mut entries) {
        PruneOutcome::Pruned { archive, .. } => assert!(!archive),
        PruneOutcome::Untouched => panic!("a feed of two entries was left alone"),
    }
}

#[test]
fn strategies_have_names() {
    assert_eq!(PruneStrategy::from_str("published"), Ok(PruneStrategy::RecentlyPublished));
    assert_eq!(PruneStrategy::from_str("updated"), Ok(PruneStrategy::RecentlyUpdated));
    assert_eq!(PruneStrategy::from_str("since-date"), Ok(PruneStrategy::SinceDate));
    assert_eq!(PruneStrategy::from_str("Published"), Err("unknown pruning strategy"));
    assert_eq!(PruneStrategy::from_str(""), Err("unknown pruning strategy"));
}

#[test]
fn the_default_strategy_is_by_publication() {
    assert_eq!(PruneStrategy::default(), PruneStrategy::RecentlyPublished);
}

#[test]
fn nothing_is_lost_and_nothing_made_up() {
    let before = vec![
        Entry { slot: 0, published: at(Y2021), updated: at(Y2023) },
        Entry { slot: 1, published: None, updated: at(Y2020) },
        Entry { slot: 2, published: at(Y2021), updated: None },
        Entry { slot: 3, published: at(Y2019), updated: at(Y2023) },
        Entry { slot: 4, published: at(Y2022), updated: at(Y2019) },
    ];
    for strategy in [
        PruneStrategy::RecentlyPublished,
        PruneStrategy::RecentlyUpdated,
        PruneStrategy::SinceDate,
    ] {
        for count in 0..=5usize {
            let mut kept = before.clone();
            let mut rejected =
                command(count, strategy, Y2020).truncate_returning_rejects(&mut kept);
            assert!(kept.len() <= count);
            let mut all = kept.clone();
            all.append(&mut rejected);
            let mut found = slots(&all);
            found.sort();
            assert_eq!(found, vec![0, 1, 2, 3, 4]);
        }
    }
    let mut by_update = before.clone();
    let rejected = command(5, PruneStrategy::RecentlyUpdated, 0)
        .truncate_returning_rejects(&mut by_update);
    assert!(rejected.is_empty());
    assert_eq!(slots(&by_update), vec![3, 0, 1, 4, 2]);
}
