use kaboom::timestamp::{rank_of, Timestamp};

fn at(secs: i64, nanos: u32) -> Timestamp {
    Timestamp { secs, nanos, offset: 0 }
}

#[test]
fn instants_are_ordered_by_seconds_then_nanoseconds() {
    assert!(at(5, 0).is_at_or_after(&at(5, 0)));
    assert!(at(5, 1).is_at_or_after(&at(5, 0)));
    assert!(!at(5, 0).is_at_or_after(&at(5, 1)));
    assert!(at(6, 0).is_at_or_after(&at(5, 999_999_999)));
    assert!(!at(-6, 999_999_999).is_at_or_after(&at(-5, 0)));
}

#[test]
fn a_leap_second_comes_before_the_next_second() {
    let leap = at(59, 1_500_000_000);
    assert!(leap.is_at_or_after(&at(59, 999_999_999)));
    assert!(at(60, 0).is_at_or_after(&leap));
    assert!(!leap.is_at_or_after(&at(60, 0)));
    assert!(rank_of(&Some(leap)) < rank_of(&Some(at(60, 0))));
}

#[test]
fn the_clock_plays_no_part_in_the_order() {
    let east = Timestamp { secs: 100, nanos: 0, offset: 7_200 };
    let west = Timestamp { secs: 100, nanos: 0, offset: -7_200 };
    assert!(east.is_at_or_after(&west));
    assert!(west.is_at_or_after(&east));
    assert_eq!(rank_of(&Some(east)), rank_of(&Some(west)));
}

#[test]
fn ranks_are_exact() {
    assert_eq!(rank_of(&Some(at(0, 0))), 0);
    assert_eq!(rank_of(&Some(at(1, 2))), 4_294_967_298);
    assert_eq!(rank_of(&Some(at(-1, 0))), -4_294_967_296);
    assert_eq!(rank_of(&Some(at(i64::MAX, u32::MAX))), 39_614_081_257_132_168_796_771_975_167);
    assert_eq!(rank_of(&Some(at(i64::MIN, 0))), -39_614_081_257_132_168_796_771_975_168);
    assert_eq!(rank_of(&None), -39_614_081_257_132_168_796_771_975_169);
}

#[test]
fn a_missing_instant_ranks_below_all() {
    assert!(rank_of(&None) < rank_of(&Some(at(i64::MIN, 0))));
}
