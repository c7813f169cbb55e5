use pirouette::paths::ends_with_separator;
use pirouette::paths::is_component;
use pirouette::paths::join;
use pirouette::paths::relative_to;
use pirouette::paths::PathState;
use pirouette::text::equal;
use pirouette::timestamp::Timestamp;
use pirouette::timestamp::NANOS_PER_SECOND;

#[test]
fn timestamps_count_nanoseconds_from_the_epoch() {
    assert_eq!(NANOS_PER_SECOND, 1_000_000_000);
    assert_eq!(Timestamp::epoch().nanos, 0);
    assert_eq!(Timestamp::from_nanos(17).nanos, 17);
    assert_eq!(Timestamp::from_secs(0), Timestamp::epoch());
    assert_eq!(Timestamp::from_secs(3).nanos, 3_000_000_000);
    assert_eq!(Timestamp::from_secs(u64::MAX).nanos, 18_446_744_073_709_551_615_000_000_000);
}

#[test]
fn age_is_counted_in_whole_seconds() {
    let earlier = Timestamp::from_nanos(1_500_000_000);
    assert_eq!(earlier.seconds_since(&earlier), Some(0));
    assert_eq!(Timestamp::from_nanos(2_499_999_999).seconds_since(&earlier), Some(0));
    assert_eq!(Timestamp::from_nanos(2_500_000_000).seconds_since(&earlier), Some(1));
    assert_eq!(Timestamp::from_secs(3_601).seconds_since(&Timestamp::from_secs(1)), Some(3_600));
    assert_eq!(
        Timestamp::from_nanos(u128::MAX).seconds_since(&Timestamp::epoch()),
        Some(u128::MAX / 1_000_000_000)
    );
}

#[test]
fn what_lies_ahead_has_no_age() {
    let now = Timestamp::from_secs(100);
    assert_eq!(now.seconds_since(&Timestamp::from_nanos(100_000_000_001)), None);
    assert_eq!(now.seconds_since(&Timestamp::from_secs(101)), None);
    assert_eq!(Timestamp::epoch().seconds_since(&Timestamp::from_nanos(1)), None);
}

#[test]
fn texts_are_equal_character_by_character() {
    assert!(equal("", ""));
    assert!(equal("days", "days"));
    assert!(equal("täge", "täge"));
    assert!(!equal("days", "day"));
    assert!(!equal("day", "days"));
    assert!(!equal("days", "dayz"));
    assert!(!equal("", "x"));
    assert!(!equal("Days", "days"));
}

#[test]
fn components_hold_no_separator() {
    assert!(is_component("days"));
    assert!(is_component("2023-11-14T22:13.tgz"));
    assert!(is_component(".."));
    assert!(!is_component(""));
    assert!(!is_component("/"));
    assert!(!is_component("a/b"));
    assert!(!is_component("/days"));
    assert!(!is_component("days/"));
    assert!(ends_with_separator("days/"));
    assert!(ends_with_separator("/"));
    assert!(!ends_with_separator("days"));
    assert!(!ends_with_separator(""));
    assert!(!ends_with_separator("/days"));
}

#[test]
fn component_lies_in_the_directory_it_is_joined_to() {
    for directory in ["/backup", "/backup/", "backup/days", "", "/"] {
        for name in ["hours", "days", "weeks", "months", "years", "2023-11-14T22:13.tgz"] {
            assert_eq!(relative_to(&join(directory, name), directory), Some(String::from(name)));
        }
    }
}

#[test]
fn path_is_a_directory_a_file_something_else_or_missing() {
    assert_eq!(PathState::of(true, false, true), PathState::Directory);
    assert_eq!(PathState::of(false, true, true), PathState::File);
    assert_eq!(PathState::of(false, false, true), PathState::Other);
    assert_eq!(PathState::of(false, false, false), PathState::Missing);
    assert_eq!(PathState::of(true, true, false), PathState::Directory);
}
