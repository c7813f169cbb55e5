use pirouette::configuration::ConfigRetentionKind;
use pirouette::configuration::default_opts;
use pirouette::configuration::Config;
use pirouette::configuration::ConfigPath;
use pirouette::configuration::ConfigRetention;
use pirouette::current_state::create_target_directory;
use pirouette::current_state::decide_rotation;
use pirouette::current_state::RotationDecision;
use pirouette::current_state::get_newest_directory_entry;
use pirouette::current_state::get_rotation_targets;
use pirouette::current_state::has_target_snapshot_aged_out;
use pirouette::current_state::is_rotation_due;
use pirouette::current_state::newest_entry_index;
use pirouette::current_state::PirouetteTierState;
use pirouette::paths::PathState;
use pirouette::timestamp::Timestamp;
use pirouette::DryRun;
use pirouette::PirouetteDirEntry;
use pirouette::PirouetteRetentionTarget;
use std::time::Duration;
use std::time::SystemTime;
use std::time::UNIX_EPOCH;

fn rotation_timestamp(time: SystemTime) -> Timestamp {
    Timestamp::from_nanos(time.duration_since(UNIX_EPOCH).unwrap().as_nanos())
}

fn rotation_target(period: ConfigRetentionKind, max_count: usize) -> PirouetteRetentionTarget {
    PirouetteRetentionTarget { period, path: String::from("/tmp"), max_count }
}

fn rotation_entry(path: &str, seconds: u64) -> PirouetteDirEntry {
    PirouetteDirEntry { path: String::from(path), timestamp: Timestamp::from_secs(seconds) }
}

fn rotation_periods() -> Vec<(ConfigRetentionKind, u64)> {
    vec![
        (ConfigRetentionKind::Hours, 3600),
        (ConfigRetentionKind::Days, 86400),
        (ConfigRetentionKind::Weeks, 604800),
        (ConfigRetentionKind::Months, 2592000),
        (ConfigRetentionKind::Years, 31536000),
    ]
}

#[test]
fn current_state_test_has_target_snapshot_aged_out() {
    let test_params = rotation_periods();

    for (retention_period, threshold_seconds) in test_params {
        let retention_target = PirouetteRetentionTarget {
            period: retention_period,
            path: String::from("/tmp"),
            max_count: 1,
        };
        let now = SystemTime::now();

        let expired_snapshot = PirouetteDirEntry {
            path: String::from("/tmp/fake"),
            timestamp: rotation_timestamp(now - Duration::from_secs(threshold_seconds)),
        };
        let expired_result = has_target_snapshot_aged_out(
            &retention_target,
            &expired_snapshot,
            rotation_timestamp(now),
        );
        assert!(expired_result);

        let fresh_snapshot = PirouetteDirEntry {
            path: String::from("/tmp/fake"),
            timestamp: rotation_timestamp(now - Duration::from_secs(threshold_seconds - 1)),
        };
        let fresh_result = has_target_snapshot_aged_out(
            &retention_target,
            &fresh_snapshot,
            rotation_timestamp(now),
        );
        assert!(!fresh_result);
    }
}

#[test]
fn check_targets_test_has_target_snapshot_aged_out() {
    let test_params = rotation_periods();

    for (retention_period, threshold_seconds) in test_params {
        assert_eq!(retention_period.age_threshold(), threshold_seconds);
        let retention_target = rotation_target(retention_period, 1);
        let now = SystemTime::now();

        let expired_snapshot = PirouetteDirEntry {
            path: String::from("/tmp/fake"),
            timestamp: rotation_timestamp(now - Duration::from_secs(threshold_seconds)),
        };
        let expired_result = has_target_snapshot_aged_out(
            &retention_target,
            &expired_snapshot,
            rotation_timestamp(now),
        );
        assert!(expired_result);

        let fresh_snapshot = PirouetteDirEntry {
            path: String::from("/tmp/fake"),
            timestamp: rotation_timestamp(now - Duration::from_secs(threshold_seconds - 1)),
        };
        let fresh_result = has_target_snapshot_aged_out(
            &retention_target,
            &fresh_snapshot,
            rotation_timestamp(now),
        );
        assert!(!fresh_result);
    }
}

#[test]
fn age_counts_whole_seconds_only() {
    let target = rotation_target(ConfigRetentionKind::Hours, 1);
    let snapshot = PirouetteDirEntry {
        path: String::from("/tmp/fake"),
        timestamp: Timestamp::from_nanos(500_000_000),
    };
    // 3599.999999999 s old: one nanosecond short of the hour.
    let almost = Timestamp::from_nanos(3_600_499_999_999);
    assert!(!has_target_snapshot_aged_out(&target, &snapshot, almost));
    let exactly = Timestamp::from_nanos(3_600_500_000_000);
    assert!(has_target_snapshot_aged_out(&target, &snapshot, exactly));
}

#[test]
fn empty_tier_is_due_for_every_period() {
    for (period, _) in rotation_periods() {
        let target = rotation_target(period, 3);
        assert!(is_rotation_due(&target, &Vec::new(), Timestamp::from_secs(0)));
        assert!(is_rotation_due(&target, &Vec::new(), Timestamp::from_secs(1_700_000_000)));
    }
}

#[test]
fn threshold_is_inclusive_for_every_period() {
    for (period, threshold) in rotation_periods() {
        let target = rotation_target(period, 3);
        let entries = vec![rotation_entry("/tmp/days/a", 1_000)];
        assert!(is_rotation_due(&target, &entries, Timestamp::from_secs(1_000 + threshold)));
        assert!(!is_rotation_due(&target, &entries, Timestamp::from_secs(1_000 + threshold - 1)));
    }
}

#[test]
fn future_snapshot_is_never_due() {
    for (period, threshold) in rotation_periods() {
        let target = rotation_target(period, 3);
        let entries = vec![
            rotation_entry("/tmp/days/old", 0),
            rotation_entry("/tmp/days/future", 10 * threshold),
        ];
        let now = Timestamp::from_secs(5 * threshold);
        assert!(!is_rotation_due(&target, &entries, now));
        assert!(!has_target_snapshot_aged_out(&target, &entries[1], now));
    }
}

#[test]
fn newest_entry_decides() {
    let target = rotation_target(ConfigRetentionKind::Days, 3);
    let entries = vec![
        rotation_entry("/tmp/days/a", 100),
        rotation_entry("/tmp/days/c", 300),
        rotation_entry("/tmp/days/b", 200),
    ];
    assert_eq!(newest_entry_index(&entries), Some(1));
    assert_eq!(get_newest_directory_entry(&entries), Some(rotation_entry("/tmp/days/c", 300)));
    assert!(!is_rotation_due(&target, &entries, Timestamp::from_secs(300 + 86_399)));
    assert!(is_rotation_due(&target, &entries, Timestamp::from_secs(300 + 86_400)));
}

#[test]
fn newest_of_equal_entries_is_the_last() {
    let entries = vec![
        rotation_entry("/tmp/days/a", 300),
        rotation_entry("/tmp/days/b", 100),
        rotation_entry("/tmp/days/c", 300),
    ];
    assert_eq!(newest_entry_index(&entries), Some(2));
    assert_eq!(get_newest_directory_entry(&entries), Some(rotation_entry("/tmp/days/c", 300)));
    assert_eq!(newest_entry_index(&Vec::new()), None);
    assert_eq!(get_newest_directory_entry(&Vec::new()), None);
}

#[test]
fn entry_without_a_time_counts_as_oldest() {
    let unknown = PirouetteDirEntry::new(String::from("/tmp/days/unknown"), None);
    assert_eq!(unknown.timestamp, Timestamp::epoch());
    assert_eq!(unknown.timestamp, Timestamp::from_nanos(0));
    let known = PirouetteDirEntry::new(
        String::from("/tmp/days/known"),
        Some(Timestamp::from_secs(7)),
    );
    assert_eq!(known, rotation_entry("/tmp/days/known", 7));
    let target = rotation_target(ConfigRetentionKind::Hours, 3);
    assert!(is_rotation_due(&target, &vec![unknown], Timestamp::from_secs(3_600)));
}

#[test]
fn rotation_targets_are_the_due_tiers_in_order() {
    let now = Timestamp::from_secs(1_000_000);
    let states = vec![
        PirouetteTierState {
            target: rotation_target(ConfigRetentionKind::Hours, 1),
            entries: vec![rotation_entry("/tmp/hours/a", 1_000_000 - 3_600)],
        },
        PirouetteTierState {
            target: rotation_target(ConfigRetentionKind::Days, 2),
            entries: vec![rotation_entry("/tmp/days/a", 1_000_000 - 3_600)],
        },
        PirouetteTierState {
            target: rotation_target(ConfigRetentionKind::Weeks, 3),
            entries: vec![],
        },
        PirouetteTierState {
            target: rotation_target(ConfigRetentionKind::Months, 4),
            entries: vec![rotation_entry("/tmp/months/a", 2_000_000)],
        },
    ];
    let targets = get_rotation_targets(&states, now);
    let periods: Vec<ConfigRetentionKind> = targets.iter().map(|target| target.period).collect();
    assert_eq!(periods, vec![ConfigRetentionKind::Hours, ConfigRetentionKind::Weeks]);
    assert_eq!(targets[0].max_count, 1);
    assert_eq!(targets[1].max_count, 3);
    assert_eq!(targets[1].path, "/tmp");
    assert!(get_rotation_targets(&Vec::new(), now).is_empty());
}

#[test]
fn tier_directory_is_created_unless_dry_run() {
    let mut config = Config {
        source: ConfigPath { path: String::from("/src") },
        target: ConfigPath { path: String::from("/dst") },
        retention: ConfigRetention::new(),
        options: default_opts(),
    };
    assert_eq!(create_target_directory(&config, PathState::Missing), Some(DryRun::Perform));
    assert_eq!(create_target_directory(&config, PathState::Directory), None);
    assert_eq!(create_target_directory(&config, PathState::File), None);
    assert_eq!(create_target_directory(&config, PathState::Other), None);
    config.options.dry_run = true;
    assert_eq!(create_target_directory(&config, PathState::Missing), Some(DryRun::Skip));
    assert_eq!(create_target_directory(&config, PathState::Directory), None);
}

#[test]
fn check_tells_why_a_tier_is_due_or_not() {
    let target = rotation_target(ConfigRetentionKind::Days, 3);
    let entries = vec![rotation_entry("/tmp/days/a", 100), rotation_entry("/tmp/days/b", 200)];
    let at = |seconds| Timestamp::from_secs(seconds);
    assert_eq!(decide_rotation(&target, &Vec::new(), at(0)), RotationDecision::Empty);
    assert_eq!(decide_rotation(&target, &entries, at(199)), RotationDecision::ClockSkew);
    assert_eq!(decide_rotation(&target, &entries, at(200)), RotationDecision::Fresh);
    assert_eq!(decide_rotation(&target, &entries, at(200 + 86_399)), RotationDecision::Fresh);
    assert_eq!(decide_rotation(&target, &entries, at(200 + 86_400)), RotationDecision::AgedOut);
    for decision in [RotationDecision::Empty, RotationDecision::AgedOut] {
        assert!(decision.due());
    }
    for decision in [RotationDecision::Fresh, RotationDecision::ClockSkew] {
        assert!(!decision.due());
    }
    for seconds in [0, 199, 200, 86_599, 86_600, 1_000_000] {
        assert_eq!(
            decide_rotation(&target, &entries, at(seconds)).due(),
            is_rotation_due(&target, &entries, at(seconds))
        );
    }
}
