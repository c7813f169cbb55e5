use pirouette::configuration::default_opts;
use pirouette::configuration::Config;
use pirouette::configuration::ConfigOptsOutputFormat;
use pirouette::configuration::ConfigPath;
use pirouette::configuration::ConfigRetention;
use pirouette::configuration::ConfigRetentionKind;
use pirouette::paths::is_absolute;
use pirouette::paths::join;
use pirouette::paths::relative_to;
use pirouette::pattern::glob_excludes;
use pirouette::pattern::glob_includes;
use pirouette::pattern::GlobPattern;
use pirouette::snapshot::copy_snapshot;
use pirouette::snapshot::filter_source_contents;
use pirouette::snapshot::format_inner_entry_path;
use pirouette::snapshot::format_snapshot_path;
use pirouette::snapshot::format_target_entry_path;
use pirouette::snapshot::get_source_contents;
use pirouette::snapshot::is_source_content;
use pirouette::snapshot::snapshot_stamp;
use pirouette::snapshot::SnapshotError;
use pirouette::snapshot::SnapshotFile;
use pirouette::snapshot::SourceEntryKind;
use pirouette::snapshot::WalkEntry;
use pirouette::timestamp::Timestamp;
use pirouette::DryRun;
use pirouette::PirouetteDirEntry;
use pirouette::PirouetteRetentionTarget;

fn create_test_entries(paths: Vec<&str>) -> Vec<PirouetteDirEntry> {
    let mut entries = vec![];
    for path in paths {
        entries.push(PirouetteDirEntry {
            path: String::from(path),
            timestamp: Timestamp::epoch(),
        });
    }
    entries
}

fn snapshot_patterns(texts: &[&str]) -> Vec<GlobPattern> {
    texts.iter().map(|text| GlobPattern::new(text).unwrap()).collect()
}

fn snapshot_config(includes: &[&str], excludes: &[&str]) -> Config {
    let mut options = default_opts();
    options.include_patterns = snapshot_patterns(includes);
    options.exclude_patterns = snapshot_patterns(excludes);
    Config {
        source: ConfigPath { path: String::from("/data/source") },
        target: ConfigPath { path: String::from("/backup") },
        retention: ConfigRetention::new(),
        options,
    }
}

fn snapshot_target() -> PirouetteRetentionTarget {
    PirouetteRetentionTarget {
        period: ConfigRetentionKind::Days,
        path: String::from("/backup/days"),
        max_count: 3,
    }
}

fn snapshot_file(source: &str, inner_path: &str) -> SnapshotFile {
    SnapshotFile { source: String::from(source), inner_path: String::from(inner_path) }
}

#[test]
fn test_glob_with_filters() {
    let test_data = create_test_entries(vec!["a/foo", "b/bar", "c", "d/baz"]).into_iter();

    let include_patterns = vec![
        GlobPattern::new("a/*").unwrap(),
        GlobPattern::new("b/*").unwrap(),
        GlobPattern::new("c").unwrap(),
    ];

    let exclude_patterns: Vec<GlobPattern> =
        vec![GlobPattern::new("b/*").unwrap(), GlobPattern::new("d/*").unwrap()];

    let expected_data: Vec<PirouetteDirEntry> =
        create_test_entries(vec!["a/foo", "c"]).into_iter().collect();

    let result_data: Vec<PirouetteDirEntry> = test_data
        .filter(|entry| glob_includes(&entry.path, &include_patterns))
        .filter(|entry| glob_excludes(&entry.path, &exclude_patterns))
        .collect();

    assert_eq!(result_data, expected_data);
}

#[test]
fn test_glob_empty_filters() {
    let test_data = create_test_entries(vec!["a/foo", "b/bar", "c", "d/baz"]).into_iter();

    let include_patterns = vec![];

    let exclude_patterns: Vec<GlobPattern> = vec![];

    let expected_data: Vec<PirouetteDirEntry> =
        create_test_entries(vec!["a/foo", "b/bar", "c", "d/baz"]).into_iter().collect();

    let result_data: Vec<PirouetteDirEntry> = test_data
        .filter(|entry| glob_includes(&entry.path, &include_patterns))
        .filter(|entry| glob_excludes(&entry.path, &exclude_patterns))
        .collect();

    assert_eq!(result_data, expected_data);
}

#[test]
fn pattern_is_compiled_by_the_glob_rules() {
    assert!(GlobPattern::new("a/*").is_some());
    assert!(GlobPattern::new("**/*.txt").is_some());
    assert!(GlobPattern::new("[a-c]?").is_some());
    assert!(GlobPattern::new("").is_some());
    // Three stars, a recursive wildcard inside a component, an open bracket.
    assert!(GlobPattern::new("a/***").is_none());
    assert!(GlobPattern::new("a**b").is_none());
    assert!(GlobPattern::new("[").is_none());
    assert_eq!(GlobPattern::new("a/*").unwrap().as_str(), "a/*");
}

#[test]
fn pattern_matches_by_the_glob_rules() {
    let star = GlobPattern::new("a/*").unwrap();
    assert!(star.matches("a/foo"));
    assert!(star.matches("a/foo/bar"));
    assert!(!star.matches("b/foo"));
    assert!(!star.matches("a"));
    let literal = GlobPattern::new("c").unwrap();
    assert!(literal.matches("c"));
    assert!(!literal.matches("cc"));
    // A pattern is no part of what it matches.
    assert!(!star.matches("a/*x") || star.matches("a/y"));
    assert!(!GlobPattern::new("x?z").unwrap().matches("x?"));
    assert!(GlobPattern::new("x?z").unwrap().matches("xyz"));
    assert!(GlobPattern::new("**/*.txt").unwrap().matches("deep/down/file.txt"));
    assert!(GlobPattern::new("[!a]b").unwrap().matches("cb"));
    assert!(!GlobPattern::new("[!a]b").unwrap().matches("ab"));
}

#[test]
fn exclusion_takes_precedence() {
    let both = snapshot_patterns(&["b/*"]);
    assert!(glob_includes("b/bar", &both));
    assert!(!glob_excludes("b/bar", &both));
    assert!(glob_excludes("a/foo", &both));
    assert!(!glob_includes("a/foo", &both));
}

#[test]
fn paths_are_joined_with_one_separator() {
    assert_eq!(join("/backup", "days"), "/backup/days");
    assert_eq!(join("/backup/", "days"), "/backup/days");
    assert_eq!(join("", "days"), "days");
    assert_eq!(join("backup", ""), "backup/");
    assert_eq!(join("/backup", "/elsewhere"), "/elsewhere");
    assert_eq!(join("/", "days"), "/days");
    assert_eq!(join("/bäckup", "täge"), "/bäckup/täge");
    assert!(is_absolute("/backup"));
    assert!(!is_absolute("backup"));
    assert!(!is_absolute(""));
}

#[test]
fn paths_are_seen_from_a_root() {
    assert_eq!(
        relative_to("/path/to/source/foo/bar.txt", "/path/to/source"),
        Some(String::from("foo/bar.txt"))
    );
    assert_eq!(relative_to("/src/a", "/src/"), Some(String::from("a")));
    assert_eq!(relative_to("/src//a", "/src"), Some(String::from("a")));
    assert_eq!(relative_to("/src", "/src"), Some(String::new()));
    assert_eq!(relative_to("/src/", "/src"), Some(String::new()));
    assert_eq!(relative_to("a/b", ""), Some(String::from("a/b")));
    assert_eq!(relative_to("./data/ä/ö.txt", "./data"), Some(String::from("ä/ö.txt")));
    // Not under the root: another tree, a longer name, a shorter path.
    assert_eq!(relative_to("/other/a", "/src"), None);
    assert_eq!(relative_to("/srcfoo", "/src"), None);
    assert_eq!(relative_to("/sr", "/src"), None);
    assert_eq!(relative_to("", "/src"), None);
}

#[test]
fn joined_path_is_seen_again_from_its_root() {
    for root in ["/snap", "/snap/", "", "snap/2024-01-01T00:00"] {
        for inner in ["a", "a/b.txt", "", "ä/ö"] {
            assert_eq!(relative_to(&join(root, inner), root), Some(String::from(inner)));
        }
    }
}

#[test]
fn snapshot_is_named_after_the_local_minute() {
    assert_eq!(snapshot_stamp(Timestamp::from_secs(0), 0), Some(String::from("1970-01-01T00:00")));
    assert_eq!(
        snapshot_stamp(Timestamp::from_secs(1_700_000_000), 0),
        Some(String::from("2023-11-14T22:13"))
    );
    // The seconds, and what is less, do not show.
    assert_eq!(
        snapshot_stamp(Timestamp::from_nanos(1_700_000_039_999_999_999), 0),
        Some(String::from("2023-11-14T22:13"))
    );
    assert_eq!(
        snapshot_stamp(Timestamp::from_secs(1_700_000_040), 0),
        Some(String::from("2023-11-14T22:14"))
    );
    // Two hours east, and five and a half hours west.
    assert_eq!(
        snapshot_stamp(Timestamp::from_secs(1_700_000_000), 7_200),
        Some(String::from("2023-11-15T00:13"))
    );
    assert_eq!(
        snapshot_stamp(Timestamp::from_secs(1_700_000_000), -19_800),
        Some(String::from("2023-11-14T16:43"))
    );
}

#[test]
fn time_out_of_range_has_no_name() {
    assert_eq!(snapshot_stamp(Timestamp::from_secs(u64::MAX), 0), None);
    assert_eq!(snapshot_stamp(Timestamp::from_secs(i64::MAX as u64), i32::MAX), None);
    assert_eq!(snapshot_stamp(Timestamp::from_secs(i64::MAX as u64 + 1), i32::MIN), None);
    // The last second of the last year that can be written, and the next.
    assert_eq!(
        snapshot_stamp(Timestamp::from_secs(8_210_266_876_799), 0),
        Some(String::from("+262142-12-31T23:59"))
    );
    assert_eq!(snapshot_stamp(Timestamp::from_secs(8_210_266_876_800), 0), None);
    // Before 1970 on a clock behind UTC.
    assert_eq!(
        snapshot_stamp(Timestamp::from_secs(0), -3_600),
        Some(String::from("1969-12-31T23:00"))
    );
    assert_eq!(snapshot_stamp(Timestamp::from_nanos(u128::MAX), 0), None);
    let config = snapshot_config(&[], &[]);
    let planned = copy_snapshot(
        &config,
        &snapshot_target(),
        Timestamp::from_secs(u64::MAX),
        0,
        &Vec::new(),
    );
    assert_eq!(planned.err(), Some(SnapshotError::TimeOutOfRange));
}

#[test]
fn snapshot_path_depends_on_the_format() {
    let target = snapshot_target();
    assert_eq!(
        format_snapshot_path(&target, &ConfigOptsOutputFormat::Directory, "2023-11-14T22:13"),
        "/backup/days/2023-11-14T22:13"
    );
    assert_eq!(
        format_snapshot_path(&target, &ConfigOptsOutputFormat::Tarball, "2023-11-14T22:13"),
        "/backup/days/2023-11-14T22:13.tgz"
    );
    assert_eq!(
        format_target_entry_path("/backup/days/2023-11-14T22:13", "foo/bar.txt"),
        "/backup/days/2023-11-14T22:13/foo/bar.txt"
    );
}

#[test]
fn inner_path_is_the_path_inside_the_source() {
    let config = snapshot_config(&[], &[]);
    let inside = create_test_entries(vec!["/data/source/foo/bar.txt"]);
    assert_eq!(format_inner_entry_path(&config, &inside[0]), Some(String::from("foo/bar.txt")));
    let outside = create_test_entries(vec!["/data/elsewhere/bar.txt"]);
    assert_eq!(format_inner_entry_path(&config, &outside[0]), None);
}

#[test]
fn entries_are_told_apart_by_what_they_are() {
    assert_eq!(SourceEntryKind::of(true, false, false), SourceEntryKind::File);
    assert_eq!(SourceEntryKind::of(false, true, false), SourceEntryKind::Symlink);
    assert_eq!(SourceEntryKind::of(false, false, true), SourceEntryKind::Directory);
    assert_eq!(SourceEntryKind::of(false, false, false), SourceEntryKind::Other);
    assert_eq!(SourceEntryKind::of(true, true, true), SourceEntryKind::File);
    assert_eq!(SourceEntryKind::of(false, true, true), SourceEntryKind::Symlink);
}

#[test]
fn only_files_and_links_are_content() {
    assert!(is_source_content(SourceEntryKind::File));
    assert!(is_source_content(SourceEntryKind::Symlink));
    assert!(!is_source_content(SourceEntryKind::Directory));
    assert!(!is_source_content(SourceEntryKind::Other));
}

#[test]
fn walk_gives_its_files_and_links_as_contents() {
    let found = |path: &str, kind, modified| WalkEntry { path: String::from(path), kind, modified };
    let walk = vec![
        found("/data/source", SourceEntryKind::Directory, Some(Timestamp::from_secs(9))),
        found("/data/source/a", SourceEntryKind::File, Some(Timestamp::from_secs(5))),
        found("/data/source/sub", SourceEntryKind::Directory, None),
        found("/data/source/sub/link", SourceEntryKind::Symlink, None),
        found("/data/source/sub/pipe", SourceEntryKind::Other, Some(Timestamp::from_secs(7))),
        found("/data/source/sub/b", SourceEntryKind::File, Some(Timestamp::from_secs(6))),
    ];
    let contents = get_source_contents(&walk);
    assert_eq!(
        contents,
        vec![
            PirouetteDirEntry {
                path: String::from("/data/source/a"),
                timestamp: Timestamp::from_secs(5),
            },
            PirouetteDirEntry {
                path: String::from("/data/source/sub/link"),
                timestamp: Timestamp::epoch(),
            },
            PirouetteDirEntry {
                path: String::from("/data/source/sub/b"),
                timestamp: Timestamp::from_secs(6),
            },
        ]
    );
    assert!(get_source_contents(&Vec::new()).is_empty());
}

#[test]
fn snapshot_holds_what_the_filters_let_through() {
    let config = snapshot_config(&["a/*", "b/*", "c"], &["b/*", "d/*"]);
    let walk = create_test_entries(vec![
        "/data/source/a/foo",
        "/data/source/b/bar",
        "/data/source/c",
        "/data/source/d/baz",
    ]);
    let files = filter_source_contents(&config, &walk).unwrap();
    assert_eq!(
        files,
        vec![snapshot_file("/data/source/a/foo", "a/foo"), snapshot_file("/data/source/c", "c")]
    );
}

#[test]
fn snapshot_without_filters_holds_everything() {
    let config = snapshot_config(&[], &[]);
    let walk = create_test_entries(vec![
        "/data/source/a/foo",
        "/data/source/b/bar",
        "/data/source/c",
        "/data/source/d/baz",
    ]);
    let files = filter_source_contents(&config, &walk).unwrap();
    assert_eq!(
        files,
        vec![
            snapshot_file("/data/source/a/foo", "a/foo"),
            snapshot_file("/data/source/b/bar", "b/bar"),
            snapshot_file("/data/source/c", "c"),
            snapshot_file("/data/source/d/baz", "d/baz"),
        ]
    );
    assert_eq!(filter_source_contents(&config, &Vec::new()).unwrap(), vec![]);
}

#[test]
fn entry_outside_the_source_fails_the_snapshot() {
    let config = snapshot_config(&[], &[]);
    let walk = create_test_entries(vec![
        "/data/source/a",
        "/data/other/b",
        "/data/source/c",
        "/elsewhere",
    ]);
    assert_eq!(
        filter_source_contents(&config, &walk),
        Err(SnapshotError::OutsideSource(String::from("/data/other/b")))
    );
    let planned = copy_snapshot(&config, &snapshot_target(), Timestamp::from_secs(0), 0, &walk);
    assert_eq!(planned.err(), Some(SnapshotError::OutsideSource(String::from("/data/other/b"))));
}

#[test]
fn directory_snapshot_is_planned_in_place() {
    let config = snapshot_config(&["*.txt"], &["secret*"]);
    let walk = create_test_entries(vec![
        "/data/source/notes.txt",
        "/data/source/secret.txt",
        "/data/source/image.png",
        "/data/source/deep/er.txt",
    ]);
    let plan = copy_snapshot(
        &config,
        &snapshot_target(),
        Timestamp::from_secs(1_700_000_000),
        3_600,
        &walk,
    )
    .unwrap();
    assert_eq!(plan.path, "/backup/days/2023-11-14T23:13");
    assert_eq!(plan.staging_path, "/backup/days/2023-11-14T23:13");
    assert_eq!(plan.format, ConfigOptsOutputFormat::Directory);
    assert_eq!(plan.guard, DryRun::Perform);
    assert_eq!(
        plan.files,
        vec![
            snapshot_file("/data/source/notes.txt", "notes.txt"),
            snapshot_file("/data/source/deep/er.txt", "deep/er.txt"),
        ]
    );
    let places: Vec<String> = plan
        .files
        .iter()
        .map(|file| format_target_entry_path(&plan.path, &file.inner_path))
        .collect();
    assert_eq!(
        places,
        vec![
            "/backup/days/2023-11-14T23:13/notes.txt",
            "/backup/days/2023-11-14T23:13/deep/er.txt",
        ]
    );
    // Listing the snapshot back gives the relative paths that went in.
    for (place, file) in places.iter().zip(plan.files.iter()) {
        assert_eq!(relative_to(place, &plan.path), Some(file.inner_path.clone()));
    }
}

#[test]
fn archive_snapshot_is_staged_under_another_name() {
    let mut config = snapshot_config(&[], &[]);
    config.options.output_format = ConfigOptsOutputFormat::Tarball;
    let walk = create_test_entries(vec!["/data/source/a/foo"]);
    let plan =
        copy_snapshot(&config, &snapshot_target(), Timestamp::from_secs(0), 0, &walk).unwrap();
    assert_eq!(plan.path, "/backup/days/1970-01-01T00:00.tgz");
    assert_eq!(plan.staging_path, "/backup/days/1970-01-01T00:00.tgz.partial");
    assert_eq!(plan.format, ConfigOptsOutputFormat::Tarball);
    assert_eq!(plan.files, vec![snapshot_file("/data/source/a/foo", "a/foo")]);
    // No path inside the archive is absolute.
    assert!(plan.files.iter().all(|file| !is_absolute(&file.inner_path)));
}

#[test]
fn dry_run_plans_the_snapshot_and_writes_nothing() {
    let mut config = snapshot_config(&[], &[]);
    config.options.dry_run = true;
    let walk = create_test_entries(vec!["/data/source/a/foo"]);
    let plan =
        copy_snapshot(&config, &snapshot_target(), Timestamp::from_secs(0), 0, &walk).unwrap();
    assert_eq!(plan.guard, DryRun::Skip);
    assert_eq!(plan.path, "/backup/days/1970-01-01T00:00");
    assert_eq!(plan.files.len(), 1);
}
