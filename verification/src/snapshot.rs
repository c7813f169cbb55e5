//! What goes into a new snapshot, and where it is laid down.

use crate::configuration::Config;
use crate::configuration::ConfigOptsOutputFormat;
use crate::dry_run;
use crate::entry_views;
use crate::paths::is_absolute_spec;
use crate::paths::is_component;
use crate::paths::is_component_spec;
use crate::paths::join;
use crate::paths::join_spec;
use crate::paths::lemma_component_lies_in_directory;
use crate::paths::lemma_relative_is_not_absolute;
use crate::paths::lemma_relative_of_join;
use crate::paths::relative_to;
use crate::paths::relative_to_spec;
use crate::pattern::glob_excludes;
use crate::pattern::glob_includes;
use crate::pattern::pattern_views;
use crate::pattern::survives_filters;
use crate::timestamp::Timestamp;
use crate::timestamp::NANOS_PER_SECOND;
use crate::DirEntryView;
use crate::DryRun;
use crate::PirouetteDirEntry;
use crate::PirouetteRetentionTarget;
use vstd::prelude::*;
use vstd::string::StringExecFns;

verus! {

/// The text that `chrono` writes, under the format `%Y-%m-%dT%H:%M`, for
/// the date and time of day that a clock shows `local_seconds` seconds
/// after it showed midnight of 1 January 1970; `None` where `chrono`
/// cannot hold that date.
pub uninterp spec fn minute_stamp(local_seconds: int) -> Option<Seq<char>>;

/// Builds the date and time with `chrono::DateTime::from_timestamp` and
/// writes them with `chrono::DateTime::format`. Trusted: `None` exactly
/// where the first gives none, and else the text that the second writes,
/// which depends on the number alone.
#[verifier::external_body]
fn format_minute_stamp(local_seconds: i64) -> (stamp: Option<String>)
    ensures
        match stamp {
            Some(text) => minute_stamp(local_seconds as int) == Some(text@),
            None => minute_stamp(local_seconds as int) is None,
        },
{
    let shown = chrono::DateTime::from_timestamp(local_seconds, 0)?;
    Some(shown.format("%Y-%m-%dT%H:%M").to_string())
}

/// What a clock `utc_offset_seconds` ahead of UTC shows at `now`, in whole
/// seconds from midnight of 1 January 1970 on that clock.
pub open spec fn local_seconds(now: nat, utc_offset_seconds: int) -> int {
    now / (NANOS_PER_SECOND as nat) + utc_offset_seconds
}

/// The name of a snapshot taken at `now` on a clock `utc_offset_seconds`
/// ahead of UTC: the local date and time to the minute. `None` where the
/// time is out of the range that can be written, or what is written could
/// not name an entry of a directory.
pub open spec fn snapshot_stamp_spec(now: nat, utc_offset_seconds: int) -> Option<Seq<char>> {
    if local_seconds(now, utc_offset_seconds) <= i64::MAX {
        match minute_stamp(local_seconds(now, utc_offset_seconds)) {
            Some(text) => if is_component_spec(text) {
                Some(text)
            } else {
                None
            },
            None => None,
        }
    } else {
        None
    }
}

/// The name of a snapshot taken at `now`.
pub fn snapshot_stamp(now: Timestamp, utc_offset_seconds: i32) -> (stamp: Option<String>)
    ensures
        match stamp {
            Some(text) => snapshot_stamp_spec(now@, utc_offset_seconds as int) == Some(text@),
            None => snapshot_stamp_spec(now@, utc_offset_seconds as int) is None,
        },
{
    let local: i128 = (now.nanos / NANOS_PER_SECOND) as i128 + utc_offset_seconds as i128;
    if local > i64::MAX as i128 {
        return None;
    }
    match format_minute_stamp(local as i64) {
        Some(text) => if is_component(text.as_str()) {
            Some(text)
        } else {
            None
        },
        None => None,
    }
}

/// The suffix of the name of a snapshot that is an archive.
pub const ARCHIVE_SUFFIX: &'static str = ".tgz";

/// The suffix under which an archive is written before it is complete.
pub const PARTIAL_SUFFIX: &'static str = ".partial";

/// The name of the snapshot taken at the time that `stamp` writes: the
/// stamp itself for a directory, with the archive suffix for an archive.
pub open spec fn snapshot_name(format: ConfigOptsOutputFormat, stamp: Seq<char>) -> Seq<char> {
    match format {
        ConfigOptsOutputFormat::Directory => stamp,
        ConfigOptsOutputFormat::Tarball => stamp + ARCHIVE_SUFFIX@,
    }
}

/// The path of the snapshot named after `stamp` in the directory `tier`.
pub open spec fn snapshot_path(
    tier: Seq<char>,
    format: ConfigOptsOutputFormat,
    stamp: Seq<char>,
) -> Seq<char> {
    join_spec(tier, snapshot_name(format, stamp))
}

/// A snapshot lies in the directory of its tier, under its name.
pub proof fn lemma_snapshot_lies_in_its_tier(
    tier: Seq<char>,
    format: ConfigOptsOutputFormat,
    stamp: Seq<char>,
)
    requires
        is_component_spec(stamp),
    ensures
        is_component_spec(snapshot_name(format, stamp)),
        relative_to_spec(snapshot_path(tier, format, stamp), tier) == Some(
            snapshot_name(format, stamp),
        ),
{
    reveal_strlit(".tgz");
    assert(ARCHIVE_SUFFIX@ =~= seq!['.', 't', 'g', 'z']);
    lemma_component_lies_in_directory(tier, snapshot_name(format, stamp));
}

/// The name under which a snapshot is planned is one component of a path:
/// whenever a time has a stamp, the snapshot named after it lies in the
/// directory of its tier.
pub proof fn lemma_stamp_is_component(now: nat, utc_offset_seconds: int)
    ensures
        snapshot_stamp_spec(now, utc_offset_seconds) matches Some(stamp) ==> is_component_spec(
            stamp,
        ),
{
}

/// The path at which the snapshot at `path` is written: an archive stands
/// under another name until it is complete, a directory is filled in place.
pub open spec fn staging_path(path: Seq<char>, format: ConfigOptsOutputFormat) -> Seq<char> {
    match format {
        ConfigOptsOutputFormat::Directory => path,
        ConfigOptsOutputFormat::Tarball => path + PARTIAL_SUFFIX@,
    }
}

/// The path of the snapshot named `stamp` in the tier of
/// `retention_target`.
pub fn format_snapshot_path(
    retention_target: &PirouetteRetentionTarget,
    snapshot_output_format: &ConfigOptsOutputFormat,
    stamp: &str,
) -> (path: String)
    ensures
        path@ == snapshot_path(retention_target.path@, *snapshot_output_format, stamp@),
{
    match snapshot_output_format {
        ConfigOptsOutputFormat::Directory => join(retention_target.path.as_str(), stamp),
        ConfigOptsOutputFormat::Tarball => {
            let name = String::from_str(stamp).concat(ARCHIVE_SUFFIX);
            join(retention_target.path.as_str(), name.as_str())
        },
    }
}

/// The path of `entry` as seen from the source: for the entry
/// `/path/to/source/foo/bar.txt` of the source `/path/to/source` it is
/// `foo/bar.txt`. `None` where the entry does not lie in the source.
pub fn format_inner_entry_path(config: &Config, entry: &PirouetteDirEntry) -> (inner: Option<
    String,
>)
    ensures
        match inner {
            Some(path) => relative_to_spec(entry.path@, config.source.path@) == Some(path@),
            None => relative_to_spec(entry.path@, config.source.path@) is None,
        },
{
    relative_to(entry.path.as_str(), config.source.path.as_str())
}

/// The path, in a snapshot that is a directory at `snapshot_path`, of the
/// copy of the entry whose path inside the source is `inner_entry_path`.
pub fn format_target_entry_path(snapshot_path: &str, inner_entry_path: &str) -> (path: String)
    ensures
        path@ == join_spec(snapshot_path@, inner_entry_path@),
{
    join(snapshot_path, inner_entry_path)
}

/// What a walk of the source comes upon.
#[derive(Debug, Clone, Copy, PartialEq, Eq, Structural)]
pub enum SourceEntryKind {
    File,
    Symlink,
    Directory,
    Other,
}

impl SourceEntryKind {
    /// The kind of an entry of which it is known whether it is a regular
    /// file, a symbolic link or a directory.
    pub fn of(is_file: bool, is_symlink: bool, is_directory: bool) -> (kind: SourceEntryKind)
        ensures
            kind == if is_file {
                SourceEntryKind::File
            } else if is_symlink {
                SourceEntryKind::Symlink
            } else if is_directory {
                SourceEntryKind::Directory
            } else {
                SourceEntryKind::Other
            },
    {
        if is_file {
            SourceEntryKind::File
        } else if is_symlink {
            SourceEntryKind::Symlink
        } else if is_directory {
            SourceEntryKind::Directory
        } else {
            SourceEntryKind::Other
        }
    }
}

/// Whether an entry of this kind is content of the source: files and
/// symbolic links are; directories only give the structure.
pub open spec fn is_content(kind: SourceEntryKind) -> bool {
    kind == SourceEntryKind::File || kind == SourceEntryKind::Symlink
}

/// Whether an entry of this kind is content of the source.
pub fn is_source_content(kind: SourceEntryKind) -> (content: bool)
    ensures
        content == is_content(kind),
{
    match kind {
        SourceEntryKind::File => true,
        SourceEntryKind::Symlink => true,
        _ => false,
    }
}

/// What the rules see of an entry of a walk.
pub struct WalkEntryView {
    pub path: Seq<char>,
    pub kind: SourceEntryKind,
    pub modified: Option<nat>,
}

/// What a walk of the source has come upon at one path: what kind of
/// entry it is and, where that could be read, when it was last changed.
#[derive(Debug)]
pub struct WalkEntry {
    pub path: String,
    pub kind: SourceEntryKind,
    pub modified: Option<Timestamp>,
}

impl View for WalkEntry {
    type V = WalkEntryView;

    open spec fn view(&self) -> WalkEntryView {
        WalkEntryView {
            path: self.path@,
            kind: self.kind,
            modified: match self.modified {
                Some(time) => Some(time@),
                None => None,
            },
        }
    }
}

/// The views of `walk`, in order.
pub open spec fn walk_views(walk: Seq<WalkEntry>) -> Seq<WalkEntryView> {
    walk.map_values(|entry: WalkEntry| entry@)
}

/// The directory entry that stands for an entry of a walk. One whose
/// time could not be read gets the epoch.
pub open spec fn walked_entry(entry: WalkEntryView) -> DirEntryView {
    DirEntryView {
        path: entry.path,
        timestamp: match entry.modified {
            Some(time) => time,
            None => 0,
        },
    }
}

/// The contents of the source among what a walk has come upon: the files
/// and the symbolic links, in the order of the walk.
pub open spec fn source_contents_of(walk: Seq<WalkEntryView>) -> Seq<DirEntryView> {
    walk.filter(|entry: WalkEntryView| is_content(entry.kind)).map_values(
        |entry: WalkEntryView| walked_entry(entry),
    )
}

/// The contents of the source among what a walk has come upon.
pub fn get_source_contents(walk: &Vec<WalkEntry>) -> (source_contents: Vec<PirouetteDirEntry>)
    ensures
        entry_views(source_contents@) == source_contents_of(walk_views(walk@)),
{
    let mut source_contents: Vec<PirouetteDirEntry> = Vec::new();
    let ghost all = walk_views(walk@);
    let ghost content = |entry: WalkEntryView| is_content(entry.kind);
    let ghost entry_of = |entry: WalkEntryView| walked_entry(entry);
    assert(all.take(0) =~= Seq::<WalkEntryView>::empty());
    assert(all.take(0).filter(content) =~= Seq::<WalkEntryView>::empty()) by {
        all.take(0).lemma_filter_len(content);
    }
    let mut i: usize = 0;
    while i < walk.len()
        invariant
            i <= walk.len(),
            all == walk_views(walk@),
            content == |entry: WalkEntryView| is_content(entry.kind),
            entry_of == |entry: WalkEntryView| walked_entry(entry),
            entry_views(source_contents@) =~= all.take(i as int).filter(content).map_values(
                entry_of,
            ),
        decreases walk.len() - i,
    {
        let entry = &walk[i];
        proof {
            assert(all.take(i + 1) =~= all.take(i as int).push(all[i as int]));
            all.take(i as int).lemma_filter_push(all[i as int], content);
            assert(all[i as int] == entry@);
        }
        if is_source_content(entry.kind) {
            let ghost before = source_contents@;
            source_contents.push(PirouetteDirEntry::new(entry.path.clone(), entry.modified));
            assert(entry_views(source_contents@) =~= entry_views(before).push(
                entry_of(all[i as int]),
            ));
            assert(all.take(i as int).filter(content).push(all[i as int]).map_values(entry_of)
                =~= all.take(i as int).filter(content).map_values(entry_of).push(
                entry_of(all[i as int]),
            ));
        }
        i += 1;
    }
    assert(all.take(walk.len() as int) =~= all);
    source_contents
}

/// What the rules see of a file of a snapshot.
pub struct SnapshotFileView {
    pub source: Seq<char>,
    pub inner_path: Seq<char>,
}

/// One file of a snapshot.
#[derive(Debug, PartialEq)]
pub struct SnapshotFile {
    /// Where the file is read.
    pub source: String,
    /// Where it stands inside the snapshot: its path as seen from the
    /// source.
    pub inner_path: String,
}

impl View for SnapshotFile {
    type V = SnapshotFileView;

    open spec fn view(&self) -> SnapshotFileView {
        SnapshotFileView { source: self.source@, inner_path: self.inner_path@ }
    }
}

/// The views of `files`, in order.
pub open spec fn file_views(files: Seq<SnapshotFile>) -> Seq<SnapshotFileView> {
    files.map_values(|file: SnapshotFile| file@)
}

/// Whether `entry` lies in the source at `root`.
pub open spec fn in_source(root: Seq<char>, entry: DirEntryView) -> bool {
    relative_to_spec(entry.path, root) is Some
}

/// Whether `entry`, which lies in the source, goes into a snapshot: the
/// include patterns let its path inside the source through, and no exclude
/// pattern matches it.
pub open spec fn goes_into_snapshot(config: Config, entry: DirEntryView) -> bool {
    survives_filters(
        pattern_views(config.options.include_patterns@),
        pattern_views(config.options.exclude_patterns@),
        relative_to_spec(entry.path, config.source.path@).unwrap(),
    )
}

/// The file that a snapshot of the source at `root` holds for `entry`.
pub open spec fn snapshot_file(root: Seq<char>, entry: DirEntryView) -> SnapshotFileView {
    SnapshotFileView {
        source: entry.path,
        inner_path: relative_to_spec(entry.path, root).unwrap(),
    }
}

/// The files of a snapshot of `source_contents`: those that the filters
/// let through, in the order of the walk.
pub open spec fn snapshot_files(config: Config, source_contents: Seq<DirEntryView>) -> Seq<
    SnapshotFileView,
> {
    source_contents.filter(|entry: DirEntryView| goes_into_snapshot(config, entry)).map_values(
        |entry: DirEntryView| snapshot_file(config.source.path@, entry),
    )
}

/// Whether the entry at `index` is the first of `source_contents` that
/// does not lie in the source at `root`.
pub open spec fn is_first_outside(
    root: Seq<char>,
    source_contents: Seq<DirEntryView>,
    index: int,
) -> bool {
    &&& 0 <= index < source_contents.len()
    &&& !in_source(root, source_contents[index])
    &&& forall|j: int| 0 <= j < index ==> in_source(root, #[trigger] source_contents[j])
}

/// Why no snapshot can be planned.
#[derive(Debug, PartialEq)]
pub enum SnapshotError {
    /// The time of the snapshot cannot be written as its name.
    TimeOutOfRange,
    /// The entry at this path does not lie in the source.
    OutsideSource(String),
}

/// A snapshot as planned: where it comes to stand and what it holds.
#[derive(Debug)]
pub struct SnapshotPlan {
    /// The path of the finished snapshot.
    pub path: String,
    /// The path at which it is written.
    pub staging_path: String,
    pub format: ConfigOptsOutputFormat,
    /// The files it holds, in the order of the walk.
    pub files: Vec<SnapshotFile>,
    /// Whether it is written, or only said to be in a dry run.
    pub guard: DryRun,
}

/// The files of a snapshot of `source_contents`, or the path of the first
/// entry that does not lie in the source.
pub fn filter_source_contents(config: &Config, source_contents: &Vec<PirouetteDirEntry>) -> (files:
    Result<Vec<SnapshotFile>, SnapshotError>)
    ensures
        match files {
            Ok(kept) => {
                &&& forall|i: int|
                    0 <= i < source_contents.len() ==> in_source(
                        config.source.path@,
                        #[trigger] entry_views(source_contents@)[i],
                    )
                &&& file_views(kept@) == snapshot_files(*config, entry_views(source_contents@))
            },
            Err(SnapshotError::OutsideSource(path)) => exists|index: int|
                is_first_outside(config.source.path@, entry_views(source_contents@), index)
                    && path@ == #[trigger] entry_views(source_contents@)[index].path,
            Err(SnapshotError::TimeOutOfRange) => false,
        },
{
    let mut files: Vec<SnapshotFile> = Vec::new();
    let ghost all = entry_views(source_contents@);
    let ghost keep = |entry: DirEntryView| goes_into_snapshot(*config, entry);
    let ghost file_of = |entry: DirEntryView| snapshot_file(config.source.path@, entry);
    assert(all.take(0) =~= Seq::<DirEntryView>::empty());
    assert(all.take(0).filter(keep) =~= Seq::<DirEntryView>::empty()) by {
        all.take(0).lemma_filter_len(keep);
    }
    let mut i: usize = 0;
    while i < source_contents.len()
        invariant
            i <= source_contents.len(),
            all == entry_views(source_contents@),
            keep == |entry: DirEntryView| goes_into_snapshot(*config, entry),
            file_of == |entry: DirEntryView| snapshot_file(config.source.path@, entry),
            forall|j: int| 0 <= j < i ==> in_source(config.source.path@, #[trigger] all[j]),
            file_views(files@) =~= all.take(i as int).filter(keep).map_values(file_of),
        decreases source_contents.len() - i,
    {
        let entry = &source_contents[i];
        proof {
            assert(all.take(i + 1) =~= all.take(i as int).push(all[i as int]));
            all.take(i as int).lemma_filter_push(all[i as int], keep);
            assert(all[i as int] == entry@);
        }
        match format_inner_entry_path(config, entry) {
            None => {
                assert(is_first_outside(config.source.path@, all, i as int));
                return Err(SnapshotError::OutsideSource(entry.path.clone()));
            },
            Some(inner_path) => {
                let ghost before = files@;
                if glob_includes(inner_path.as_str(), &config.options.include_patterns)
                    && glob_excludes(inner_path.as_str(), &config.options.exclude_patterns) {
                    files.push(SnapshotFile { source: entry.path.clone(), inner_path });
                    assert(keep(all[i as int]));
                    assert(file_views(files@) =~= file_views(before).push(file_of(all[i as int])));
                    assert(all.take(i as int).filter(keep).push(all[i as int]).map_values(file_of)
                        =~= all.take(i as int).filter(keep).map_values(file_of).push(
                        file_of(all[i as int]),
                    ));
                } else {
                    assert(!keep(all[i as int]));
                }
            },
        }
        i += 1;
    }
    assert(all.take(source_contents.len() as int) =~= all);
    Ok(files)
}

/// Plans the snapshot that is taken at `now`, on a clock
/// `utc_offset_seconds` ahead of UTC, of `source_contents`, the files and
/// symbolic links that a walk of the source came upon, for the tier of
/// `retention_target`.
///
/// The snapshot is named after the time and stands in the tier's
/// directory. It holds each entry that the filters let through, under the
/// entry's path as seen from the source. A dry run plans the same and
/// writes nothing.
pub fn copy_snapshot(
    config: &Config,
    retention_target: &PirouetteRetentionTarget,
    now: Timestamp,
    utc_offset_seconds: i32,
    source_contents: &Vec<PirouetteDirEntry>,
) -> (planned: Result<SnapshotPlan, SnapshotError>)
    ensures
        match planned {
            Ok(plan) => {
                &&& snapshot_stamp_spec(now@, utc_offset_seconds as int) matches Some(stamp)
                &&& plan.path@ == snapshot_path(
                    retention_target.path@,
                    config.options.output_format,
                    stamp,
                )
                &&& relative_to_spec(plan.path@, retention_target.path@) == Some(
                    snapshot_name(config.options.output_format, stamp),
                )
                &&& plan.staging_path@ == staging_path(plan.path@, config.options.output_format)
                &&& plan.format == config.options.output_format
                &&& forall|i: int|
                    0 <= i < source_contents.len() ==> in_source(
                        config.source.path@,
                        #[trigger] entry_views(source_contents@)[i],
                    )
                &&& file_views(plan.files@) == snapshot_files(
                    *config,
                    entry_views(source_contents@),
                )
                &&& plan.guard == if config.options.dry_run {
                    DryRun::Skip
                } else {
                    DryRun::Perform
                }
            },
            Err(SnapshotError::TimeOutOfRange) => snapshot_stamp_spec(
                now@,
                utc_offset_seconds as int,
            ) is None,
            Err(SnapshotError::OutsideSource(path)) => {
                &&& snapshot_stamp_spec(now@, utc_offset_seconds as int) is Some
                &&& exists|index: int|
                    is_first_outside(config.source.path@, entry_views(source_contents@), index)
                        && path@ == #[trigger] entry_views(source_contents@)[index].path
            },
        },
{
    let snapshot_output_format = config.options.output_format;
    let stamp = match snapshot_stamp(now, utc_offset_seconds) {
        Some(stamp) => stamp,
        None => {
            return Err(SnapshotError::TimeOutOfRange);
        },
    };
    let path = format_snapshot_path(retention_target, &snapshot_output_format, stamp.as_str());
    proof {
        lemma_snapshot_lies_in_its_tier(retention_target.path@, snapshot_output_format, stamp@);
    }
    let staging_path = match snapshot_output_format {
        ConfigOptsOutputFormat::Directory => path.clone(),
        ConfigOptsOutputFormat::Tarball => path.clone().concat(PARTIAL_SUFFIX),
    };
    match filter_source_contents(config, source_contents) {
        Ok(files) => Ok(
            SnapshotPlan {
                path,
                staging_path,
                format: snapshot_output_format,
                files,
                guard: dry_run(config.options.dry_run),
            },
        ),
        Err(error) => Err(error),
    }
}

/// Each file of a snapshot stands for an entry of the walk that the
/// filters let through.
pub proof fn lemma_snapshot_file_has_an_entry(
    config: Config,
    source_contents: Seq<DirEntryView>,
    index: int,
)
    requires
        0 <= index < snapshot_files(config, source_contents).len(),
    ensures
        exists|k: int|
            0 <= k < source_contents.len() && goes_into_snapshot(config, source_contents[k])
                && snapshot_files(config, source_contents)[index] == snapshot_file(
                config.source.path@,
                #[trigger] source_contents[k],
            ),
{
    let keep = |entry: DirEntryView| goes_into_snapshot(config, entry);
    let kept = source_contents.filter(keep);
    source_contents.lemma_filter_pred(keep, index);
    assert(kept.contains(kept[index]));
    source_contents.lemma_filter_contains_rev(keep, kept[index]);
    let k = choose|k: int| 0 <= k < source_contents.len() && source_contents[k] == kept[index];
    assert(snapshot_files(config, source_contents)[index] == snapshot_file(
        config.source.path@,
        source_contents[k],
    ));
}

/// Each entry of the walk that the filters let through has its file in
/// the snapshot.
pub proof fn lemma_entry_has_a_snapshot_file(
    config: Config,
    source_contents: Seq<DirEntryView>,
    index: int,
)
    requires
        0 <= index < source_contents.len(),
        goes_into_snapshot(config, source_contents[index]),
    ensures
        snapshot_files(config, source_contents).contains(
            snapshot_file(config.source.path@, source_contents[index]),
        ),
{
    let keep = |entry: DirEntryView| goes_into_snapshot(config, entry);
    let kept = source_contents.filter(keep);
    source_contents.lemma_filter_contains(keep, index);
    let k = choose|k: int| 0 <= k < kept.len() && kept[k] == source_contents[index];
    assert(snapshot_files(config, source_contents)[k] == snapshot_file(
        config.source.path@,
        source_contents[index],
    ));
}

/// A filter that every entry passes leaves the sequence as it is.
proof fn lemma_filter_keeps_all(entries: Seq<DirEntryView>, keep: spec_fn(DirEntryView) -> bool)
    requires
        forall|i: int| 0 <= i < entries.len() ==> keep(#[trigger] entries[i]),
    ensures
        entries.filter(keep) == entries,
    decreases entries.len(),
{
    if entries.len() == 0 {
        entries.lemma_filter_len(keep);
        assert(entries.filter(keep) =~= entries);
    } else {
        let front = entries.drop_last();
        assert forall|i: int| 0 <= i < front.len() implies keep(#[trigger] front[i]) by {
            assert(front[i] == entries[i]);
        }
        lemma_filter_keeps_all(front, keep);
        front.lemma_filter_push(entries.last(), keep);
        assert(front.push(entries.last()) =~= entries);
    }
}

/// Where the configuration has no include and no exclude pattern, the
/// snapshot holds a file for every entry of the walk.
pub proof fn lemma_unfiltered_snapshot_holds_everything(
    config: Config,
    source_contents: Seq<DirEntryView>,
)
    requires
        config.options.include_patterns@.len() == 0,
        config.options.exclude_patterns@.len() == 0,
    ensures
        snapshot_files(config, source_contents) == source_contents.map_values(
            |entry: DirEntryView| snapshot_file(config.source.path@, entry),
        ),
{
    let keep = |entry: DirEntryView| goes_into_snapshot(config, entry);
    lemma_filter_keeps_all(source_contents, keep);
}

/// Each file of a snapshot stands in it under a relative path, and that
/// path is found again when the place of the file in a snapshot directory
/// is looked at from that directory: listing a snapshot back gives the
/// relative paths that went into it.
pub proof fn lemma_snapshot_keeps_relative_paths(
    config: Config,
    source_contents: Seq<DirEntryView>,
    snapshot: Seq<char>,
    index: int,
)
    requires
        forall|i: int|
            0 <= i < source_contents.len() ==> in_source(
                config.source.path@,
                #[trigger] source_contents[i],
            ),
        0 <= index < snapshot_files(config, source_contents).len(),
    ensures
        !is_absolute_spec(snapshot_files(config, source_contents)[index].inner_path),
        relative_to_spec(
            join_spec(snapshot, snapshot_files(config, source_contents)[index].inner_path),
            snapshot,
        ) == Some(snapshot_files(config, source_contents)[index].inner_path),
{
    lemma_snapshot_file_has_an_entry(config, source_contents, index);
    let k = choose|k: int|
        0 <= k < source_contents.len() && goes_into_snapshot(config, source_contents[k])
            && snapshot_files(config, source_contents)[index] == snapshot_file(
            config.source.path@,
            #[trigger] source_contents[k],
        );
    lemma_relative_is_not_absolute(source_contents[k].path, config.source.path@);
    lemma_relative_of_join(snapshot, snapshot_files(config, source_contents)[index].inner_path);
}

} // verus!
