//! Time-bucketed, count-bounded snapshots of a source path: when a tier is
//! due for a new snapshot, what goes into it, and which snapshots leave once
//! a tier holds more than it may keep.
//!
//! The library decides and plans. It reads no clock and touches no file:
//! its callers hand it what they found on disk and carry out what it
//! returns.

pub mod clean;
pub mod configuration;
pub mod current_state;
pub mod lifecycle;
pub mod paths;
pub mod pattern;
pub mod snapshot;
pub mod text;
pub mod timestamp;

use crate::configuration::Config;
use crate::configuration::ConfigRetentionKind;
use crate::paths::join;
use crate::paths::join_spec;
use crate::paths::lemma_component_lies_in_directory;
use crate::paths::relative_to_spec;
use crate::timestamp::Timestamp;
use vstd::prelude::*;
use vstd::string::StringExecFns;

verus! {

/// What the rules see of a directory entry.
pub struct DirEntryView {
    pub path: Seq<char>,
    /// Nanoseconds from the epoch to the entry's last change.
    pub timestamp: nat,
}

/// One child of a directory: its path and the time it was last changed.
#[derive(Debug, PartialEq)]
pub struct PirouetteDirEntry {
    pub path: String,
    pub timestamp: Timestamp,
}

impl View for PirouetteDirEntry {
    type V = DirEntryView;

    open spec fn view(&self) -> DirEntryView {
        DirEntryView { path: self.path@, timestamp: self.timestamp@ }
    }
}

impl Clone for PirouetteDirEntry {
    fn clone(&self) -> (copy: Self)
        ensures
            copy == *self,
    {
        PirouetteDirEntry { path: self.path.clone(), timestamp: self.timestamp }
    }
}

impl PirouetteDirEntry {
    /// The entry at `path`. Where its time of last change could not be
    /// read, `modified` is `None` and the entry gets the epoch: it then
    /// counts as older than, or as old as, every other entry, so it makes
    /// its tier due and is the first to be evicted.
    pub fn new(path: String, modified: Option<Timestamp>) -> (entry: PirouetteDirEntry)
        ensures
            entry.path == path,
            entry.timestamp@ == match modified {
                Some(time) => time@,
                None => 0,
            },
    {
        let timestamp = match modified {
            Some(time) => time,
            None => Timestamp::epoch(),
        };
        PirouetteDirEntry { path, timestamp }
    }
}

/// The views of `entries`, in order.
pub open spec fn entry_views(entries: Seq<PirouetteDirEntry>) -> Seq<DirEntryView> {
    entries.map_values(|entry: PirouetteDirEntry| entry@)
}

/// What becomes of a change to the disk that a run has decided on.
#[derive(Debug, Clone, Copy, PartialEq, Eq, Structural)]
pub enum DryRun {
    /// Carry the change out.
    Perform,
    /// Dry run: say what would have changed, and change nothing.
    Skip,
}

/// Guards a change to the disk: in a dry run it is skipped, and otherwise
/// performed.
pub fn dry_run(enabled: bool) -> (guard: DryRun)
    ensures
        guard == if enabled {
            DryRun::Skip
        } else {
            DryRun::Perform
        },
{
    if enabled {
        DryRun::Skip
    } else {
        DryRun::Perform
    }
}

/// What the rules see of a retention target.
pub struct RetentionTargetView {
    pub period: ConfigRetentionKind,
    pub path: Seq<char>,
    pub max_count: nat,
}

/// One configured tier: its period, its directory and the number of
/// snapshots it may keep.
#[derive(Debug)]
pub struct PirouetteRetentionTarget {
    pub period: ConfigRetentionKind,
    pub path: String,
    pub max_count: usize,
}

impl View for PirouetteRetentionTarget {
    type V = RetentionTargetView;

    open spec fn view(&self) -> RetentionTargetView {
        RetentionTargetView {
            period: self.period,
            path: self.path@,
            max_count: self.max_count as nat,
        }
    }
}

impl Clone for PirouetteRetentionTarget {
    fn clone(&self) -> (copy: Self)
        ensures
            copy == *self,
    {
        PirouetteRetentionTarget {
            period: self.period,
            path: self.path.clone(),
            max_count: self.max_count,
        }
    }
}

impl PirouetteRetentionTarget {
    /// The name of the target's tier.
    pub fn to_string(&self) -> (name: String)
        ensures
            name@ == self.period.name(),
    {
        self.period.to_string()
    }
}

/// `items` written one after the other, with `separator` between each
/// two.
pub open spec fn joined(items: Seq<Seq<char>>, separator: Seq<char>) -> Seq<char>
    decreases items.len(),
{
    if items.len() == 0 {
        Seq::empty()
    } else if items.len() == 1 {
        items[0]
    } else {
        joined(items.drop_last(), separator) + separator + items.last()
    }
}

/// A list in a form to be read: its items between square brackets, parted
/// by a comma and a space.
pub trait DisplayVec {
    /// The text of the list.
    spec fn display_vec_spec(&self) -> Seq<char>;

    /// The text of the list.
    fn display_vec(&self) -> (text: String)
        ensures
            text@ == self.display_vec_spec(),
    ;
}

impl DisplayVec for Vec<PirouetteRetentionTarget> {
    open spec fn display_vec_spec(&self) -> Seq<char> {
        seq!['['] + joined(
            self@.map_values(|target: PirouetteRetentionTarget| target.period.name()),
            seq![',', ' '],
        ) + seq![']']
    }

    fn display_vec(&self) -> (text: String) {
        let ghost names = self@.map_values(|target: PirouetteRetentionTarget| target.period.name());
        let ghost separator = seq![',', ' '];
        proof {
            reveal_strlit("[");
            reveal_strlit("]");
            reveal_strlit(", ");
            assert("["@ =~= seq!['[']);
            assert("]"@ =~= seq![']']);
            assert(", "@ =~= separator);
        }
        let mut text = String::from_str("[");
        let mut i: usize = 0;
        assert(names.take(0) =~= Seq::<Seq<char>>::empty());
        assert(seq!['['] + Seq::<char>::empty() =~= seq!['[']);
        while i < self.len()
            invariant
                i <= self.len(),
                names == self@.map_values(|target: PirouetteRetentionTarget| target.period.name()),
                separator == seq![',', ' '],
                ", "@ == separator,
                text@ == seq!['['] + joined(names.take(i as int), separator),
            decreases self.len() - i,
        {
            proof {
                assert(names.take(i + 1).drop_last() =~= names.take(i as int));
                assert(names.take(i + 1).last() == self[i as int].period.name());
            }
            if i > 0 {
                text.append(", ");
            }
            text.append(self[i].period.as_str());
            proof {
                let shown = joined(names.take(i as int), separator);
                let name = self[i as int].period.name();
                if i > 0 {
                    assert(seq!['['] + shown + separator + name =~= seq!['['] + (shown + separator
                        + name));
                } else {
                    assert(shown =~= Seq::<char>::empty());
                    assert(seq!['['] + shown + name =~= seq!['['] + name);
                }
            }
            i += 1;
        }
        assert(names.take(self.len() as int) =~= names);
        text.append("]");
        text
    }
}

/// The views of `targets`, in order.
pub open spec fn target_views(targets: Seq<PirouetteRetentionTarget>) -> Seq<RetentionTargetView> {
    targets.map_values(|target: PirouetteRetentionTarget| target@)
}

/// The target of the tier of `kind` under `root`, where `max_count` is
/// configured for it: none for a tier that is not configured.
pub open spec fn tier_target(
    root: Seq<char>,
    kind: ConfigRetentionKind,
    max_count: Option<usize>,
) -> Seq<RetentionTargetView> {
    match max_count {
        Some(count) => seq![
            RetentionTargetView {
                period: kind,
                path: join_spec(root, kind.name()),
                max_count: count as nat,
            },
        ],
        None => seq![],
    }
}

/// The targets of a configuration: one for each configured tier, from the
/// shortest period to the longest. The directory of a tier is named after
/// its period and lies in the target directory.
pub open spec fn all_retention_targets(config: Config) -> Seq<RetentionTargetView> {
    let root = config.target.path@;
    let retention = config.retention;
    tier_target(root, ConfigRetentionKind::Hours, retention.hours)
        + tier_target(root, ConfigRetentionKind::Days, retention.days)
        + tier_target(root, ConfigRetentionKind::Weeks, retention.weeks)
        + tier_target(root, ConfigRetentionKind::Months, retention.months)
        + tier_target(root, ConfigRetentionKind::Years, retention.years)
}

/// The targets that a configuration has for the tier of `kind`.
pub open spec fn targets_of_kind(config: Config, kind: ConfigRetentionKind) -> Seq<
    RetentionTargetView,
> {
    all_retention_targets(config).filter(|target: RetentionTargetView| target.period == kind)
}

/// Each configured tier has one target and no other tier has any: the
/// targets of a tier are the one that is made of its count, if it has one.
pub proof fn lemma_one_target_per_tier(config: Config, kind: ConfigRetentionKind)
    ensures
        targets_of_kind(config, kind) == tier_target(
            config.target.path@,
            kind,
            config.retention.max_count(kind),
        ),
{
    let root = config.target.path@;
    let of_kind = |target: RetentionTargetView| target.period == kind;
    let hours = tier_target(root, ConfigRetentionKind::Hours, config.retention.hours);
    let days = tier_target(root, ConfigRetentionKind::Days, config.retention.days);
    let weeks = tier_target(root, ConfigRetentionKind::Weeks, config.retention.weeks);
    let months = tier_target(root, ConfigRetentionKind::Months, config.retention.months);
    let years = tier_target(root, ConfigRetentionKind::Years, config.retention.years);
    lemma_tier_target_of_kind(root, ConfigRetentionKind::Hours, config.retention.hours, kind);
    lemma_tier_target_of_kind(root, ConfigRetentionKind::Days, config.retention.days, kind);
    lemma_tier_target_of_kind(root, ConfigRetentionKind::Weeks, config.retention.weeks, kind);
    lemma_tier_target_of_kind(root, ConfigRetentionKind::Months, config.retention.months, kind);
    lemma_tier_target_of_kind(root, ConfigRetentionKind::Years, config.retention.years, kind);
    Seq::filter_distributes_over_add(hours, days, of_kind);
    Seq::filter_distributes_over_add(hours + days, weeks, of_kind);
    Seq::filter_distributes_over_add(hours + days + weeks, months, of_kind);
    Seq::filter_distributes_over_add(hours + days + weeks + months, years, of_kind);
    let empty = Seq::<RetentionTargetView>::empty();
    assert(empty + empty =~= empty);
    match kind {
        ConfigRetentionKind::Hours => {
            assert(hours + empty + empty + empty + empty =~= hours);
        },
        ConfigRetentionKind::Days => {
            assert(empty + days + empty + empty + empty =~= days);
        },
        ConfigRetentionKind::Weeks => {
            assert(empty + empty + weeks + empty + empty =~= weeks);
        },
        ConfigRetentionKind::Months => {
            assert(empty + empty + empty + months + empty =~= months);
        },
        ConfigRetentionKind::Years => {
            assert(empty + empty + empty + empty + years =~= years);
        },
    }
}

/// The target of one tier is a target of that tier and of no other.
proof fn lemma_tier_target_of_kind(
    root: Seq<char>,
    tier: ConfigRetentionKind,
    max_count: Option<usize>,
    kind: ConfigRetentionKind,
)
    ensures
        tier_target(root, tier, max_count).filter(
            |target: RetentionTargetView| target.period == kind,
        ) == if tier == kind {
            tier_target(root, tier, max_count)
        } else {
            Seq::<RetentionTargetView>::empty()
        },
{
    let of_kind = |target: RetentionTargetView| target.period == kind;
    let targets = tier_target(root, tier, max_count);
    let empty = Seq::<RetentionTargetView>::empty();
    empty.lemma_filter_len(of_kind);
    assert(empty.filter(of_kind) =~= empty);
    if max_count is Some {
        assert(targets =~= empty.push(targets[0]));
        empty.lemma_filter_push(targets[0], of_kind);
    } else {
        assert(targets =~= empty);
    }
}

/// The directory of a tier lies in the target directory, under the name of
/// the tier's period.
pub proof fn lemma_tier_lies_in_target(root: Seq<char>, kind: ConfigRetentionKind)
    ensures
        relative_to_spec(join_spec(root, kind.name()), root) == Some(kind.name()),
{
    ConfigRetentionKind::lemma_name_is_component(kind);
    lemma_component_lies_in_directory(root, kind.name());
}

/// Appends the target of the tier of `kind` to `targets`, where the tier is
/// configured.
fn push_tier_target(
    targets: &mut Vec<PirouetteRetentionTarget>,
    config: &Config,
    kind: ConfigRetentionKind,
)
    ensures
        target_views(final(targets)@) == target_views(old(targets)@) + tier_target(
            config.target.path@,
            kind,
            config.retention.max_count(kind),
        ),
{
    match config.retention.get(kind) {
        Some(max_count) => {
            let target = PirouetteRetentionTarget {
                period: kind,
                path: join(config.target.path.as_str(), kind.as_str()),
                max_count,
            };
            targets.push(target);
            assert(target_views(targets@) =~= target_views(old(targets)@) + tier_target(
                config.target.path@,
                kind,
                config.retention.max_count(kind),
            ));
        },
        None => {
            assert(target_views(targets@) =~= target_views(old(targets)@) + tier_target(
                config.target.path@,
                kind,
                config.retention.max_count(kind),
            ));
        },
    }
}

/// The targets of a configuration.
pub fn get_all_retention_targets(config: &Config) -> (all_targets: Vec<PirouetteRetentionTarget>)
    ensures
        target_views(all_targets@) == all_retention_targets(*config),
{
    let mut all_targets: Vec<PirouetteRetentionTarget> = Vec::new();
    assert(target_views(all_targets@) =~= Seq::<RetentionTargetView>::empty());
    push_tier_target(&mut all_targets, config, ConfigRetentionKind::Hours);
    push_tier_target(&mut all_targets, config, ConfigRetentionKind::Days);
    push_tier_target(&mut all_targets, config, ConfigRetentionKind::Weeks);
    push_tier_target(&mut all_targets, config, ConfigRetentionKind::Months);
    push_tier_target(&mut all_targets, config, ConfigRetentionKind::Years);
    assert(target_views(all_targets@) =~= all_retention_targets(*config));
    all_targets
}

} // verus!
