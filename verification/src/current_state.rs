//! Whether a tier is due for a new snapshot, given what its directory holds.

use crate::configuration::Config;
use crate::configuration::ConfigRetentionKind;
use crate::dry_run;
use crate::entry_views;
use crate::paths::PathState;
use crate::target_views;
use crate::timestamp::age_seconds;
use crate::timestamp::Timestamp;
use crate::DirEntryView;
use crate::DryRun;
use crate::PirouetteDirEntry;
use crate::PirouetteRetentionTarget;
use crate::RetentionTargetView;
use vstd::prelude::*;

verus! {

/// Whether a snapshot last changed at `snapshot` has, at `now`, reached the
/// age at which a tier of `period` wants the next one. The bound is
/// inclusive. A snapshot from the future has not aged out.
pub open spec fn aged_out(period: ConfigRetentionKind, snapshot: nat, now: nat) -> bool {
    match age_seconds(now, snapshot) {
        Some(age) => age >= period.threshold_seconds(),
        None => false,
    }
}

/// The latest time of last change among `entries`; the epoch where there
/// are none.
pub open spec fn newest_timestamp(entries: Seq<DirEntryView>) -> nat
    decreases entries.len(),
{
    if entries.len() == 0 {
        0
    } else {
        let before = newest_timestamp(entries.drop_last());
        if entries.last().timestamp >= before {
            entries.last().timestamp
        } else {
            before
        }
    }
}

/// Whether the entry at `index` is the newest of `entries`: none is
/// newer, and of several that are as new it is the last.
pub open spec fn is_newest(entries: Seq<DirEntryView>, index: int) -> bool {
    &&& 0 <= index < entries.len()
    &&& forall|j: int| 0 <= j < entries.len() ==> entries[j].timestamp <= entries[index].timestamp
    &&& forall|j: int|
        index < j < entries.len() ==> entries[j].timestamp < entries[index].timestamp
}

/// Whether a tier of `period` whose directory holds `entries` is due for a
/// new snapshot at `now`: it is empty, or its newest entry has aged out.
pub open spec fn rotation_due(
    period: ConfigRetentionKind,
    entries: Seq<DirEntryView>,
    now: nat,
) -> bool {
    entries.len() == 0 || aged_out(period, newest_timestamp(entries), now)
}

/// Whether `snapshot` has reached, at `now`, the age at which the tier of
/// `retention_target` wants the next snapshot.
pub fn has_target_snapshot_aged_out(
    retention_target: &PirouetteRetentionTarget,
    snapshot: &PirouetteDirEntry,
    now: Timestamp,
) -> (aged: bool)
    ensures
        aged == aged_out(retention_target.period, snapshot.timestamp@, now@),
        age_seconds(now@, snapshot.timestamp@) == Some(retention_target.period.threshold_seconds())
            ==> aged,
        age_seconds(now@, snapshot.timestamp@) == Some(
            (retention_target.period.threshold_seconds() - 1) as nat,
        ) ==> !aged,
        snapshot.timestamp@ > now@ ==> !aged,
{
    let age_threshold = retention_target.period.age_threshold();
    match now.seconds_since(&snapshot.timestamp) {
        None => false,
        Some(snapshot_age) => snapshot_age >= age_threshold as u128,
    }
}

/// The place of the newest entry of `entries`; `None` where there is none.
pub fn newest_entry_index(entries: &Vec<PirouetteDirEntry>) -> (newest: Option<usize>)
    ensures
        newest is None <==> entries.len() == 0,
        newest matches Some(index) ==> is_newest(entry_views(entries@), index as int),
{
    if entries.len() == 0 {
        return None;
    }
    let mut index: usize = 0;
    let mut i: usize = 1;
    while i < entries.len()
        invariant
            1 <= i <= entries.len(),
            index < i,
            forall|j: int| 0 <= j < i ==> entries[j].timestamp@ <= entries[index as int].timestamp@,
            forall|j: int|
                index < j < i ==> entries[j].timestamp@ < entries[index as int].timestamp@,
        decreases entries.len() - i,
    {
        if entries[i].timestamp.nanos >= entries[index].timestamp.nanos {
            index = i;
        }
        i += 1;
    }
    Some(index)
}

/// The newest entry of `entries`; `None` where there is none.
pub fn get_newest_directory_entry(entries: &Vec<PirouetteDirEntry>) -> (newest: Option<
    PirouetteDirEntry,
>)
    ensures
        newest is None <==> entries.len() == 0,
        newest matches Some(entry) ==> exists|index: int|
            is_newest(entry_views(entries@), index) && entry@ == entry_views(entries@)[index],
        newest matches Some(entry) ==> entry.timestamp@ == newest_timestamp(entry_views(entries@)),
{
    match newest_entry_index(entries) {
        None => None,
        Some(index) => {
            proof {
                lemma_newest_timestamp(entry_views(entries@), index as int);
            }
            Some(entries[index].clone())
        },
    }
}

/// What the check of a tier has found, and why.
#[derive(Debug, Clone, Copy, PartialEq, Eq, Structural)]
pub enum RotationDecision {
    /// The tier holds no snapshot: it is due.
    Empty,
    /// The newest snapshot has aged out: the tier is due.
    AgedOut,
    /// The newest snapshot is younger than the threshold: the tier is not
    /// due.
    Fresh,
    /// The newest snapshot is from the future, so the clock may be wrong:
    /// the tier is not due.
    ClockSkew,
}

impl RotationDecision {
    /// Whether the tier is due for a new snapshot.
    pub open spec fn is_due(self) -> bool {
        self == RotationDecision::Empty || self == RotationDecision::AgedOut
    }

    /// Whether the tier is due for a new snapshot.
    pub fn due(&self) -> (due: bool)
        ensures
            due == self.is_due(),
    {
        match self {
            RotationDecision::Empty => true,
            RotationDecision::AgedOut => true,
            _ => false,
        }
    }
}

/// What the check finds of a tier of `period` whose directory holds
/// `entries`, at `now`.
pub open spec fn rotation_decision(
    period: ConfigRetentionKind,
    entries: Seq<DirEntryView>,
    now: nat,
) -> RotationDecision {
    if entries.len() == 0 {
        RotationDecision::Empty
    } else if newest_timestamp(entries) > now {
        RotationDecision::ClockSkew
    } else if aged_out(period, newest_timestamp(entries), now) {
        RotationDecision::AgedOut
    } else {
        RotationDecision::Fresh
    }
}

/// A tier is due exactly where the check finds it empty or finds its
/// newest snapshot aged out.
pub proof fn lemma_decision_is_due(
    period: ConfigRetentionKind,
    entries: Seq<DirEntryView>,
    now: nat,
)
    ensures
        rotation_decision(period, entries, now).is_due() == rotation_due(period, entries, now),
{
}

/// Checks the tier of `retention_target`, whose directory holds `entries`,
/// at `now`.
pub fn decide_rotation(
    retention_target: &PirouetteRetentionTarget,
    entries: &Vec<PirouetteDirEntry>,
    now: Timestamp,
) -> (decision: RotationDecision)
    ensures
        decision == rotation_decision(retention_target.period, entry_views(entries@), now@),
        decision.is_due() == rotation_due(retention_target.period, entry_views(entries@), now@),
{
    match get_newest_directory_entry(entries) {
        // A tier without a snapshot always wants one.
        None => RotationDecision::Empty,
        Some(snapshot) => {
            if snapshot.timestamp.nanos > now.nanos {
                RotationDecision::ClockSkew
            } else if has_target_snapshot_aged_out(retention_target, &snapshot, now) {
                RotationDecision::AgedOut
            } else {
                RotationDecision::Fresh
            }
        },
    }
}

/// Whether the tier of `retention_target`, whose directory holds
/// `entries`, is due for a new snapshot at `now`.
pub fn is_rotation_due(
    retention_target: &PirouetteRetentionTarget,
    entries: &Vec<PirouetteDirEntry>,
    now: Timestamp,
) -> (due: bool)
    ensures
        due == rotation_due(retention_target.period, entry_views(entries@), now@),
        entries.len() == 0 ==> due,
        forall|i: int| 0 <= i < entries.len() && entries[i].timestamp@ > now@ ==> !due,
{
    proof {
        assert forall|i: int|
            0 <= i < entries.len() && entries[i].timestamp@ > now@ implies !rotation_due(
            retention_target.period,
            entry_views(entries@),
            now@,
        ) by {
            lemma_future_snapshot_is_not_due(
                retention_target.period,
                entry_views(entries@),
                now@,
                i,
            );
        }
    }
    decide_rotation(retention_target, entries, now).due()
}

/// What the rules see of a tier's state.
pub struct TierStateView {
    pub target: RetentionTargetView,
    pub entries: Seq<DirEntryView>,
}

/// A tier as it stands on disk: its target, and the entries that its
/// directory holds. A directory that cannot be read holds none.
#[derive(Debug)]
pub struct PirouetteTierState {
    pub target: PirouetteRetentionTarget,
    pub entries: Vec<PirouetteDirEntry>,
}

impl View for PirouetteTierState {
    type V = TierStateView;

    open spec fn view(&self) -> TierStateView {
        TierStateView { target: self.target@, entries: entry_views(self.entries@) }
    }
}

/// The views of `states`, in order.
pub open spec fn state_views(states: Seq<PirouetteTierState>) -> Seq<TierStateView> {
    states.map_values(|state: PirouetteTierState| state@)
}

/// The targets, in the order of `states`, of the tiers that are due for a
/// new snapshot at `now`.
pub open spec fn rotation_targets(states: Seq<TierStateView>, now: nat) -> Seq<
    RetentionTargetView,
> {
    states.filter(|state: TierStateView| rotation_due(state.target.period, state.entries, now))
        .map_values(|state: TierStateView| state.target)
}

/// What to do about the directory of a tier before it is listed: nothing
/// where something stands at its path, and else to create it, which a dry
/// run skips.
pub fn create_target_directory(config: &Config, directory: PathState) -> (setup: Option<DryRun>)
    ensures
        setup == if directory == PathState::Missing {
            Some(
                if config.options.dry_run {
                    DryRun::Skip
                } else {
                    DryRun::Perform
                },
            )
        } else {
            None
        },
{
    match directory {
        PathState::Missing => Some(dry_run(config.options.dry_run)),
        _ => None,
    }
}

/// The targets of the tiers that are due for a new snapshot at `now`.
pub fn get_rotation_targets(states: &Vec<PirouetteTierState>, now: Timestamp) -> (targets: Vec<
    PirouetteRetentionTarget,
>)
    ensures
        target_views(targets@) == rotation_targets(state_views(states@), now@),
{
    let mut rotation_targets: Vec<PirouetteRetentionTarget> = Vec::new();
    let ghost due = |state: TierStateView| rotation_due(state.target.period, state.entries, now@);
    let ghost target_of = |state: TierStateView| state.target;
    let ghost all = state_views(states@);
    let mut i: usize = 0;
    assert(all.take(0) =~= Seq::<TierStateView>::empty());
    assert(all.take(0).filter(due) =~= Seq::<TierStateView>::empty()) by {
        all.take(0).lemma_filter_len(due);
    }
    while i < states.len()
        invariant
            i <= states.len(),
            all == state_views(states@),
            due == |state: TierStateView| rotation_due(state.target.period, state.entries, now@),
            target_of == |state: TierStateView| state.target,
            target_views(rotation_targets@) =~= all.take(i as int).filter(due).map_values(
                target_of,
            ),
        decreases states.len() - i,
    {
        let state = &states[i];
        proof {
            assert(all.take(i + 1) =~= all.take(i as int).push(all[i as int]));
            all.take(i as int).lemma_filter_push(all[i as int], due);
            assert(all[i as int] == state@);
        }
        let ghost before = rotation_targets@;
        if is_rotation_due(&state.target, &state.entries, now) {
            rotation_targets.push(state.target.clone());
            assert(due(all[i as int]));
            assert(target_views(rotation_targets@) =~= target_views(before).push(
                target_of(all[i as int]),
            ));
            assert(all.take(i as int).filter(due).push(all[i as int]).map_values(target_of)
                =~= all.take(i as int).filter(due).map_values(target_of).push(
                target_of(all[i as int]),
            ));
        } else {
            assert(!due(all[i as int]));
        }
        i += 1;
    }
    assert(all.take(states.len() as int) =~= all);
    rotation_targets
}

/// The newest timestamp is the timestamp of the newest entry.
pub proof fn lemma_newest_timestamp(entries: Seq<DirEntryView>, index: int)
    requires
        is_newest(entries, index),
    ensures
        newest_timestamp(entries) == entries[index].timestamp,
    decreases entries.len(),
{
    let front = entries.drop_last();
    if index == entries.len() - 1 {
        lemma_newest_timestamp_bounds(front);
        if front.len() > 0 {
            let i = choose|i: int|
                0 <= i < front.len() && front[i].timestamp == newest_timestamp(front);
            assert(front[i] == entries[i]);
        }
    } else {
        assert(is_newest(front, index)) by {
            assert forall|j: int| 0 <= j < front.len() implies front[j].timestamp
                <= front[index].timestamp by {
                assert(front[j] == entries[j]);
            }
            assert forall|j: int| index < j < front.len() implies front[j].timestamp
                < front[index].timestamp by {
                assert(front[j] == entries[j]);
            }
        }
        lemma_newest_timestamp(front, index);
        assert(front[index] == entries[index]);
        assert(entries.last() == entries[entries.len() - 1]);
    }
}

/// The newest timestamp is no earlier than any entry's, and some entry
/// has it unless there is none.
pub proof fn lemma_newest_timestamp_bounds(entries: Seq<DirEntryView>)
    ensures
        forall|j: int| 0 <= j < entries.len() ==> entries[j].timestamp <= newest_timestamp(entries),
        entries.len() > 0 ==> exists|i: int|
            0 <= i < entries.len() && entries[i].timestamp == newest_timestamp(entries),
    decreases entries.len(),
{
    if entries.len() > 0 {
        let front = entries.drop_last();
        lemma_newest_timestamp_bounds(front);
        assert forall|j: int| 0 <= j < entries.len() implies entries[j].timestamp
            <= newest_timestamp(entries) by {
            if j < front.len() {
                assert(front[j] == entries[j]);
            }
        }
        if entries.last().timestamp >= newest_timestamp(front) {
            assert(entries[entries.len() - 1].timestamp == newest_timestamp(entries));
        } else {
            let i = choose|i: int|
                0 <= i < front.len() && front[i].timestamp == newest_timestamp(front);
            assert(entries[i].timestamp == newest_timestamp(entries));
        }
    }
}

/// A tier is due exactly when every snapshot it holds has aged out: an
/// empty tier is due, one snapshot that is too young keeps the tier from
/// being due, and so does one from the future.
pub proof fn lemma_rotation_due_iff_all_aged_out(
    period: ConfigRetentionKind,
    entries: Seq<DirEntryView>,
    now: nat,
)
    ensures
        rotation_due(period, entries, now) <==> forall|i: int|
            0 <= i < entries.len() ==> aged_out(period, #[trigger] entries[i].timestamp, now),
{
    lemma_newest_timestamp_bounds(entries);
    if entries.len() > 0 {
        let newest = newest_timestamp(entries);
        if aged_out(period, newest, now) {
            assert forall|i: int| 0 <= i < entries.len() implies aged_out(
                period,
                #[trigger] entries[i].timestamp,
                now,
            ) by {
                lemma_older_is_aged_out(period, entries[i].timestamp, newest, now);
            }
        }
    }
}

/// What is older than a snapshot that has aged out has aged out too.
pub proof fn lemma_older_is_aged_out(
    period: ConfigRetentionKind,
    older: nat,
    newer: nat,
    now: nat,
)
    requires
        older <= newer,
        aged_out(period, newer, now),
    ensures
        aged_out(period, older, now),
{
    assert((now - newer) / 1_000_000_000 <= (now - older) / 1_000_000_000) by (nonlinear_arith)
        requires
            older <= newer <= now,
    ;
}

/// At the threshold a snapshot has aged out; one second before it has not.
/// This holds for every period.
pub proof fn lemma_threshold_is_inclusive(period: ConfigRetentionKind, snapshot: nat, now: nat)
    ensures
        age_seconds(now, snapshot) == Some(period.threshold_seconds()) ==> aged_out(
            period,
            snapshot,
            now,
        ),
        age_seconds(now, snapshot) == Some((period.threshold_seconds() - 1) as nat) ==> !aged_out(
            period,
            snapshot,
            now,
        ),
{
}

/// A tier whose directory is empty is due, whatever its period and
/// whatever the time.
pub proof fn lemma_empty_tier_is_due(period: ConfigRetentionKind, now: nat)
    ensures
        rotation_due(period, Seq::<DirEntryView>::empty(), now),
{
}

/// A tier that holds a snapshot from the future is not due.
pub proof fn lemma_future_snapshot_is_not_due(
    period: ConfigRetentionKind,
    entries: Seq<DirEntryView>,
    now: nat,
    index: int,
)
    requires
        0 <= index < entries.len(),
        entries[index].timestamp > now,
    ensures
        !rotation_due(period, entries, now),
{
    lemma_newest_timestamp_bounds(entries);
}

} // verus!
