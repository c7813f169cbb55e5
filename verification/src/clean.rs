//! Which snapshots leave a tier that holds more than it may keep.

use crate::configuration::Config;
use crate::dry_run;
use crate::entry_views;
use crate::paths::PathState;
use crate::DirEntryView;
use crate::DryRun;
use crate::PirouetteDirEntry;
use crate::PirouetteRetentionTarget;
use vstd::prelude::*;

verus! {

/// `sorted` with `entry` put in behind the last entry that is not newer
/// than `entry`.
pub open spec fn insert_by_timestamp(sorted: Seq<DirEntryView>, entry: DirEntryView) -> Seq<
    DirEntryView,
>
    decreases sorted.len(),
{
    if sorted.len() == 0 || sorted.last().timestamp <= entry.timestamp {
        sorted.push(entry)
    } else {
        insert_by_timestamp(sorted.drop_last(), entry).push(sorted.last())
    }
}

/// `entries` from the oldest to the newest. Entries of the same age keep
/// the order they have in `entries`.
pub open spec fn oldest_first(entries: Seq<DirEntryView>) -> Seq<DirEntryView>
    decreases entries.len(),
{
    if entries.len() == 0 {
        entries
    } else {
        insert_by_timestamp(oldest_first(entries.drop_last()), entries.last())
    }
}

/// The `count` oldest of `entries`, oldest first: the snapshots that leave.
pub open spec fn expired_snapshots(entries: Seq<DirEntryView>, count: nat) -> Seq<DirEntryView> {
    oldest_first(entries).take(count as int)
}

/// What is left of `entries` once the `count` oldest have left.
pub open spec fn kept_snapshots(entries: Seq<DirEntryView>, count: nat) -> Seq<DirEntryView> {
    oldest_first(entries).skip(count as int)
}

/// How many snapshots a tier that holds `held` and may keep `max_count`
/// has too many.
pub open spec fn excess(held: nat, max_count: nat) -> nat {
    if held > max_count {
        (held - max_count) as nat
    } else {
        0
    }
}

/// Whether no entry of `entries` is older than one before it.
pub open spec fn is_oldest_first(entries: Seq<DirEntryView>) -> bool {
    forall|i: int, j: int|
        0 <= i <= j < entries.len() ==> entries[i].timestamp <= entries[j].timestamp
}

/// The timestamps of `entries`, in order.
pub open spec fn timestamps(entries: Seq<DirEntryView>) -> Seq<nat> {
    entries.map_values(|entry: DirEntryView| entry.timestamp)
}

/// Why the expired snapshots could not be told.
#[derive(Debug, Clone, Copy, PartialEq, Eq, Structural)]
pub enum CleanError {
    /// More snapshots were to leave than there are.
    NotEnoughSnapshots,
}

impl CleanError {
    /// The words that tell a user of the error.
    pub fn message(&self) -> (words: &'static str)
        ensures
            words@ == "Failed to calculate expired snapshots"@,
    {
        "Failed to calculate expired snapshots"
    }
}

/// The entries of `entries` from the oldest to the newest.
pub fn sort_oldest_first(entries: &Vec<PirouetteDirEntry>) -> (sorted: Vec<PirouetteDirEntry>)
    ensures
        entry_views(sorted@) == oldest_first(entry_views(entries@)),
{
    let mut sorted: Vec<PirouetteDirEntry> = Vec::new();
    let ghost all = entry_views(entries@);
    assert(all.take(0) =~= Seq::<DirEntryView>::empty());
    let mut i: usize = 0;
    while i < entries.len()
        invariant
            i <= entries.len(),
            all == entry_views(entries@),
            sorted.len() == i,
            entry_views(sorted@) =~= oldest_first(all.take(i as int)),
        decreases entries.len() - i,
    {
        let entry = entries[i].clone();
        let mut position: usize = sorted.len();
        while position > 0 && sorted[position - 1].timestamp.nanos > entry.timestamp.nanos
            invariant
                position <= sorted.len(),
                forall|j: int|
                    position <= j < sorted.len() ==> sorted[j].timestamp@ > entry.timestamp@,
            decreases position,
        {
            position -= 1;
        }
        proof {
            let before = entry_views(sorted@);
            lemma_insert_position(before, entry@, position as int);
            assert(all.take(i + 1).drop_last() =~= all.take(i as int));
            assert(all.take(i + 1).last() == entry@);
            assert(entry_views(sorted@.insert(position as int, entry)) =~= before.insert(
                position as int,
                entry@,
            ));
        }
        sorted.insert(position, entry);
        i += 1;
    }
    assert(all.take(entries.len() as int) =~= all);
    sorted
}

/// The `count` oldest of `entries`, oldest first. Of entries of the same
/// age, those that come first in `entries` leave first.
pub fn get_expired_snapshots(entries: Vec<PirouetteDirEntry>, count: usize) -> (expired: Result<
    Vec<PirouetteDirEntry>,
    CleanError,
>)
    ensures
        expired is Ok <==> count <= entries.len(),
        expired matches Ok(snapshots) ==> {
            &&& snapshots.len() == count
            &&& entry_views(snapshots@) == expired_snapshots(entry_views(entries@), count as nat)
        },
        expired matches Err(error) ==> error == CleanError::NotEnoughSnapshots,
{
    if count > entries.len() {
        return Err(CleanError::NotEnoughSnapshots);
    }
    // From the oldest to the newest.
    let mut sorted_entries = sort_oldest_first(&entries);
    proof {
        lemma_oldest_first(entry_views(entries@));
        assert(entry_views(sorted_entries@.take(count as int)) =~= entry_views(
            sorted_entries@,
        ).take(count as int));
    }
    sorted_entries.truncate(count);
    Ok(sorted_entries)
}

/// What the cleaner has decided for one tier.
#[derive(Debug)]
pub struct CleanPlan {
    /// The snapshots that are one too many, oldest first.
    pub expired: Vec<PirouetteDirEntry>,
    /// Whether they are deleted, or only said to be in a dry run.
    pub guard: DryRun,
}

/// Decides which of `entries`, the snapshots that the tier of
/// `retention_target` holds, leave: none where the tier holds no more than
/// it may keep, and else the oldest of them, as many as are too many. A dry
/// run deletes none of them.
pub fn clean_snapshots(
    config: &Config,
    retention_target: &PirouetteRetentionTarget,
    entries: Vec<PirouetteDirEntry>,
) -> (plan: CleanPlan)
    ensures
        entry_views(plan.expired@) == expired_snapshots(
            entry_views(entries@),
            excess(entries.len() as nat, retention_target.max_count as nat),
        ),
        plan.expired.len() == excess(entries.len() as nat, retention_target.max_count as nat),
        plan.guard == if config.options.dry_run && plan.expired.len() > 0 {
            DryRun::Skip
        } else {
            DryRun::Perform
        },
        entries.len() <= retention_target.max_count ==> plan.expired.len() == 0,
        entries.len() - plan.expired.len() <= retention_target.max_count,
{
    let current_snapshot_count = entries.len();
    // Within what the tier may keep?
    if current_snapshot_count <= retention_target.max_count {
        let plan = CleanPlan { expired: Vec::new(), guard: DryRun::Perform };
        assert(entry_views(plan.expired@) =~= expired_snapshots(entry_views(entries@), 0));
        return plan;
    }
    // Else what is too many has to go.
    let expired_snapshot_count = current_snapshot_count - retention_target.max_count;
    match get_expired_snapshots(entries, expired_snapshot_count) {
        Ok(expired) => CleanPlan { expired, guard: dry_run(config.options.dry_run) },
        Err(_) => CleanPlan { expired: Vec::new(), guard: DryRun::Perform },
    }
}

/// How a snapshot that has expired is taken off the disk.
#[derive(Debug, Clone, Copy, PartialEq, Eq, Structural)]
pub enum Removal {
    /// It is a directory: remove it with all it holds.
    Tree,
    /// It is a file: remove the file.
    File,
    /// It is neither: leave it.
    Nothing,
}

/// How the expired snapshot whose path is in `state` is taken off the
/// disk.
pub fn delete_snapshot(state: PathState) -> (removal: Removal)
    ensures
        removal == match state {
            PathState::Directory => Removal::Tree,
            PathState::File => Removal::File,
            _ => Removal::Nothing,
        },
{
    match state {
        PathState::Directory => Removal::Tree,
        PathState::File => Removal::File,
        _ => Removal::Nothing,
    }
}

/// Where `entry` comes to stand when it is put into `sorted`: behind the
/// entries before `position`, of which the last is not newer, and before
/// the rest, which are all newer.
proof fn lemma_insert_position(sorted: Seq<DirEntryView>, entry: DirEntryView, position: int)
    requires
        0 <= position <= sorted.len(),
        position > 0 ==> sorted[position - 1].timestamp <= entry.timestamp,
        forall|j: int| position <= j < sorted.len() ==> sorted[j].timestamp > entry.timestamp,
    ensures
        insert_by_timestamp(sorted, entry) == sorted.insert(position, entry),
    decreases sorted.len(),
{
    if position == sorted.len() {
        assert(sorted.insert(position, entry) =~= sorted.push(entry));
    } else {
        let front = sorted.drop_last();
        lemma_insert_position(front, entry, position);
        assert(front.insert(position, entry).push(sorted.last()) =~= sorted.insert(
            position,
            entry,
        ));
    }
}

/// Putting an entry into an ordered sequence leaves it ordered, makes it
/// one longer and adds that entry and no other.
pub proof fn lemma_insert_by_timestamp(sorted: Seq<DirEntryView>, entry: DirEntryView)
    requires
        is_oldest_first(sorted),
    ensures
        is_oldest_first(insert_by_timestamp(sorted, entry)),
        insert_by_timestamp(sorted, entry).len() == sorted.len() + 1,
        insert_by_timestamp(sorted, entry).to_multiset() == sorted.to_multiset().insert(entry),
    decreases sorted.len(),
{
    broadcast use vstd::seq_lib::to_multiset_build;

    if sorted.len() == 0 || sorted.last().timestamp <= entry.timestamp {
    } else {
        let front = sorted.drop_last();
        assert(is_oldest_first(front));
        lemma_insert_by_timestamp(front, entry);
        let placed = insert_by_timestamp(front, entry);
        assert(sorted =~= front.push(sorted.last()));
        assert(placed.push(sorted.last()).to_multiset() =~= sorted.to_multiset().insert(entry));
        assert forall|i: int, j: int| 0 <= i <= j < placed.len() + 1 implies placed.push(
            sorted.last(),
        )[i].timestamp <= placed.push(sorted.last())[j].timestamp by {
            if j == placed.len() && i < j {
                lemma_entry_of_insert(front, entry, i);
            }
        }
    }
}

/// Each entry of a sequence that `entry` was put into is `entry` or an
/// entry of the sequence before.
proof fn lemma_entry_of_insert(sorted: Seq<DirEntryView>, entry: DirEntryView, index: int)
    requires
        0 <= index <= sorted.len(),
    ensures
        insert_by_timestamp(sorted, entry).len() == sorted.len() + 1,
        insert_by_timestamp(sorted, entry)[index] == entry || exists|k: int|
            0 <= k < sorted.len() && insert_by_timestamp(sorted, entry)[index] == sorted[k],
    decreases sorted.len(),
{
    if sorted.len() == 0 || sorted.last().timestamp <= entry.timestamp {
        if index < sorted.len() {
            assert(insert_by_timestamp(sorted, entry)[index] == sorted[index]);
        }
    } else {
        let front = sorted.drop_last();
        lemma_entry_of_insert(front, entry, 0);
        if index < sorted.len() {
            lemma_entry_of_insert(front, entry, index);
            let placed = insert_by_timestamp(front, entry);
            if placed[index] != entry {
                let k = choose|k: int| 0 <= k < front.len() && placed[index] == front[k];
                assert(placed[index] == sorted[k]);
            }
        } else {
            assert(insert_by_timestamp(sorted, entry)[index] == sorted[sorted.len() - 1]);
        }
    }
}

/// Ordering oldest first leaves no entry out and adds none, and what
/// comes out is ordered.
pub proof fn lemma_oldest_first(entries: Seq<DirEntryView>)
    ensures
        is_oldest_first(oldest_first(entries)),
        oldest_first(entries).len() == entries.len(),
        oldest_first(entries).to_multiset() == entries.to_multiset(),
    decreases entries.len(),
{
    broadcast use vstd::seq_lib::to_multiset_build;

    if entries.len() > 0 {
        let front = entries.drop_last();
        lemma_oldest_first(front);
        lemma_insert_by_timestamp(oldest_first(front), entries.last());
        assert(entries =~= front.push(entries.last()));
    }
}

/// The entries of `entries` that were last changed at `timestamp`, in
/// order.
pub open spec fn of_age(entries: Seq<DirEntryView>, timestamp: nat) -> Seq<DirEntryView> {
    entries.filter(|entry: DirEntryView| entry.timestamp == timestamp)
}

/// An entry that is put into a sequence comes to stand behind the entries
/// of its own age, and the entries of any other age stay as they are.
pub proof fn lemma_insert_is_stable(sorted: Seq<DirEntryView>, entry: DirEntryView, timestamp: nat)
    ensures
        of_age(insert_by_timestamp(sorted, entry), timestamp) == if entry.timestamp == timestamp {
            of_age(sorted, timestamp).push(entry)
        } else {
            of_age(sorted, timestamp)
        },
    decreases sorted.len(),
{
    let same_age = |other: DirEntryView| other.timestamp == timestamp;
    if sorted.len() == 0 || sorted.last().timestamp <= entry.timestamp {
        sorted.lemma_filter_push(entry, same_age);
    } else {
        let front = sorted.drop_last();
        lemma_insert_is_stable(front, entry, timestamp);
        insert_by_timestamp(front, entry).lemma_filter_push(sorted.last(), same_age);
        front.lemma_filter_push(sorted.last(), same_age);
        assert(front.push(sorted.last()) =~= sorted);
    }
}

/// Ordering is stable: entries of the same age come out in the order in
/// which they went in.
pub proof fn lemma_oldest_first_is_stable(entries: Seq<DirEntryView>, timestamp: nat)
    ensures
        of_age(oldest_first(entries), timestamp) == of_age(entries, timestamp),
    decreases entries.len(),
{
    let same_age = |other: DirEntryView| other.timestamp == timestamp;
    if entries.len() > 0 {
        let front = entries.drop_last();
        lemma_oldest_first_is_stable(front, timestamp);
        lemma_insert_is_stable(oldest_first(front), entries.last(), timestamp);
        front.lemma_filter_push(entries.last(), same_age);
        assert(front.push(entries.last()) =~= entries);
    }
}

/// Two ordered sequences of the same length in which the entries of each
/// age stand in the same order are the same sequence.
pub proof fn lemma_stable_order_is_unique(x: Seq<DirEntryView>, y: Seq<DirEntryView>)
    requires
        is_oldest_first(x),
        is_oldest_first(y),
        x.len() == y.len(),
        forall|timestamp: nat| #[trigger] of_age(x, timestamp) == of_age(y, timestamp),
    ensures
        x == y,
    decreases x.len(),
{
    if x.len() == 0 {
        assert(x =~= y);
    } else {
        let x_front = x.drop_last();
        let y_front = y.drop_last();
        assert(x =~= x_front.push(x.last()));
        assert(y =~= y_front.push(y.last()));
        // The last entries are of the same age: each is the newest, and
        // an entry of its age stands in the other sequence.
        lemma_of_age_push(x_front, x.last(), x.last().timestamp);
        lemma_of_age_push(y_front, y.last(), y.last().timestamp);
        lemma_of_age_has_an_entry(y, x.last().timestamp);
        lemma_of_age_has_an_entry(x, y.last().timestamp);
        assert(of_age(x, x.last().timestamp) == of_age(y, x.last().timestamp));
        assert(of_age(x, y.last().timestamp) == of_age(y, y.last().timestamp));
        assert(x.last().timestamp == y.last().timestamp);
        // So they are the last of the same entries of that age.
        assert(x.last() == of_age(x, x.last().timestamp).last());
        assert(y.last() == of_age(y, y.last().timestamp).last());
        assert(x.last() == y.last());
        assert forall|timestamp: nat| #[trigger]
            of_age(x_front, timestamp) == of_age(y_front, timestamp) by {
            lemma_of_age_push(x_front, x.last(), timestamp);
            lemma_of_age_push(y_front, y.last(), timestamp);
            assert(of_age(x, timestamp) == of_age(y, timestamp));
            if x.last().timestamp == timestamp {
                assert(of_age(x_front, timestamp) =~= of_age(x, timestamp).drop_last());
                assert(of_age(y_front, timestamp) =~= of_age(y, timestamp).drop_last());
            }
        }
        lemma_stable_order_is_unique(x_front, y_front);
    }
}

/// The entries of an age in a sequence that has grown by one entry: the
/// new entry is the last of its own age and leaves the others as they are.
proof fn lemma_of_age_push(entries: Seq<DirEntryView>, entry: DirEntryView, timestamp: nat)
    ensures
        of_age(entries.push(entry), timestamp) == if entry.timestamp == timestamp {
            of_age(entries, timestamp).push(entry)
        } else {
            of_age(entries, timestamp)
        },
{
    entries.lemma_filter_push(entry, |other: DirEntryView| other.timestamp == timestamp);
}

/// Where there are entries of an age, one of the entries is of that age.
proof fn lemma_of_age_has_an_entry(entries: Seq<DirEntryView>, timestamp: nat)
    requires
        of_age(entries, timestamp).len() > 0,
    ensures
        exists|k: int| 0 <= k < entries.len() && entries[k].timestamp == timestamp,
{
    let same_age = |other: DirEntryView| other.timestamp == timestamp;
    let found = of_age(entries, timestamp)[0];
    entries.lemma_filter_pred(same_age, 0);
    assert(of_age(entries, timestamp).contains(found));
    entries.lemma_filter_contains_rev(same_age, found);
    let k = choose|k: int| 0 <= k < entries.len() && entries[k] == found;
    assert(entries[k].timestamp == timestamp);
}

/// The order in which the snapshots leave is the stable order by age and
/// no other: a sequence that is ordered from the oldest to the newest and
/// in which the entries of each age stand as they do in `entries` is
/// `entries` ordered oldest first.
pub proof fn lemma_oldest_first_is_the_stable_order(
    entries: Seq<DirEntryView>,
    other: Seq<DirEntryView>,
)
    requires
        is_oldest_first(other),
        other.len() == entries.len(),
        forall|timestamp: nat| #[trigger] of_age(other, timestamp) == of_age(entries, timestamp),
    ensures
        other == oldest_first(entries),
{
    lemma_oldest_first(entries);
    assert forall|timestamp: nat| #[trigger]
        of_age(other, timestamp) == of_age(oldest_first(entries), timestamp) by {
        lemma_oldest_first_is_stable(entries, timestamp);
        assert(of_age(other, timestamp) == of_age(entries, timestamp));
    }
    lemma_stable_order_is_unique(other, oldest_first(entries));
}

/// The snapshots that leave and those that stay are, taken together, the
/// snapshots that were there: as many leave as were asked for, and none is
/// lost or made up.
pub proof fn lemma_expired_and_kept_partition(entries: Seq<DirEntryView>, count: nat)
    requires
        count <= entries.len(),
    ensures
        expired_snapshots(entries, count).len() == count,
        kept_snapshots(entries, count).len() == entries.len() - count,
        expired_snapshots(entries, count).to_multiset().add(
            kept_snapshots(entries, count).to_multiset(),
        ) == entries.to_multiset(),
{
    lemma_oldest_first(entries);
    let ordered = oldest_first(entries);
    assert(ordered.take(count as int) + ordered.skip(count as int) =~= ordered);
    vstd::seq_lib::lemma_multiset_commutative(
        ordered.take(count as int),
        ordered.skip(count as int),
    );
}

/// No snapshot that leaves is newer than one that stays.
pub proof fn lemma_expired_are_oldest(entries: Seq<DirEntryView>, count: nat)
    requires
        count <= entries.len(),
    ensures
        forall|i: int, j: int|
            0 <= i < count && 0 <= j < entries.len() - count ==> #[trigger] expired_snapshots(
                entries,
                count,
            )[i].timestamp <= #[trigger] kept_snapshots(entries, count)[j].timestamp,
{
    lemma_oldest_first(entries);
    let ordered = oldest_first(entries);
    assert forall|i: int, j: int| 0 <= i < count && 0 <= j < entries.len() - count implies
        #[trigger] expired_snapshots(entries, count)[i].timestamp <= #[trigger] kept_snapshots(
        entries,
        count,
    )[j].timestamp by {
        assert(expired_snapshots(entries, count)[i] == ordered[i]);
        assert(kept_snapshots(entries, count)[j] == ordered[count + j]);
    }
}

/// An entry whose time is the epoch, as it is for one whose time could
/// not be read, is among the first to leave: where anything leaves, the
/// first to leave is of that age.
pub proof fn lemma_epoch_entries_leave_first(
    entries: Seq<DirEntryView>,
    count: nat,
    index: int,
)
    requires
        0 < count <= entries.len(),
        0 <= index < entries.len(),
        entries[index].timestamp == 0,
    ensures
        expired_snapshots(entries, count)[0].timestamp == 0,
{
    lemma_oldest_first(entries);
    lemma_same_entries(entries, oldest_first(entries), index);
    let k = choose|k: int|
        0 <= k < oldest_first(entries).len() && oldest_first(entries)[k] == entries[index];
    assert(oldest_first(entries)[0].timestamp <= oldest_first(entries)[k].timestamp);
}

/// Once what is too many has left a tier, it holds no more than it may
/// keep; and nothing leaves a tier that holds no more than that.
pub proof fn lemma_retention_is_enforced(entries: Seq<DirEntryView>, max_count: nat)
    ensures
        kept_snapshots(entries, excess(entries.len(), max_count)).len() <= max_count,
        entries.len() <= max_count ==> expired_snapshots(
            entries,
            excess(entries.len(), max_count),
        ).len() == 0,
        entries.len() <= max_count ==> kept_snapshots(
            entries,
            excess(entries.len(), max_count),
        ).to_multiset() == entries.to_multiset(),
{
    lemma_oldest_first(entries);
    lemma_expired_and_kept_partition(entries, excess(entries.len(), max_count));
    if entries.len() <= max_count {
        assert(kept_snapshots(entries, 0) =~= oldest_first(entries));
    }
}

/// An entry of one of two sequences that hold the same entries stands
/// somewhere in the other.
proof fn lemma_same_entries(x: Seq<DirEntryView>, y: Seq<DirEntryView>, index: int)
    requires
        x.to_multiset() == y.to_multiset(),
        0 <= index < x.len(),
    ensures
        exists|k: int| 0 <= k < y.len() && y[k] == x[index],
{
    vstd::seq_lib::to_multiset_contains(x, x[index]);
    vstd::seq_lib::to_multiset_contains(y, x[index]);
    assert(x.contains(x[index]));
}

/// Two ordered sequences that hold the same entries show the same
/// timestamps, place by place.
pub proof fn lemma_ordered_timestamps_agree(x: Seq<DirEntryView>, y: Seq<DirEntryView>)
    requires
        is_oldest_first(x),
        is_oldest_first(y),
        x.to_multiset() == y.to_multiset(),
    ensures
        timestamps(x) == timestamps(y),
    decreases x.len(),
{
    broadcast use vstd::seq_lib::to_multiset_remove;

    vstd::seq_lib::to_multiset_len(x);
    vstd::seq_lib::to_multiset_len(y);
    if x.len() == 0 {
        assert(timestamps(x) =~= timestamps(y));
    } else {
        let last = x.len() - 1;
        lemma_same_entries(x, y, last);
        let k = choose|k: int| 0 <= k < y.len() && y[k] == x[last];
        lemma_same_entries(y, x, last);
        let m = choose|m: int| 0 <= m < x.len() && x[m] == y[last];
        let newest = x[last].timestamp;
        assert(y[k].timestamp <= y[last].timestamp);
        assert(x[m].timestamp <= x[last].timestamp);
        assert(y[last].timestamp == newest);
        let x_front = x.remove(last);
        let y_rest = y.remove(k);
        assert(x_front.to_multiset() == y_rest.to_multiset());
        assert(is_oldest_first(x_front));
        assert(is_oldest_first(y_rest)) by {
            assert forall|i: int, j: int| 0 <= i <= j < y_rest.len() implies y_rest[i].timestamp
                <= y_rest[j].timestamp by {
                let from = if i < k {
                    i
                } else {
                    i + 1
                };
                let to = if j < k {
                    j
                } else {
                    j + 1
                };
                assert(y_rest[i] == y[from]);
                assert(y_rest[j] == y[to]);
            }
        }
        lemma_ordered_timestamps_agree(x_front, y_rest);
        assert forall|i: int| 0 <= i < x.len() implies timestamps(x)[i] == timestamps(y)[i] by {
            if i < last {
                assert(timestamps(x_front)[i] == x[i].timestamp);
                if i < k {
                    assert(timestamps(y_rest)[i] == y[i].timestamp);
                } else {
                    assert(y[k].timestamp <= y[i].timestamp <= y[last].timestamp);
                    assert(timestamps(y_rest)[i] == y[i + 1].timestamp);
                    assert(y[k].timestamp <= y[i + 1].timestamp <= y[last].timestamp);
                }
            }
        }
        assert(timestamps(x) =~= timestamps(y));
    }
}

/// Which timestamps leave does not depend on the order in which the
/// entries are given: two listings of the same entries lose snapshots of
/// the same ages.
pub proof fn lemma_expired_timestamps_ignore_order(
    a: Seq<DirEntryView>,
    b: Seq<DirEntryView>,
    count: nat,
)
    requires
        a.to_multiset() == b.to_multiset(),
        count <= a.len(),
    ensures
        timestamps(expired_snapshots(a, count)) == timestamps(expired_snapshots(b, count)),
{
    lemma_oldest_first(a);
    lemma_oldest_first(b);
    lemma_ordered_timestamps_agree(oldest_first(a), oldest_first(b));
    let x = oldest_first(a);
    let y = oldest_first(b);
    vstd::seq_lib::to_multiset_len(a);
    vstd::seq_lib::to_multiset_len(b);
    assert forall|i: int| 0 <= i < x.take(count as int).len() implies timestamps(
        x.take(count as int),
    )[i] == timestamps(y.take(count as int))[i] by {
        assert(timestamps(x)[i] == timestamps(y)[i]);
    }
    assert(timestamps(x.take(count as int)) =~= timestamps(y.take(count as int)));
}

/// Whether no two entries of `entries` have the same timestamp.
pub open spec fn has_distinct_timestamps(entries: Seq<DirEntryView>) -> bool {
    forall|i: int, j: int|
        0 <= i < j < entries.len() ==> entries[i].timestamp != entries[j].timestamp
}

/// Where no two snapshots are of the same age, which of them leave does
/// not depend on the order in which they are given.
pub proof fn lemma_expired_ignore_order(a: Seq<DirEntryView>, b: Seq<DirEntryView>, count: nat)
    requires
        a.to_multiset() == b.to_multiset(),
        has_distinct_timestamps(a),
    ensures
        expired_snapshots(a, count) == expired_snapshots(b, count),
{
    lemma_oldest_first(a);
    lemma_oldest_first(b);
    let x = oldest_first(a);
    let y = oldest_first(b);
    lemma_ordered_timestamps_agree(x, y);
    vstd::seq_lib::to_multiset_len(a);
    vstd::seq_lib::to_multiset_len(b);
    assert forall|i: int| 0 <= i < x.len() implies x[i] == y[i] by {
        // Both stand for entries of `a`, and they are of the same age.
        lemma_same_entries(x, a, i);
        let p = choose|p: int| 0 <= p < a.len() && a[p] == x[i];
        lemma_same_entries(y, a, i);
        let q = choose|q: int| 0 <= q < a.len() && a[q] == y[i];
        assert(timestamps(x)[i] == timestamps(y)[i]);
        assert(a[p].timestamp == a[q].timestamp);
        assert(p == q);
    }
    assert(x =~= y);
}

} // verus!
