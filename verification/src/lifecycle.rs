//! The stages that one tier goes through in a run.
//!
//! A tier is first checked for being due. If it is, a snapshot is written.
//! Then the retention is enforced, whether or not a snapshot was written
//! and whether or not writing it went well. Only a tier that could not be
//! checked at all, because its directory could not be made, is left alone.

use vstd::prelude::*;

verus! {

/// Where a tier stands in a run.
#[derive(Debug, Clone, Copy, PartialEq, Eq, Structural)]
pub enum TierStage {
    /// The tier is to be checked for being due.
    CheckDue,
    /// A snapshot is to be written.
    WriteSnapshot,
    /// What the tier holds too many is to leave.
    EnforceRetention,
    /// Nothing is left to do.
    Done,
}

/// How the work of a stage ended.
#[derive(Debug, Clone, Copy, PartialEq, Eq, Structural)]
pub enum StageOutcome {
    /// The check found the tier due.
    Due,
    /// The check found the tier not due.
    NotDue,
    /// The work of the stage was done.
    Finished,
    /// The work of the stage failed.
    Failed,
}

/// A tier in a run: its stage, and whether any stage so far has failed.
#[derive(Debug, Clone, Copy, PartialEq, Eq, Structural)]
pub struct TierRun {
    pub stage: TierStage,
    pub failed: bool,
}

/// The stage that follows `stage` once its work ended with `outcome`.
pub open spec fn next_stage(stage: TierStage, outcome: StageOutcome) -> TierStage {
    match stage {
        TierStage::CheckDue => match outcome {
            StageOutcome::Due => TierStage::WriteSnapshot,
            StageOutcome::Failed => TierStage::Done,
            _ => TierStage::EnforceRetention,
        },
        TierStage::WriteSnapshot => TierStage::EnforceRetention,
        TierStage::EnforceRetention => TierStage::Done,
        TierStage::Done => TierStage::Done,
    }
}

/// How many stages are at most still to come.
pub open spec fn stages_left(stage: TierStage) -> nat {
    match stage {
        TierStage::CheckDue => 3,
        TierStage::WriteSnapshot => 2,
        TierStage::EnforceRetention => 1,
        TierStage::Done => 0,
    }
}

impl TierRun {
    /// A tier at the start of a run.
    pub fn start() -> (run: TierRun)
        ensures
            run.stage == TierStage::CheckDue,
            !run.failed,
    {
        TierRun { stage: TierStage::CheckDue, failed: false }
    }

    /// The tier after the work of its stage ended with `outcome`. A
    /// failure is remembered; it ends the run of the tier only where the
    /// check itself failed.
    pub fn advance(self, outcome: StageOutcome) -> (next: TierRun)
        ensures
            next.stage == next_stage(self.stage, outcome),
            next.failed == (self.failed || (self.stage != TierStage::Done && outcome
                == StageOutcome::Failed)),
            self.stage != TierStage::Done ==> stages_left(next.stage) < stages_left(self.stage),
    {
        let stage = match self.stage {
            TierStage::CheckDue => match outcome {
                StageOutcome::Due => TierStage::WriteSnapshot,
                StageOutcome::Failed => TierStage::Done,
                _ => TierStage::EnforceRetention,
            },
            TierStage::WriteSnapshot => TierStage::EnforceRetention,
            TierStage::EnforceRetention => TierStage::Done,
            TierStage::Done => TierStage::Done,
        };
        let failed = self.failed || (self.stage != TierStage::Done && outcome
            == StageOutcome::Failed);
        TierRun { stage, failed }
    }

    /// Whether nothing is left to do for the tier.
    pub fn is_done(&self) -> (done: bool)
        ensures
            done == (self.stage == TierStage::Done),
    {
        self.stage == TierStage::Done
    }
}

/// The retention of a tier that could be checked is enforced before the
/// tier is done: after the check if the tier is not due, and after the
/// snapshot if it is, however writing the snapshot ended.
pub proof fn lemma_retention_is_always_enforced(check: StageOutcome, write: StageOutcome)
    requires
        check != StageOutcome::Failed,
    ensures
        check == StageOutcome::Due ==> next_stage(TierStage::CheckDue, check)
            == TierStage::WriteSnapshot && next_stage(TierStage::WriteSnapshot, write)
            == TierStage::EnforceRetention,
        check != StageOutcome::Due ==> next_stage(TierStage::CheckDue, check)
            == TierStage::EnforceRetention,
{
}

/// No stage but the last leads straight to the end, unless the check
/// failed: a snapshot is written only for a tier found due.
pub proof fn lemma_snapshot_only_when_due(stage: TierStage, outcome: StageOutcome)
    ensures
        next_stage(stage, outcome) == TierStage::WriteSnapshot <==> stage == TierStage::CheckDue
            && outcome == StageOutcome::Due,
{
}

} // verus!
