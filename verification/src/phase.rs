//! The legal order of operations inside one simulation step.
//!
//! Velocity-Verlet advances a step in three phases: update the positions
//! from the old forces, recompute the forces, then update the velocities
//! from the average of old and new forces. The velocity update double-counts
//! the archived forces if it ever runs twice without a force recomputation
//! in between, so the driver tracks a stage value and asks this module
//! whether each operation is legal before performing it.

use vstd::prelude::*;

verus! {

/// The operation a simulation step expects next.
#[derive(Clone, Copy, Debug, PartialEq, Eq, Structural)]
pub enum StepStage {
    /// The step has not started: positions must be updated first.
    PositionUpdate,
    /// Positions are current: forces must be recomputed next.
    ForceComputation,
    /// Forces are fresh: velocities must be updated to finish the step.
    VelocityUpdate,
}

/// One of the three operations a driver performs during a step.
#[derive(Clone, Copy, Debug, PartialEq, Eq, Structural)]
pub enum StepAction {
    UpdatePositions,
    ComputeForces,
    UpdateVelocities,
}

/// The operation that is legal at a stage.
pub open spec fn expected_action(stage: StepStage) -> StepAction {
    match stage {
        StepStage::PositionUpdate => StepAction::UpdatePositions,
        StepStage::ForceComputation => StepAction::ComputeForces,
        StepStage::VelocityUpdate => StepAction::UpdateVelocities,
    }
}

/// The stage after an action: the next phase of the cycle when the action
/// is the expected one, nothing when it is out of order.
pub open spec fn next_stage(stage: StepStage, action: StepAction) -> Option<StepStage> {
    if action == expected_action(stage) {
        match stage {
            StepStage::PositionUpdate => Some(StepStage::ForceComputation),
            StepStage::ForceComputation => Some(StepStage::VelocityUpdate),
            StepStage::VelocityUpdate => Some(StepStage::PositionUpdate),
        }
    } else {
        None
    }
}

/// An operation arrived out of order; the stage says what was owed instead.
#[derive(Clone, Copy, Debug, PartialEq, Eq, Structural)]
pub struct StepOrderError {
    pub stage: StepStage,
    pub action: StepAction,
}

/// Advance the step schedule by one operation: the expected action moves
/// the cycle forward, any other action is rejected with the stage and the
/// offending action.
pub fn advance(stage: StepStage, action: StepAction) -> (r: Result<StepStage, StepOrderError>)
    ensures
        next_stage(stage, action) matches Some(next) ==> r == Ok::<StepStage, StepOrderError>(next),
        next_stage(stage, action) is None
            ==> r == Err::<StepStage, StepOrderError>(StepOrderError { stage, action }),
{
    match (stage, action) {
        (StepStage::PositionUpdate, StepAction::UpdatePositions) => {
            Ok(StepStage::ForceComputation)
        },
        (StepStage::ForceComputation, StepAction::ComputeForces) => {
            Ok(StepStage::VelocityUpdate)
        },
        (StepStage::VelocityUpdate, StepAction::UpdateVelocities) => {
            Ok(StepStage::PositionUpdate)
        },
        _ => Err(StepOrderError { stage, action }),
    }
}

/// Law: each stage accepts exactly one action — the schedule is
/// deterministic, and an accepted action is always the expected one.
pub proof fn lemma_stage_accepts_exactly_expected(stage: StepStage, action: StepAction)
    ensures
        next_stage(stage, action) is Some <==> action == expected_action(stage),
{
}

/// Law: a velocity update is never accepted twice without an intervening
/// force recomputation — after an accepted velocity update, the next
/// velocity update is rejected, which is what protects the integrator from
/// double-counting the archived forces.
pub proof fn lemma_no_double_velocity_update(stage: StepStage, next: StepStage)
    requires
        next_stage(stage, StepAction::UpdateVelocities) == Some(next),
    ensures
        next_stage(next, StepAction::UpdateVelocities) is None,
{
}

/// Law: the three operations of a step, taken in order from the start of
/// the step, are all accepted and return the schedule to the start of the
/// next step.
pub proof fn lemma_step_cycle()
    ensures
        next_stage(StepStage::PositionUpdate, StepAction::UpdatePositions)
            == Some(StepStage::ForceComputation),
        next_stage(StepStage::ForceComputation, StepAction::ComputeForces)
            == Some(StepStage::VelocityUpdate),
        next_stage(StepStage::VelocityUpdate, StepAction::UpdateVelocities)
            == Some(StepStage::PositionUpdate),
{
}

} // verus!
