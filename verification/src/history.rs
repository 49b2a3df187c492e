//! The buffer over any run of operations.
//!
//! The controller and the workers touch the buffer one at a time, each under
//! the lock, so whatever they do together is one sequence of operations on
//! it. The lemmas here hold of every such sequence: the buffer stays well
//! formed, its generation counts the changes of the viewport, and a row is
//! written only if the viewport and the size are still the ones that the
//! worker captured when it claimed the row.

use crate::pixel::{Point32, ScaleDirection, Size32};
use crate::raster::{RasterState, Snapshot};
use vstd::prelude::*;

verus! {

/// One operation on the buffer.
pub enum Step {
    /// A worker draws a ticket.
    Claim,
    /// A worker hands in a row.
    Commit { snapshot: Snapshot, row: u32, bytes: Seq<u8> },
    /// The controller pans.
    Translate { delta: Point32 },
    /// The controller zooms by one step.
    Scale { delta: Point32, direction: ScaleDirection },
    /// The controller resizes the raster.
    Resize { size: Size32 },
    /// The controller raises or lowers the iteration budget.
    Adjust { raise: bool },
    /// The controller presents the pixels.
    Present,
    /// The controller tells the workers to exit.
    ShutDown,
}

/// The state after one operation.
pub open spec fn after_step(state: RasterState, step: Step) -> RasterState {
    match step {
        Step::Claim => state.after_claim(),
        Step::Commit { snapshot, row, bytes } => state.after_commit(snapshot, row, bytes),
        Step::Translate { delta } => state.after_translate(delta),
        Step::Scale { delta, direction } => state.after_scale(delta, direction),
        Step::Resize { size } => state.after_resize(size),
        Step::Adjust { raise } => state.after_adjust(raise),
        Step::Present => RasterState { dirty: false, ..state },
        Step::ShutDown => RasterState { shutting_down: true, ..state },
    }
}

/// The state after a sequence of operations, first to last.
pub open spec fn after_steps(state: RasterState, steps: Seq<Step>) -> RasterState
    decreases steps.len(),
{
    if steps.len() == 0 {
        state
    } else {
        after_step(after_steps(state, steps.drop_last()), steps.last())
    }
}

/// Whether an operation changes the viewport: a pan that moves, or a zoom
/// step.
pub open spec fn moves_viewport(step: Step) -> bool {
    match step {
        Step::Translate { delta } => delta.x != 0 || delta.y != 0,
        Step::Scale { .. } => true,
        _ => false,
    }
}

/// How many operations of a sequence change the viewport.
pub open spec fn viewport_moves(steps: Seq<Step>) -> nat
    decreases steps.len(),
{
    if steps.len() == 0 {
        0
    } else {
        viewport_moves(steps.drop_last()) + if moves_viewport(steps.last()) {
            1nat
        } else {
            0nat
        }
    }
}

/// Every operation leaves a well-formed buffer well formed.
pub proof fn lemma_step_keeps_wf(state: RasterState, step: Step)
    requires
        state.wf(),
    ensures
        after_step(state, step).wf(),
{
}

/// Every sequence of operations leaves a well-formed buffer well formed.
pub proof fn lemma_steps_keep_wf(state: RasterState, steps: Seq<Step>)
    requires
        state.wf(),
    ensures
        after_steps(state, steps).wf(),
    decreases steps.len(),
{
    if steps.len() > 0 {
        lemma_steps_keep_wf(state, steps.drop_last());
        lemma_step_keeps_wf(after_steps(state, steps.drop_last()), steps.last());
    }
}

/// The generation counts the changes of the viewport, modulo its range.
pub proof fn lemma_generation_counts_moves(state: RasterState, steps: Seq<Step>)
    ensures
        after_steps(state, steps).generation == (state.generation + viewport_moves(steps))
            % 0x1_0000_0000_0000_0000,
    decreases steps.len(),
{
    if steps.len() > 0 {
        lemma_generation_counts_moves(state, steps.drop_last());
    }
}

/// A row is written only under the viewport and the size for which it was
/// computed. If a commit is accepted after any sequence of operations that
/// followed the claim, none of them changed the viewport, and the size is
/// the one at the claim. This holds as long as the viewport changed fewer
/// than 2^64 times in between, which is where generations would repeat.
pub proof fn lemma_written_rows_match_the_viewport(
    state: RasterState,
    steps: Seq<Step>,
    row: u32,
    bytes: Seq<u8>,
)
    requires
        viewport_moves(steps) < 0x1_0000_0000_0000_0000,
        after_steps(state, steps).accepts(state.snapshot(), row, bytes),
    ensures
        viewport_moves(steps) == 0,
        after_steps(state, steps).size == state.size,
        after_steps(state, steps).generation == state.generation,
{
    lemma_generation_counts_moves(state, steps);
}

/// A row claimed before the viewport changed is dropped: after any sequence
/// of operations that changed the viewport at least once, and fewer than
/// 2^64 times, a commit with the snapshot of the claim leaves the buffer as
/// it is.
pub proof fn lemma_stale_rows_are_dropped(
    state: RasterState,
    steps: Seq<Step>,
    row: u32,
    bytes: Seq<u8>,
)
    requires
        0 < viewport_moves(steps) < 0x1_0000_0000_0000_0000,
    ensures
        !after_steps(state, steps).accepts(state.snapshot(), row, bytes),
        after_step(
            after_steps(state, steps),
            Step::Commit { snapshot: state.snapshot(), row, bytes },
        ) == after_steps(state, steps),
{
    lemma_generation_counts_moves(state, steps);
}

/// Operations that neither change the viewport nor the size leave every
/// claimed row welcome: claims, commits, changes of the iteration budget,
/// presenting and the call to shut down do not stand in the way of a row of
/// the right length.
pub proof fn lemma_undisturbed_rows_are_written(
    state: RasterState,
    steps: Seq<Step>,
    row: u32,
    bytes: Seq<u8>,
)
    requires
        forall|k: int|
            0 <= k < steps.len() ==> !moves_viewport(#[trigger] steps[k]) && !(steps[k] is Resize),
        row < state.size.h,
        bytes.len() == 4 * state.size.w,
    ensures
        after_steps(state, steps).accepts(state.snapshot(), row, bytes),
    decreases steps.len(),
{
    if steps.len() > 0 {
        let earlier = steps.drop_last();
        assert forall|k: int| 0 <= k < earlier.len() implies !moves_viewport(#[trigger] earlier[k])
            && !(earlier[k] is Resize) by {
            assert(earlier[k] == steps[k]);
        }
        lemma_undisturbed_rows_are_written(state, earlier, row, bytes);
        assert(steps.last() == steps[steps.len() - 1]);
    }
}

} // verus!
