//! What one commit does to the raster.
//!
//! A row is computed without the lock, so the viewport may change while the
//! computation runs. A commit writes the whole row it is handed, or nothing,
//! and it writes only under the generation and size that the worker
//! captured. What follows from that over a run of operations is proved in
//! the module `history`.

use crate::pixel::{lemma_row_span, raster_byte, Size32};
use crate::raster::{can_hold, RasterState, Snapshot};
use vstd::prelude::*;

verus! {

/// A commit writes only what was computed for the current viewport and size,
/// and then the whole row and no other byte. A commit that is not accepted
/// leaves the buffer as it was.
pub proof fn lemma_commit_is_whole_or_nothing(
    state: RasterState,
    snapshot: Snapshot,
    row: u32,
    bytes: Seq<u8>,
)
    requires
        state.wf(),
    ensures
        ({
            let after = state.after_commit(snapshot, row, bytes);
            &&& after.wf()
            &&& after.generation == state.generation
            &&& after.size == state.size
            &&& after.row_claim_counter == state.row_claim_counter
            &&& !state.accepts(snapshot, row, bytes) ==> after == state
            &&& state.accepts(snapshot, row, bytes) ==> {
                &&& snapshot.generation == state.generation
                &&& snapshot.size == state.size
                &&& after.dirty
                &&& forall|y: int, b: int|
                    0 <= y < state.size.h && 0 <= b < state.pitch() ==> #[trigger] raster_byte(
                        after.pixels,
                        state.pitch(),
                        y,
                        b,
                    ) == (if y == row {
                        bytes[b]
                    } else {
                        raster_byte(state.pixels, state.pitch(), y, b)
                    })
            }
        }),
{
    let after = state.after_commit(snapshot, row, bytes);
    let pitch = state.pitch();
    if state.accepts(snapshot, row, bytes) {
        assert forall|y: int, b: int|
            0 <= y < state.size.h && 0 <= b < pitch implies #[trigger] raster_byte(
            after.pixels,
            pitch,
            y,
            b,
        ) == (if y == row {
            bytes[b]
        } else {
            raster_byte(state.pixels, pitch, y, b)
        }) by {
            lemma_row_span(y, state.size.h as int, pitch, b + 1);
            lemma_row_within(y, row as int, pitch, b);
        }
    }
}

/// Byte `b` of row `y` lies among the bytes of row `row` only if `y` is `row`.
proof fn lemma_row_within(y: int, row: int, pitch: int, b: int)
    by (nonlinear_arith)
    requires
        0 <= b < pitch,
    ensures
        (row * pitch <= y * pitch + b < row * pitch + pitch) <==> y == row,
{
}

/// A row claimed before a resize to another size is dropped after it.
pub proof fn lemma_resize_drops_earlier_claims(
    state: RasterState,
    size: Size32,
    row: u32,
    bytes: Seq<u8>,
)
    requires
        state.wf(),
        can_hold(size),
        size != state.size,
    ensures
        ({
            let resized = state.after_resize(size);
            &&& resized.wf()
            &&& !resized.accepts(state.snapshot(), row, bytes)
            &&& resized.after_commit(state.snapshot(), row, bytes) == resized
        }),
{
}

} // verus!
