//! The shared raster buffer and the decisions of the workers that fill it.
//!
//! The buffer holds the pixels, the size, the iteration budget, the counter
//! from which workers draw row tickets, and the generation of the viewport:
//! a number that changes whenever the mapping from pixels to the plane does.
//! A worker captures generation and size when it claims a row and hands them
//! back with the computed row. The row is written only if both still match,
//! so a row computed for a viewport that has since changed is dropped.
//!
//! The buffer never blocks and never sleeps. The caller owns the lock around
//! it, runs the computation between `claim` and `commit` without that lock,
//! and waits when it is told to idle.

use crate::interlace::{row_of_ticket, ticket_row};
use crate::pixel::{
    copy_span, extend_buffer, extended, lemma_rows_fit, scale_rect, scaled, translate_rect,
    translated, Point32, ScaleDirection, Size32,
};
use vstd::prelude::*;

verus! {

/// By how much one adjustment changes the iteration budget.
pub const ITERATION_STEP: u32 = 1000;

/// How long an idle worker waits before it asks again, in milliseconds.
pub const IDLE_DELAY_MS: u64 = 10;

/// What a worker captured of the buffer when it claimed a row.
#[derive(Debug, Clone, Copy, PartialEq, Eq, Structural)]
pub struct Snapshot {
    /// Generation of the viewport at the claim.
    pub generation: u64,
    /// Size of the raster at the claim.
    pub size: Size32,
    /// Iteration budget at the claim.
    pub max_iterations: u32,
}

/// What a worker is told to do next.
#[derive(Debug, Clone, Copy, PartialEq, Eq, Structural)]
pub enum Claim {
    /// The buffer is shutting down: leave the loop.
    Exit,
    /// Every row of the frame is claimed: wait, then ask again.
    Idle,
    /// Compute this row for the captured state, then commit it.
    Row { row: u32, snapshot: Snapshot },
}

/// The state of a raster buffer as plain values.
#[verifier::ext_equal]
pub struct RasterState {
    pub size: Size32,
    pub pixels: Seq<u8>,
    pub generation: u64,
    pub row_claim_counter: u32,
    pub max_iterations: u32,
    pub dirty: bool,
    pub shutting_down: bool,
}

/// Whether a raster of `size` pixels, four bytes each, can be held: its pitch
/// fits 32 bits and its length fits the address space.
pub open spec fn can_hold(size: Size32) -> bool {
    &&& 4 * size.w <= u32::MAX
    &&& size.h * (4 * size.w) <= usize::MAX
}

/// The generation that follows `generation`.
pub open spec fn next_generation(generation: u64) -> u64 {
    if generation == u64::MAX {
        0
    } else {
        (generation + 1) as u64
    }
}

/// `pixels` with the `pitch` bytes of row `row` replaced by `bytes`.
pub open spec fn with_row(pixels: Seq<u8>, pitch: int, row: int, bytes: Seq<u8>) -> Seq<u8> {
    Seq::new(
        pixels.len(),
        |k: int|
            if row * pitch <= k < row * pitch + pitch {
                bytes[k - row * pitch]
            } else {
                pixels[k]
            },
    )
}

impl RasterState {
    /// Bytes from one row to the next.
    pub open spec fn pitch(self) -> int {
        4 * self.size.w
    }

    /// The pixels are a raster of the stated size without row padding.
    pub open spec fn wf(self) -> bool {
        &&& can_hold(self.size)
        &&& self.pixels.len() == self.size.h * (4 * self.size.w)
    }

    /// A zeroed buffer at generation 0 with nothing claimed.
    pub open spec fn blank(size: Size32, max_iterations: u32) -> RasterState {
        RasterState {
            size,
            pixels: Seq::new((size.h * (4 * size.w)) as nat, |k: int| 0u8),
            generation: 0,
            row_claim_counter: 0,
            max_iterations,
            dirty: false,
            shutting_down: false,
        }
    }

    /// What a claim captures.
    pub open spec fn snapshot(self) -> Snapshot {
        Snapshot {
            generation: self.generation,
            size: self.size,
            max_iterations: self.max_iterations,
        }
    }

    /// What a claim answers: exit on shutdown, idle once the counter has
    /// reached the number of rows, else the row of the ticket drawn.
    pub open spec fn claim_outcome(self) -> Claim {
        if self.shutting_down {
            Claim::Exit
        } else if self.row_claim_counter >= self.size.h {
            Claim::Idle
        } else {
            Claim::Row {
                row: row_of_ticket(self.row_claim_counter as int, self.size.h as int) as u32,
                snapshot: self.snapshot(),
            }
        }
    }

    /// The state after a claim: the counter has moved on by one ticket,
    /// unless the buffer is shutting down or the counter is at its maximum.
    pub open spec fn after_claim(self) -> RasterState {
        if self.shutting_down || self.row_claim_counter == u32::MAX {
            self
        } else {
            RasterState { row_claim_counter: (self.row_claim_counter + 1) as u32, ..self }
        }
    }

    /// Whether a computed row is written: the captured generation and size
    /// are still current, the row exists and the bytes fill it exactly.
    pub open spec fn accepts(self, snapshot: Snapshot, row: u32, bytes: Seq<u8>) -> bool {
        &&& snapshot.generation == self.generation
        &&& snapshot.size == self.size
        &&& row < self.size.h
        &&& bytes.len() == 4 * self.size.w
    }

    /// The state after a commit: the row is written and the buffer marked
    /// dirty where the row is accepted, and nothing has changed where not.
    pub open spec fn after_commit(self, snapshot: Snapshot, row: u32, bytes: Seq<u8>) -> RasterState {
        if self.accepts(snapshot, row, bytes) {
            RasterState {
                pixels: with_row(self.pixels, self.pitch(), row as int, bytes),
                dirty: true,
                ..self
            }
        } else {
            self
        }
    }

    /// The state after a pan: pixels shifted, all rows up for claiming again,
    /// and a new generation unless the pan moved nothing.
    pub open spec fn after_translate(self, delta: Point32) -> RasterState {
        RasterState {
            pixels: translated(self.pixels, self.size, self.pitch() as u32, delta),
            generation: if delta.x == 0 && delta.y == 0 {
                self.generation
            } else {
                next_generation(self.generation)
            },
            row_claim_counter: 0,
            dirty: true,
            ..self
        }
    }

    /// The state after a zoom step: pixels resampled, all rows up for
    /// claiming again, and a new generation.
    pub open spec fn after_scale(self, delta: Point32, direction: ScaleDirection) -> RasterState {
        RasterState {
            pixels: scaled(self.pixels, self.size, self.pitch() as u32, delta, direction),
            generation: next_generation(self.generation),
            row_claim_counter: 0,
            dirty: true,
            ..self
        }
    }

    /// The state after a resize: pixels cropped or grown to the new size and
    /// all rows up for claiming again, in the same generation. A size that
    /// cannot be held changes nothing.
    pub open spec fn after_resize(self, size: Size32) -> RasterState {
        if can_hold(size) {
            RasterState {
                size,
                pixels: extended(
                    self.pixels,
                    self.size,
                    self.pitch() as u32,
                    size,
                    (4 * size.w) as u32,
                ),
                row_claim_counter: 0,
                dirty: true,
                ..self
            }
        } else {
            self
        }
    }

    /// The state after the iteration budget went up or down by one step,
    /// stopping at the ends of its range: all rows are up for claiming again.
    pub open spec fn after_adjust(self, raise: bool) -> RasterState {
        RasterState {
            max_iterations: if raise {
                if self.max_iterations + ITERATION_STEP > u32::MAX {
                    u32::MAX
                } else {
                    (self.max_iterations + ITERATION_STEP) as u32
                }
            } else {
                if self.max_iterations < ITERATION_STEP {
                    0
                } else {
                    (self.max_iterations - ITERATION_STEP) as u32
                }
            },
            row_claim_counter: 0,
            ..self
        }
    }
}

/// The raster shared by the controller and the workers.
pub struct RasterBuffer {
    size: Size32,
    pixels: Vec<u8>,
    generation: u64,
    row_claim_counter: u32,
    max_iterations: u32,
    dirty: bool,
    shutting_down: bool,
}

impl View for RasterBuffer {
    type V = RasterState;

    closed spec fn view(&self) -> RasterState {
        RasterState {
            size: self.size,
            pixels: self.pixels@,
            generation: self.generation,
            row_claim_counter: self.row_claim_counter,
            max_iterations: self.max_iterations,
            dirty: self.dirty,
            shutting_down: self.shutting_down,
        }
    }
}

/// Whether a raster of `size` pixels can be held.
pub fn fits(size: Size32) -> (ok: bool)
    ensures
        ok == can_hold(size),
{
    let pitch: u64 = 4 * (size.w as u64);
    if pitch > u32::MAX as u64 {
        return false;
    }
    assert(size.h * pitch <= u64::MAX) by (nonlinear_arith)
        requires
            0 <= pitch <= u32::MAX,
            0 <= size.h <= u32::MAX,
    ;
    let len: u64 = size.h as u64 * pitch;
    len <= usize::MAX as u64
}

impl RasterBuffer {
    #[verifier::type_invariant]
    spec fn well_formed(&self) -> bool {
        self@.wf()
    }

    /// A zeroed buffer of `size` pixels with nothing claimed yet, or `None`
    /// where a raster of that size cannot be held.
    pub fn new(size: Size32, max_iterations: u32) -> (buffer: Option<RasterBuffer>)
        ensures
            buffer is Some <==> can_hold(size),
            buffer matches Some(b) ==> b@ == RasterState::blank(size, max_iterations),
    {
        if !fits(size) {
            return None;
        }
        let len: usize = size.h as usize * (4 * size.w as usize);
        let pixels: Vec<u8> = vec![0u8; len];
        let buffer = RasterBuffer {
            size,
            pixels,
            generation: 0,
            row_claim_counter: 0,
            max_iterations,
            dirty: false,
            shutting_down: false,
        };
        assert(buffer@.pixels =~= RasterState::blank(size, max_iterations).pixels);
        Some(buffer)
    }

    /// Size of the raster in pixels.
    pub fn size(&self) -> (size: Size32)
        ensures
            size == self@.size,
    {
        self.size
    }

    /// Bytes from one row to the next: four per pixel, no padding.
    pub fn pitch(&self) -> (pitch: u32)
        ensures
            pitch == self@.pitch(),
    {
        proof {
            use_type_invariant(self);
        }
        4 * self.size.w
    }

    /// The pixels, row by row, four bytes each.
    pub fn pixels(&self) -> (pixels: &Vec<u8>)
        ensures
            pixels@ == self@.pixels,
            self@.wf(),
    {
        proof {
            use_type_invariant(self);
        }
        &self.pixels
    }

    /// Generation of the viewport.
    pub fn generation(&self) -> (generation: u64)
        ensures
            generation == self@.generation,
    {
        self.generation
    }

    /// The next ticket that a claim will draw.
    pub fn row_claim_counter(&self) -> (counter: u32)
        ensures
            counter == self@.row_claim_counter,
    {
        self.row_claim_counter
    }

    /// The iteration budget.
    pub fn max_iterations(&self) -> (max_iterations: u32)
        ensures
            max_iterations == self@.max_iterations,
    {
        self.max_iterations
    }

    /// Whether a row was written since the buffer was last presented.
    pub fn is_dirty(&self) -> (dirty: bool)
        ensures
            dirty == self@.dirty,
    {
        self.dirty
    }

    /// Whether the workers were told to exit.
    pub fn is_shutting_down(&self) -> (shutting_down: bool)
        ensures
            shutting_down == self@.shutting_down,
    {
        self.shutting_down
    }

    /// Draws the next ticket and says what the worker does with it.
    pub fn claim(&mut self) -> (claim: Claim)
        ensures
            claim == old(self)@.claim_outcome(),
            final(self)@ == old(self)@.after_claim(),
    {
        proof {
            use_type_invariant(&*self);
        }
        if self.shutting_down {
            return Claim::Exit;
        }
        let ticket: u32 = self.row_claim_counter;
        if ticket < u32::MAX {
            self.row_claim_counter = ticket + 1;
        }
        if ticket >= self.size.h {
            Claim::Idle
        } else {
            Claim::Row {
                row: ticket_row(ticket, self.size.h),
                snapshot: Snapshot {
                    generation: self.generation,
                    size: self.size,
                    max_iterations: self.max_iterations,
                },
            }
        }
    }

    /// Hands in a computed row. It is written, and `true` returned, if the
    /// snapshot is still current; otherwise the row is dropped.
    pub fn commit(&mut self, snapshot: Snapshot, row: u32, bytes: &[u8]) -> (written: bool)
        ensures
            written == old(self)@.accepts(snapshot, row, bytes@),
            final(self)@ == old(self)@.after_commit(snapshot, row, bytes@),
    {
        proof {
            use_type_invariant(&*self);
        }
        let pitch: usize = 4 * (self.size.w as usize);
        if snapshot.generation != self.generation || snapshot.size.w != self.size.w
            || snapshot.size.h != self.size.h || row >= self.size.h || bytes.len() != pitch {
            return false;
        }
        proof {
            lemma_rows_fit(row + 1, self.size.h as int, pitch as int);
            assert((row + 1) * pitch == row * pitch + pitch) by (nonlinear_arith);
        }
        let at: usize = row as usize * pitch;
        copy_span(&mut self.pixels, at, bytes, 0, pitch);
        self.dirty = true;
        proof {
            assert(self@.pixels =~= with_row(old(self)@.pixels, pitch as int, row as int, bytes@));
        }
        true
    }

    /// Pans by `delta` pixels: the pixels move, every row is up for claiming
    /// again, and rows claimed before the pan will be dropped.
    pub fn translate(&mut self, delta: Point32)
        ensures
            final(self)@ == old(self)@.after_translate(delta),
    {
        proof {
            use_type_invariant(&*self);
        }
        let pitch: u32 = 4 * self.size.w;
        let pixels = translate_rect(self.pixels.as_slice(), self.size, pitch, delta);
        self.pixels = pixels;
        if delta.x != 0 || delta.y != 0 {
            self.generation = if self.generation == u64::MAX {
                0
            } else {
                self.generation + 1
            };
        }
        self.row_claim_counter = 0;
        self.dirty = true;
    }

    /// Zooms by one step anchored at `delta`: the pixels are resampled, every
    /// row is up for claiming again, and rows claimed before the step will be
    /// dropped.
    pub fn scale(&mut self, delta: Point32, direction: ScaleDirection)
        ensures
            final(self)@ == old(self)@.after_scale(delta, direction),
    {
        proof {
            use_type_invariant(&*self);
        }
        let pitch: u32 = 4 * self.size.w;
        let pixels = scale_rect(self.pixels.as_slice(), self.size, pitch, delta, direction);
        self.pixels = pixels;
        self.generation = if self.generation == u64::MAX {
            0
        } else {
            self.generation + 1
        };
        self.row_claim_counter = 0;
        self.dirty = true;
    }

    /// Resizes the raster to `size`, keeping the pixels that both sizes hold.
    /// Returns `false`, and changes nothing, where the new size cannot be held.
    pub fn resize(&mut self, size: Size32) -> (resized: bool)
        ensures
            resized == can_hold(size),
            final(self)@ == old(self)@.after_resize(size),
    {
        proof {
            use_type_invariant(&*self);
        }
        if !fits(size) {
            return false;
        }
        let pixels = extend_buffer(
            self.pixels.as_slice(),
            self.size,
            4 * self.size.w,
            size,
            4 * size.w,
        );
        *self = RasterBuffer {
            size,
            pixels,
            generation: self.generation,
            row_claim_counter: 0,
            max_iterations: self.max_iterations,
            dirty: true,
            shutting_down: self.shutting_down,
        };
        true
    }

    /// Raises or lowers the iteration budget by one step, stopping at the
    /// ends of its range, and puts every row up for claiming again.
    pub fn adjust_max_iterations(&mut self, raise: bool)
        ensures
            final(self)@ == old(self)@.after_adjust(raise),
    {
        proof {
            use_type_invariant(&*self);
        }
        self.max_iterations = if raise {
            self.max_iterations.saturating_add(ITERATION_STEP)
        } else {
            self.max_iterations.saturating_sub(ITERATION_STEP)
        };
        self.row_claim_counter = 0;
    }

    /// Reports whether a row was written since the last call, and marks the
    /// buffer as presented.
    pub fn take_dirty(&mut self) -> (was_dirty: bool)
        ensures
            was_dirty == old(self)@.dirty,
            final(self)@ == (RasterState { dirty: false, ..old(self)@ }),
    {
        proof {
            use_type_invariant(&*self);
        }
        let was_dirty = self.dirty;
        self.dirty = false;
        was_dirty
    }

    /// Tells the workers to exit at their next claim.
    pub fn shut_down(&mut self)
        ensures
            final(self)@ == (RasterState { shutting_down: true, ..old(self)@ }),
    {
        proof {
            use_type_invariant(&*self);
        }
        self.shutting_down = true;
    }
}

} // verus!
